//! User-drawn map layers: the display properties of one drawn feature.
//! The feature geometry itself is free-form JSON owned by the map view,
//! so it stays with the embedding application; the properties every
//! feature carries are modeled here.

use vstd::prelude::*;

verus! {

/// The persistence file name for a map's user layers.
pub fn get_layers_file_name(map_id: &str) -> (r: String)
    ensures
        r@ == "user_layers_"@ + map_id@ + ".json"@,
{
    let mut out: String = "user_layers_".to_owned();
    out.append(map_id);
    out.append(".json");
    proof {
        assert(out@ =~= "user_layers_"@ + map_id@ + ".json"@);
    }
    out
}

/// The display properties of a user-drawn feature.
#[derive(Clone, Debug)]
pub struct UserFeatureProperties {
    pub name: String,
    pub description: Option<String>,
    pub icon: Option<String>,
}

} // verus!
