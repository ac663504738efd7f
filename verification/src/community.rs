//! The community map data the panels cache on disk: deeds, structures,
//! bridges and map objects, each cache stamped with the time it was
//! fetched. The file and network work stays in the embedding application;
//! the cache-freshness rule is decided here.

use vstd::prelude::*;

verus! {

/// How long a fetched cache stays usable, in seconds: one day.
pub const CACHE_MAX_AGE_SECONDS: i64 = 86400;

/// Whether a cache fetched at `fetched_at` is still usable at `now`
/// (both Unix timestamps in seconds): its age must not exceed one day.
/// A stamp from the future counts as fresh, as its age is not positive.
pub fn cache_is_fresh(fetched_at: i64, now: i64) -> (r: bool)
    ensures
        r == (now - fetched_at <= 86400),
{
    let age: i128 = (now as i128) - (fetched_at as i128);
    age <= 86400
}

/// The cache file name for a map's deeds.
pub fn get_deeds_file_name(map_id: &str) -> (r: String)
    ensures
        r@ == "community_deeds_"@ + map_id@ + ".json"@,
{
    let mut out: String = "community_deeds_".to_owned();
    out.append(map_id);
    out.append(".json");
    proof {
        assert(out@ =~= "community_deeds_"@ + map_id@ + ".json"@);
    }
    out
}

/// The cache file name for a map's guard towers.
pub fn get_guard_towers_file_name(map_id: &str) -> (r: String)
    ensures
        r@ == "community_guard_towers_"@ + map_id@ + ".json"@,
{
    let mut out: String = "community_guard_towers_".to_owned();
    out.append(map_id);
    out.append(".json");
    proof {
        assert(out@ =~= "community_guard_towers_"@ + map_id@ + ".json"@);
    }
    out
}

/// The cache file name for a map's mission structures.
pub fn get_mission_structures_file_name(map_id: &str) -> (r: String)
    ensures
        r@ == "community_mission_structures_"@ + map_id@ + ".json"@,
{
    let mut out: String = "community_mission_structures_".to_owned();
    out.append(map_id);
    out.append(".json");
    proof {
        assert(out@ =~= "community_mission_structures_"@ + map_id@ + ".json"@);
    }
    out
}

/// The cache file name for a map's bridges.
pub fn get_bridges_file_name(map_id: &str) -> (r: String)
    ensures
        r@ == "community_bridges_"@ + map_id@ + ".json"@,
{
    let mut out: String = "community_bridges_".to_owned();
    out.append(map_id);
    out.append(".json");
    proof {
        assert(out@ =~= "community_bridges_"@ + map_id@ + ".json"@);
    }
    out
}

/// The cache file name for a map's other map objects.
pub fn get_map_objects_file_name(map_id: &str) -> (r: String)
    ensures
        r@ == "community_map_objects_"@ + map_id@ + ".json"@,
{
    let mut out: String = "community_map_objects_".to_owned();
    out.append(map_id);
    out.append(".json");
    proof {
        assert(out@ =~= "community_map_objects_"@ + map_id@ + ".json"@);
    }
    out
}

/// One community deed marker.
#[derive(Clone, Debug)]
pub struct CommunityDeed {
    pub name: String,
    pub coords: [i32; 2],
    pub deed_type: String,
    pub extra: Option<String>,
}

/// The cached deed list and when it was fetched.
#[derive(Clone, Debug)]
pub struct CommunityDeedsCache {
    pub deeds: Vec<CommunityDeed>,
    pub fetched_at: i64,
}

impl CommunityDeedsCache {
    pub fn is_fresh(&self, now: i64) -> (r: bool)
        ensures
            r == (now - self.fetched_at <= 86400),
    {
        cache_is_fresh(self.fetched_at, now)
    }
}

/// One community structure marker (a guard tower or mission structure).
#[derive(Clone, Debug)]
pub struct CommunityStructure {
    pub name: String,
    pub coords: [i32; 2],
    pub structure_type: String,
}

/// The cached structure list and when it was fetched.
#[derive(Clone, Debug)]
pub struct CommunityStructuresCache {
    pub structures: Vec<CommunityStructure>,
    pub fetched_at: i64,
}

impl CommunityStructuresCache {
    pub fn is_fresh(&self, now: i64) -> (r: bool)
        ensures
            r == (now - self.fetched_at <= 86400),
    {
        cache_is_fresh(self.fetched_at, now)
    }
}

/// One community bridge, from its start corner to its end corner.
#[derive(Clone, Debug)]
pub struct CommunityBridge {
    pub name: String,
    pub coords: [[i32; 2]; 2],
}

/// The cached bridge list and when it was fetched.
#[derive(Clone, Debug)]
pub struct CommunityBridgesCache {
    pub bridges: Vec<CommunityBridge>,
    pub fetched_at: i64,
}

impl CommunityBridgesCache {
    pub fn is_fresh(&self, now: i64) -> (r: bool)
        ensures
            r == (now - self.fetched_at <= 86400),
    {
        cache_is_fresh(self.fetched_at, now)
    }
}

/// One community map object (a tunnel or canal span).
#[derive(Clone, Debug)]
pub struct CommunityMapObject {
    pub name: String,
    pub start_coords: [i32; 2],
    pub end_coords: [i32; 2],
    pub is_tunnel: bool,
    pub is_canal: bool,
}

/// The cached map-object list and when it was fetched.
#[derive(Clone, Debug)]
pub struct CommunityMapObjectsCache {
    pub objects: Vec<CommunityMapObject>,
    pub fetched_at: i64,
}

impl CommunityMapObjectsCache {
    pub fn is_fresh(&self, now: i64) -> (r: bool)
        ensures
            r == (now - self.fetched_at <= 86400),
    {
        cache_is_fresh(self.fetched_at, now)
    }
}

} // verus!
