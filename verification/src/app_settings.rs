//! The sales panel's persisted settings: which directory of game logs to
//! watch. Reading and writing the settings file is the embedding
//! application's work; the defaults and the shared-store shape live here.

use vstd::prelude::*;

verus! {

/// The panel's settings.
#[derive(Debug)]
pub struct AppSettings {
    pub watch_dir: String,
}

impl Clone for AppSettings {
    fn clone(&self) -> (r: Self)
        ensures
            r == *self,
    {
        AppSettings { watch_dir: self.watch_dir.clone() }
    }
}

impl AppSettings {
    /// The settings used until a settings file is found.
    pub fn default() -> (r: AppSettings)
        ensures
            r.watch_dir@ == "C:\\Users\\johnw\\wurm\\players\\jackjones\\logs"@,
    {
        AppSettings { watch_dir: "C:\\Users\\johnw\\wurm\\players\\jackjones\\logs".to_owned() }
    }
}

/// The settings as shared between the panel's threads; the lock around it
/// belongs to the embedding application.
#[derive(Debug)]
pub struct SharedSettings {
    pub current: AppSettings,
}

/// Wraps freshly loaded settings for sharing.
pub fn new_shared(settings: AppSettings) -> (r: SharedSettings)
    ensures
        r.current == settings,
{
    SharedSettings { current: settings }
}

} // verus!
