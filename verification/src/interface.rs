//! The records that the launcher keeps.
use vstd::prelude::*;

verus! {

#[verifier::external_type_specification]
#[verifier::external_body]
pub struct ExNaiveDateTime(chrono::NaiveDateTime);

/// The launcher's settings.
pub struct Config {
    /// The folders whose subfolders are games.
    pub scan_dir: Vec<String>,
}

impl Default for Config {
    /// No folder to scan.
    fn default() -> (c: Self)
        ensures
            c.scan_dir@.len() == 0,
    {
        Config { scan_dir: Vec::new() }
    }
}

/// A game of the library.
pub struct Game {
    pub id: i64,
    pub es_id: Option<i64>,
    pub name: String,
    pub main_image: Option<String>,
    pub images: Option<String>,
    pub brand_id: Option<i64>,
    pub library_registered: bool,
    pub library_registered_at: Option<chrono::NaiveDateTime>,
    pub last_played_at: Option<chrono::NaiveDateTime>,
    pub folder: Option<String>,
    pub executable: Option<String>,
    pub executable_auto_detect: Option<bool>,
    pub play_count: i64,
    pub play_time: i64,
}

} // verus!
