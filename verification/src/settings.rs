//! The user-tweakable configuration and its default value; reading and
//! writing the configuration file is the terminal layer's work.
use vstd::prelude::*;

use crate::colors::Colors;

verus! {

/// The configuration the user can tweak: an API key, three palette colors,
/// and the table columns.
pub struct AppConfig {
    pub api_key: String,
    pub main_color: Colors,
    pub secondary_color: Colors,
    pub accent_color: Colors,
    pub columns: Vec<String>,
}

impl AppConfig {
    /// The configuration a fresh install starts from: no key, a light
    /// palette, and the nine standard columns.
    pub fn create_default_config() -> (r: AppConfig)
        ensures
            r.api_key@ == Seq::<char>::empty(),
            r.main_color is Light,
            r.secondary_color is Dark,
            r.accent_color is Blue,
            r.columns@.len() == 9,
            r.columns@[0]@ == "ID"@,
            r.columns@[1]@ == "PRIORITY"@,
            r.columns@[2]@ == "TOPIC"@,
            r.columns@[3]@ == "TODO"@,
            r.columns@[4]@ == "SUBs"@,
            r.columns@[5]@ == "CREATED"@,
            r.columns@[6]@ == "DUE DATE"@,
            r.columns@[7]@ == "STATUS"@,
            r.columns@[8]@ == "OWNER"@,
    {
        let mut columns: Vec<String> = Vec::new();
        columns.push("ID".to_owned());
        columns.push("PRIORITY".to_owned());
        columns.push("TOPIC".to_owned());
        columns.push("TODO".to_owned());
        columns.push("SUBs".to_owned());
        columns.push("CREATED".to_owned());
        columns.push("DUE DATE".to_owned());
        columns.push("STATUS".to_owned());
        columns.push("OWNER".to_owned());
        AppConfig {
            api_key: String::new(),
            main_color: Colors::Light,
            secondary_color: Colors::Dark,
            accent_color: Colors::Blue,
            columns,
        }
    }
}

} // verus!
