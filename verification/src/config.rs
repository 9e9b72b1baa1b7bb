//! Where the application keeps its data.
use vstd::prelude::*;
use crate::text::{chars_of, push_all, string_of};

verus! {

/// The application's data directory.
#[derive(Debug, Clone, PartialEq, Eq)]
pub struct Config {
    pub config_path: String,
}

/// The database file name: a separate one for development builds.
pub open spec fn database_name(debug_build: bool) -> Seq<char> {
    if debug_build {
        "zmp_dev"@
    } else {
        "zmp"@
    }
}

impl Config {
    /// The configuration for this data directory.
    pub fn new(config_path: String) -> (r: Config)
        ensures
            r.config_path == config_path,
    {
        Config { config_path }
    }

    /// The SQLite connection string of the database inside the data
    /// directory: `sqlite:///<dir>/<name>.db`.
    pub fn sqlite_path(&self, debug_build: bool) -> (r: String)
        ensures
            r@ == "sqlite:///"@ + self.config_path@ + "/"@ + database_name(debug_build) + ".db"@,
    {
        let mut out: Vec<char> = Vec::new();
        push_all(&mut out, &chars_of("sqlite:///"));
        push_all(&mut out, &chars_of(self.config_path.as_str()));
        push_all(&mut out, &chars_of("/"));
        let name = if debug_build {
            "zmp_dev"
        } else {
            "zmp"
        };
        push_all(&mut out, &chars_of(name));
        push_all(&mut out, &chars_of(".db"));
        string_of(&out)
    }
}

} // verus!
