use vstd::prelude::*;

verus! {

// ---------------------------------------------------------------------------
// Configuration paths. The manager decides where the configuration
// directory and the database live; creating files and loading keys is
// input/output and stays with the caller.
// ---------------------------------------------------------------------------
/// The configuration directory, under the caller's home directory.
pub open spec fn spec_config_dir_name() -> Seq<char> {
    ".bpm"@
}

/// The database directory inside the configuration directory.
pub open spec fn spec_db_dir_name() -> Seq<char> {
    "db"@
}

/// Knows where the configuration directory and the database live.
#[derive(Debug, PartialEq, Eq)]
pub struct ConfigManager {
    path: String,
}

impl View for ConfigManager {
    type V = Seq<char>;

    closed spec fn view(&self) -> Seq<char> {
        self.path@
    }
}

impl ConfigManager {
    /// A manager rooted at the given configuration directory.
    pub fn from_path(directory_path: &String) -> (r: ConfigManager)
        ensures
            r@ == directory_path@,
    {
        ConfigManager { path: directory_path.clone() }
    }

    /// The configuration directory.
    pub fn get_path(&self) -> (r: String)
        ensures
            r@ == self@,
    {
        self.path.clone()
    }

    /// The database directory: `db` inside the configuration directory.
    pub fn get_db_path(&self) -> (r: String)
        ensures
            r@ == self@ + "/"@ + spec_db_dir_name(),
    {
        let mut p = self.path.clone();
        p.append("/");
        p.append("db");
        p
    }
}

/// The configuration manager for a base directory: the configuration
/// lives in `.bpm` under it.
pub fn init_config(path: &String) -> (r: ConfigManager)
    ensures
        r@ == path@ + "/"@ + spec_config_dir_name(),
{
    let mut config_path = path.clone();
    config_path.append("/");
    config_path.append(".bpm");
    ConfigManager::from_path(&config_path)
}

} // verus!
