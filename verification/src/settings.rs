//! The project settings (`Bit.toml`) and the checks made on them.

use vstd::prelude::*;

use crate::corelib::{join, join_path};

verus! {

/// BIT Config
#[derive(Debug, Default)]
pub struct Settings {
    pub name: String,
    pub description: Option<String>,
    pub year: i32,
    pub currency: String,
    pub bit_version: u32,
    pub dependencies: Dependencies,
}

/// Where the project's files are, relative to its root.
#[derive(Debug, Default)]
pub struct Dependencies {
    pub accounts_path: String,
    pub docs_path: String,
    pub notes_path: String,
}

/// Path of the settings file of the project at `root`.
pub fn settings_file(root: &str) -> (r: String)
    ensures
        r@ == join_path(root@, "Bit.toml"@),
{
    join(root, "Bit.toml")
}

impl Settings {
    /// Path of the accounts file of the project at `root`.
    pub fn accounts_path(&self, root: &str) -> (r: String)
        ensures
            r@ == join_path(root@, self.dependencies.accounts_path@),
    {
        join(root, self.dependencies.accounts_path.as_str())
    }

    /// Path of the notes folder of the project at `root`.
    pub fn notes_path(&self, root: &str) -> (r: String)
        ensures
            r@ == join_path(root@, self.dependencies.notes_path@),
    {
        join(root, self.dependencies.notes_path.as_str())
    }

    /// The settings are usable when the accounts file and the notes folder
    /// exist.
    pub fn check_dependencies(accounts_exists: bool, notes_exists: bool) -> (res: Result<(), String>)
        ensures
            !accounts_exists ==> (res matches Err(e) && e@ == "Accounts file does not exist!"@),
            accounts_exists && !notes_exists ==> (res matches Err(e) && e@
                == "NOTEs path not exist or not a folder!"@),
            accounts_exists && notes_exists ==> res is Ok,
    {
        if !accounts_exists {
            return Err("Accounts file does not exist!".to_string());
        }
        if !notes_exists {
            return Err("NOTEs path not exist or not a folder!".to_string());
        }
        Ok(())
    }
}

} // verus!
