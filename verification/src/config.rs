//! The project configuration file's contents.

use vstd::prelude::*;

verus! {

/// BIT Config
#[derive(Debug)]
pub struct Config {
    pub name: String,
    pub description: Option<String>,
    pub year: String,
    pub currency: String,
    pub dependencies: Dependencies,
}

/// The files a project is made of.
#[derive(Debug)]
pub struct Dependencies {
    pub accounts: String,
    pub balance_sheet: String,
    pub profit_loss: String,
    pub logs: String,
}

} // verus!
