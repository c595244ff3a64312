//! What processing the expressions of a project gives.

use vstd::prelude::*;

verus! {

/// Processed expressions, by kind.
#[derive(Debug)]
pub struct Processed {
    pub accounts: Vec<()>,
    pub references: Vec<()>,
    pub events: Vec<()>,
    pub transactions: Vec<()>,
}

/// The model being built while processing.
#[derive(Debug)]
pub struct Model {
    pub global: Option<()>,
    pub mode: Option<()>,
    pub accounts: Option<()>,
    pub reference: Option<()>,
    pub event: Option<()>,
}

} // verus!
