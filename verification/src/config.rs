//! The standing configuration that accompanies a plan: manifest edits
//! to apply to chosen crates on every run.

use vstd::prelude::*;

use crate::plan::{RemoveCrate, RemoveDep, RemoveFeature};

verus! {

/// The configured edits for one crate.
#[derive(Debug, Clone)]
pub struct Crate {
    pub name: String,
    pub remove_feature: Vec<RemoveFeature>,
    pub remove_dep: Vec<RemoveDep>,
}

/// The whole configuration.
#[derive(Debug, Clone)]
pub struct Config {
    pub crates: Vec<Crate>,
    pub remove_crates: Vec<RemoveCrate>,
}

} // verus!
