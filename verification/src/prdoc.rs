//! Dependency-change records from the change documents, and the rule
//! that classifies a requirement change as breaking.

use vstd::prelude::*;

verus! {

/// One changed dependency declaration of a package.
#[derive(Debug, Clone)]
pub struct DepChange {
    pub name: String,
    pub path: String,
    /// The dependency whose declaration changed.
    pub dep: String,
    /// Whether the change is breaking for users of the package.
    pub breaking: bool,
}

/// Whether moving a requirement from one major/minor pair to another is
/// a breaking change: the major components differ, or they are both in
/// the `0.x` range where the minor component is the breaking one and the
/// minors differ.
pub fn req_change_breaking(
    old_major: u64,
    old_minor: u64,
    new_major: u64,
    new_minor: u64,
) -> (r: bool)
    ensures
        r == (old_major != new_major || (old_major == 0 && old_minor != new_minor)),
{
    old_major != new_major || (old_major == 0 && old_minor != new_minor)
}

} // verus!
