//! Small items shared across the crate.

use vstd::prelude::*;

verus! {

/// Who owns a crate name on the remote registry.
#[derive(Debug, Copy, Clone, PartialEq, Eq, Structural)]
pub enum Owner {
    /// Owned by this project's account.
    Us,
    /// Not present on the registry at all.
    Nobody,
    /// Owned by someone else.
    Other,
}

/// Relies on `str`'s `==`: character-for-character comparison of two
/// string slices.
#[verifier::external_body]
pub fn str_eq(a: &str, b: &str) -> (r: bool)
    ensures
        r == (a@ == b@),
{
    a == b
}

/// Whether a bump kind is the default (no change).
pub fn is_default(t: &crate::plan::BumpKind) -> (r: bool)
    ensures
        r == (*t == crate::plan::BumpKind::Unchanged),
{
    *t == crate::plan::BumpKind::Unchanged
}

/// Whether a flag differs from its serialized default of `false`.
pub fn is_not_default(t: &bool) -> (r: bool)
    ensures
        r == *t,
{
    *t
}

/// The default for flags that are on unless written otherwise.
pub fn bool_true() -> (r: bool)
    ensures
        r,
{
    true
}

} // verus!
