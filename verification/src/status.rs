//! The status listing: how a local package compares with what the
//! registry shows, and which rows the filters keep.

use vstd::prelude::*;

use crate::cli::Status;
use crate::version::SemVer;

verus! {

/// The color a status row is shown in.
#[derive(Debug, Copy, Clone, PartialEq, Eq, Structural)]
pub enum StatusColor {
    /// Owned by us and up to date.
    Green,
    /// Owned by us, but the versions differ.
    Yellow,
    /// Not owned by us, or missing from the registry entirely.
    Red,
}

/// Whether the local and the registry version agree, ignoring any
/// prerelease identifier on either side.
pub fn versions_match(local: &SemVer, remote: &SemVer) -> (r: bool)
    ensures
        r == local@.same_triple(remote@),
{
    local.major == remote.major && local.minor == remote.minor && local.patch == remote.patch
}

/// The row color: ownership problems win over version drift.
pub fn status_color(parity_own: bool, versions_match: bool) -> (r: StatusColor)
    ensures
        !parity_own ==> r == StatusColor::Red,
        parity_own && !versions_match ==> r == StatusColor::Yellow,
        parity_own && versions_match ==> r == StatusColor::Green,
{
    if !parity_own {
        StatusColor::Red
    } else if !versions_match {
        StatusColor::Yellow
    } else {
        StatusColor::Green
    }
}

/// Whether the filters hide this row.  A package the registry does not
/// know is only hidden by the missing-filter's complement: it always
/// shows unless the row is filtered to matching categories.
pub fn status_skip(
    status: &Status,
    found: bool,
    parity_own: bool,
    versions_match: bool,
) -> (r: bool)
    ensures
        found ==> r == ((status.missing) || (status.external && parity_own) || (status.version
            && versions_match)),
        !found ==> r == false,
{
    if found {
        status.missing || (status.external && parity_own) || (status.version && versions_match)
    } else {
        false
    }
}

} // verus!
