//! Claiming unpublished crate names on the registry: the decision for
//! each crate, given who owns its name.

use vstd::prelude::*;

use crate::shared::Owner;

verus! {

/// What to do about one crate's name.
#[derive(Debug, Copy, Clone, PartialEq, Eq, Structural)]
pub enum ClaimAction {
    /// The crate is set to not publish: leave it alone.
    NotPublishable,
    /// We already own the name: nothing to do.
    AlreadyOurs,
    /// Someone else owns the name: report it and fail the run.
    OwnedElsewhere,
    /// Nobody owns the name: publish a placeholder to claim it.
    ClaimName,
}

/// The decision for one crate.
pub fn claim_action(publish_eligible: bool, owner: Owner) -> (r: ClaimAction)
    ensures
        !publish_eligible ==> r == ClaimAction::NotPublishable,
        publish_eligible && owner == Owner::Us ==> r == ClaimAction::AlreadyOurs,
        publish_eligible && owner == Owner::Other ==> r == ClaimAction::OwnedElsewhere,
        publish_eligible && owner == Owner::Nobody ==> r == ClaimAction::ClaimName,
{
    if !publish_eligible {
        ClaimAction::NotPublishable
    } else {
        match owner {
            Owner::Us => ClaimAction::AlreadyOurs,
            Owner::Other => ClaimAction::OwnedElsewhere,
            Owner::Nobody => ClaimAction::ClaimName,
        }
    }
}

/// The exit status of a claim run: one exactly when some crate's name
/// is owned elsewhere.
pub fn claim_exit_code(actions: &Vec<ClaimAction>) -> (r: i32)
    ensures
        (r == 1) == (exists|k: int|
            0 <= k < actions@.len() && actions@[k] == ClaimAction::OwnedElsewhere),
        r == 0 || r == 1,
{
    let n = actions.len();
    let mut k: usize = 0;
    while k < n
        invariant
            n == actions@.len(),
            k <= n,
            forall|j: int| 0 <= j < k ==> actions@[j] != ClaimAction::OwnedElsewhere,
        decreases n - k,
    {
        if actions[k] == ClaimAction::OwnedElsewhere {
            return 1;
        }
        k += 1;
    }
    0
}

} // verus!
