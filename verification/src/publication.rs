//! What a publication is for and how it ended.

use vstd::prelude::*;
use vstd::string::*;
use crate::model::{Changes, ChangesView};
use crate::status::{JobStatus, JobStatusView};
use crate::text::{decimal, decimal_string};

verus! {

/// Whether the changes call for a publication: whether there are any.
pub fn publication_needed(changes: &Changes) -> (r: bool)
    ensures
        r == !changes@.is_empty(),
{
    !changes.is_empty()
}

/// What the history says a publication was for: how many bindings were
/// added, modified and removed, and, where collections are re-created
/// with it, how many.
pub open spec fn detail_text(added: nat, modified: nat, removed: nat, recreated: nat) -> Seq<char> {
    "auto-discover changes ("@ + decimal(added) + " added, "@ + decimal(modified) + " modified, "@
        + decimal(removed) + " removed)"@ + if recreated > 0 {
        ", and re-creating "@ + decimal(recreated) + " collections"@
    } else {
        Seq::empty()
    }
}

/// The detail of the publication of `changes` that re-creates `recreated`
/// collections.
pub open spec fn detail_of(changes: ChangesView, recreated: nat) -> Seq<char> {
    detail_text(changes.added.len(), changes.modified.len(), changes.removed.len(), recreated)
}

/// Says in words what a publication is for.
pub fn publication_detail(changes: &Changes, recreated: usize) -> (r: String)
    ensures
        r@ == detail_of(changes@, recreated as nat),
{
    let mut r = "auto-discover changes (".to_owned();
    r.append(decimal_string(changes.added.len() as u128).as_str());
    r.append(" added, ");
    r.append(decimal_string(changes.modified.len() as u128).as_str());
    r.append(" modified, ");
    r.append(decimal_string(changes.removed.len() as u128).as_str());
    r.append(" removed)");
    if recreated > 0 {
        r.append(", and re-creating ");
        r.append(decimal_string(recreated as u128).as_str());
        r.append(" collections");
    }
    assert(r@ =~= detail_of(changes@, recreated as nat));
    r
}

/// What the result of a publication means for the discover that asked
/// for it.
#[derive(Clone, Copy, Debug, PartialEq, Eq, Structural)]
pub enum Verdict {
    /// The draft is live.
    Success,
    /// The draft changes collections in a way that cannot be applied to
    /// them in place.
    Incompatible,
    /// The publication failed for another reason.
    Failure,
}

/// The verdict on a result. A build that failed and lists incompatible
/// collections is `Incompatible`; any other failure is a `Failure`.
pub open spec fn verdict_of(result: JobStatusView) -> Verdict {
    match result {
        JobStatusView::Success => Verdict::Success,
        JobStatusView::BuildFailed { incompatible_collections } => if incompatible_collections.len()
            > 0 {
            Verdict::Incompatible
        } else {
            Verdict::Failure
        },
        _ => Verdict::Failure,
    }
}

/// Classifies the result of a publication.
pub fn classify(result: &JobStatus) -> (r: Verdict)
    ensures
        r == verdict_of(result@),
{
    match result {
        JobStatus::Success => Verdict::Success,
        JobStatus::BuildFailed { incompatible_collections } => if incompatible_collections.len()
            > 0 {
            Verdict::Incompatible
        } else {
            Verdict::Failure
        },
        _ => Verdict::Failure,
    }
}

} // verus!
