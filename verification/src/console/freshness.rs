//! How fresh a registered repository's index is: its checkout's head and
//! whether the work tree is dirty, beside the indexed commit.

use vstd::prelude::*;

verus! {

/// A repository's head and dirtiness beside its indexed commit.
#[derive(Debug, PartialEq)]
pub struct Freshness {
    pub head: Option<String>,
    pub indexed_commit: Option<String>,
    pub dirty: Option<bool>,
    pub unavailable_reason: Option<String>,
    pub inspected_at_unix_ms: u64,
}

impl Clone for Freshness {
    fn clone(&self) -> (res: Self)
        ensures
            res == *self,
    {
        Freshness {
            head: crate::protocol::copy_opt_string(&self.head),
            indexed_commit: crate::protocol::copy_opt_string(&self.indexed_commit),
            dirty: self.dirty,
            unavailable_reason: crate::protocol::copy_opt_string(&self.unavailable_reason),
            inspected_at_unix_ms: self.inspected_at_unix_ms,
        }
    }
}

/// How long an inspection stays cached, in milliseconds.
pub const FRESHNESS_CACHE_MILLIS: u64 = 5000;

/// A cached inspection answers when it is younger than the cache period,
/// with the indexed commit asked about now.
pub fn cached_freshness(cached: &Freshness, age_millis: u64, indexed_commit: Option<String>) -> (res:
    Option<Freshness>)
    ensures
        age_millis >= FRESHNESS_CACHE_MILLIS ==> res is None,
        age_millis < FRESHNESS_CACHE_MILLIS ==> res == Some(
            Freshness { indexed_commit: indexed_commit, ..*cached },
        ),
{
    if age_millis >= FRESHNESS_CACHE_MILLIS {
        return None;
    }
    let mut result = cached.clone();
    result.indexed_commit = indexed_commit;
    Some(result)
}

/// How inspecting a checkout went.
#[derive(Debug, PartialEq)]
pub enum Inspection {
    /// The head commit, if the branch has one, and whether anything is
    /// changed or untracked.
    Inspected { head: Option<String>, dirty: bool },
    /// The checkout could not be read.
    Unavailable,
    /// The inspection did not finish in time.
    TimedOut,
}

/// The freshness an inspection reports at `now`: its head and dirtiness,
/// or why they are unknown.
pub fn freshness_from(inspection: Inspection, indexed_commit: Option<String>, now: u64) -> (res:
    Freshness)
    ensures
        res.indexed_commit == indexed_commit,
        res.inspected_at_unix_ms == now,
        match inspection {
            Inspection::Inspected { head, dirty } => res.head == head && res.dirty == Some(dirty)
                && res.unavailable_reason is None,
            Inspection::Unavailable => res.head is None && res.dirty is None && (
            res.unavailable_reason matches Some(r) && r@ == "inspection_unavailable"@),
            Inspection::TimedOut => res.head is None && res.dirty is None && (
            res.unavailable_reason matches Some(r) && r@ == "inspection_timeout"@),
        },
{
    let (head, dirty, unavailable_reason) = match inspection {
        Inspection::Inspected { head, dirty } => (head, Some(dirty), None),
        Inspection::Unavailable => (None, None, Some("inspection_unavailable".to_owned())),
        Inspection::TimedOut => (None, None, Some("inspection_timeout".to_owned())),
    };
    Freshness { head, indexed_commit, dirty, unavailable_reason, inspected_at_unix_ms: now }
}

} // verus!
