//! Scheduler progress and dispatch history that survive restarts (the
//! caller writes them to disk). Keys are never part of it.

use std::collections::BTreeMap;

use vstd::prelude::*;

use crate::model::HistoryEntry;

verus! {

/// Most history entries kept.
pub const HISTORY_MAX: usize = 2000;

/// Persisted progress and history.
pub struct Persisted {
    pub started_at: String,
    /// Absolute era observed at first start (anchor for era offsets).
    pub start_era: Option<u32>,
    /// Absolute era of the last successful dispatch (soak anchor).
    pub last_dispatch_era: Option<u32>,
    /// Absolute era of the last packing re-assertion (throttle).
    pub last_reassert_era: Option<u32>,
    /// Recorded current step id (the truth is derived from the chain).
    pub current_step_id: Option<u32>,
    pub paused: bool,
    /// Step id -> when its targets were dispatched.
    pub applied_at: BTreeMap<u32, String>,
    pub history: Vec<HistoryEntry>,
}

/// The history after appending `e` and keeping the newest `HISTORY_MAX`.
pub open spec fn bounded_push(h: Seq<HistoryEntry>, e: HistoryEntry) -> Seq<HistoryEntry> {
    let p = h.push(e);
    if p.len() > 2000 {
        p.subrange(p.len() - 2000, p.len() as int)
    } else {
        p
    }
}

impl Persisted {
    /// Fresh progress started at `started_at`: nothing anchored, nothing
    /// dispatched, not paused, empty history.
    pub fn fresh(started_at: String) -> (r: Persisted)
        ensures
            r.started_at == started_at,
            r.start_era is None,
            r.last_dispatch_era is None,
            r.last_reassert_era is None,
            r.current_step_id is None,
            !r.paused,
            r.applied_at@ == Map::<u32, String>::empty(),
            r.history@.len() == 0,
    {
        Persisted {
            started_at,
            start_era: None,
            last_dispatch_era: None,
            last_reassert_era: None,
            current_step_id: None,
            paused: false,
            applied_at: BTreeMap::new(),
            history: Vec::new(),
        }
    }

    /// Appends to the history, dropping the oldest entries beyond the bound.
    pub fn push_history(&mut self, entry: HistoryEntry)
        ensures
            final(self).history@ == bounded_push(old(self).history@, entry),
            final(self).started_at == old(self).started_at,
            final(self).start_era == old(self).start_era,
            final(self).last_dispatch_era == old(self).last_dispatch_era,
            final(self).last_reassert_era == old(self).last_reassert_era,
            final(self).current_step_id == old(self).current_step_id,
            final(self).paused == old(self).paused,
            final(self).applied_at@ == old(self).applied_at@,
    {
        let ghost p = self.history@.push(entry);
        self.history.push(entry);
        let ghost mut removed: int = 0;
        while self.history.len() > HISTORY_MAX
            invariant
                0 <= removed <= p.len(),
                self.history@ == p.subrange(removed, p.len() as int),
                p.len() <= 2000 ==> removed == 0,
                p.len() > 2000 ==> removed <= p.len() - 2000,
                self.started_at == old(self).started_at,
                self.start_era == old(self).start_era,
                self.last_dispatch_era == old(self).last_dispatch_era,
                self.last_reassert_era == old(self).last_reassert_era,
                self.current_step_id == old(self).current_step_id,
                self.paused == old(self).paused,
                self.applied_at@ == old(self).applied_at@,
            decreases self.history@.len(),
        {
            self.history.remove(0);
            proof {
                removed = removed + 1;
            }
            assert(self.history@ =~= p.subrange(removed, p.len() as int));
        }
        assert(p.len() <= 2000 ==> self.history@ =~= p);
    }
}

/// Law: the history never holds more than 2000 entries after an append, and
/// the appended entry is always the newest one kept.
pub proof fn law_history_bounded(h: Seq<HistoryEntry>, e: HistoryEntry)
    ensures
        bounded_push(h, e).len() <= 2000,
        bounded_push(h, e).len() > 0,
        bounded_push(h, e).last() == e,
        h.len() < 2000 ==> bounded_push(h, e) == h.push(e),
{
    let p = h.push(e);
    if p.len() > 2000 {
        assert(p.subrange(p.len() - 2000, p.len() as int).last() == e);
    }
}

} // verus!
