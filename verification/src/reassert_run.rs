//! Re-asserting the packing as a run of actions: the relay batch of one
//! `assign_core` per core is dry-run when dry runs are required, then
//! submitted unless that dry run failed; either way the era is marked as
//! re-asserted, so it happens at most once per era. The caller performs
//! each action and reports its outcome.

use vstd::prelude::*;

use crate::dispatch::{assign_item_ok, is_assign, spec_period, BatchPlan, ChainKind, Dispatcher, InnerCall};
use crate::model::{CorePacking, HistoryEntry};
use crate::scheduler::{
    batch_entry, batch_summary, lemma_bounded_push_last, reassert_calls, reassert_gate, record_reassert,
};
use crate::shared::Shared;
use crate::state_store::bounded_push;
use crate::step_run::batch_of;

verus! {

/// What the caller does next.
#[derive(Clone, Copy, Debug, PartialEq, Eq, Structural)]
pub enum ReassertAction {
    /// Dry-run the batch.
    DryRun,
    /// Submit the batch.
    Submit,
    /// Stop.
    Finished,
}

/// A packing re-assertion in progress.
pub struct ReassertRun {
    /// The era it counts for.
    pub abs_era: u32,
    pub requires_dry_run: bool,
    /// The relay batch (none when there is nothing to send).
    pub batch: Option<BatchPlan>,
    pub action: ReassertAction,
}

/// Batch `b` re-asserts `cores` from timeslice `begin`: one wrapped relay
/// `batch_all` of their `assign_core` calls, in order.
pub open spec fn reassert_batch_ok(d: Dispatcher, b: BatchPlan, cores: Seq<CorePacking>, begin: u32) -> bool {
    &&& b.chain == ChainKind::Relay
    &&& b.count == cores.len()
    &&& d.wraps(b.call, ChainKind::Relay)
    &&& match b.call.inner {
        InnerCall::BatchAll { utility_pallet, calls } => {
            &&& utility_pallet == d.resolved.spec_utility_for(ChainKind::Relay)
            &&& calls@.len() == cores.len()
            &&& forall|i: int|
                0 <= i < cores.len() ==> is_assign(
                    #[trigger] calls@[i],
                    cores[i].core,
                    begin,
                    cores[i].assignments@,
                )
        },
        _ => false,
    }
}

/// A run names an action it can take.
pub open spec fn reassert_wf(r: ReassertRun) -> bool {
    &&& r.action != ReassertAction::Finished ==> r.batch is Some
    &&& r.action == ReassertAction::DryRun ==> r.requires_dry_run
}

/// `s1` is `s0` with era `era` marked as re-asserted and the history
/// `history`; nothing else changes.
pub open spec fn marked(s0: Shared, s1: Shared, era: u32, history: Seq<HistoryEntry>) -> bool {
    &&& s1.inner.persisted.last_reassert_era == Some(era)
    &&& s1.inner.persisted.history@ == history
    &&& s1.inner.persisted.start_era == s0.inner.persisted.start_era
    &&& s1.inner.persisted.last_dispatch_era == s0.inner.persisted.last_dispatch_era
    &&& s1.inner.persisted.paused == s0.inner.persisted.paused
    &&& s1.inner.persisted.current_step_id == s0.inner.persisted.current_step_id
    &&& s1.inner.persisted.started_at == s0.inner.persisted.started_at
    &&& s1.inner.persisted.applied_at@ == s0.inner.persisted.applied_at@
    &&& s1.inner.snapshot == s0.inner.snapshot
    &&& s1.inner.dispatcher_armed == s0.inner.dispatcher_armed
    &&& s1.inner.last_error == s0.inner.last_error
    &&& s1.inner.health_reasons@ == s0.inner.health_reasons@
    &&& s1.plan == s0.plan
    &&& s1.control_token == s0.control_token
    &&& s1.state_path == s0.state_path
}

fn mark(shared: &mut Shared, era: u32)
    ensures
        marked(*old(shared), *final(shared), era, old(shared).inner.persisted.history@),
{
    record_reassert(&mut shared.inner.persisted, era);
}

/// Starts re-asserting `cores` at relay block `best` for era `abs_era`: the
/// relay batch of one `assign_core` per core from the next timeslice
/// boundary, and its first action (its dry run when dry runs are required,
/// else its submission). With no core, or no computable boundary, there is
/// nothing to send: the era is marked at once.
pub fn begin_reassert(
    dispatcher: &Dispatcher,
    cores: &Vec<CorePacking>,
    best: u64,
    abs_era: u32,
    shared: &mut Shared,
) -> (r: (ReassertRun, ReassertAction))
    ensures
        r.0.abs_era == abs_era,
        r.0.requires_dry_run == dispatcher.dry_run_first,
        ({
            let q = (best as int) / spec_period(dispatcher.resolved.timeslice_period);
            if q < u64::MAX && cores@.len() > 0 {
                match r.0.batch {
                    Some(b) => reassert_batch_ok(*dispatcher, b, cores@, (q + 1) as u32),
                    None => false,
                }
            } else {
                r.0.batch is None
            }
        }),
        r.0.action == if r.0.batch is None {
            ReassertAction::Finished
        } else if dispatcher.dry_run_first {
            ReassertAction::DryRun
        } else {
            ReassertAction::Submit
        },
        reassert_wf(r.0),
        r.1 == r.0.action,
        r.0.action == ReassertAction::Finished ==> marked(
            *old(shared),
            *final(shared),
            abs_era,
            old(shared).inner.persisted.history@,
        ),
        r.0.action != ReassertAction::Finished ==> *final(shared) == *old(shared),
{
    let tp: u64 = if dispatcher.resolved.timeslice_period > 1 {
        dispatcher.resolved.timeslice_period as u64
    } else {
        1
    };
    let batch = if best / tp < u64::MAX && cores.len() > 0 {
        let (begin, items) = reassert_calls(dispatcher, cores, best);
        let b = batch_of(dispatcher, ChainKind::Relay, &items);
        proof {
            let bb = b->Some_0;
            match bb.call.inner {
                InnerCall::BatchAll { utility_pallet, calls: cs } => {
                    assert forall|i: int| 0 <= i < cores@.len() implies is_assign(
                        #[trigger] cs@[i],
                        cores@[i].core,
                        begin,
                        cores@[i].assignments@,
                    ) by {
                        assert(assign_item_ok(items@[i], dispatcher.resolved, cores@[i], begin));
                    }
                },
                _ => {},
            }
        }
        b
    } else {
        None
    };
    let requires_dry_run = dispatcher.requires_dry_run();
    let action = match batch {
        None => {
            mark(shared, abs_era);
            ReassertAction::Finished
        },
        Some(_) => {
            if requires_dry_run {
                ReassertAction::DryRun
            } else {
                ReassertAction::Submit
            }
        },
    };
    (ReassertRun { abs_era, requires_dry_run, batch, action }, action)
}

/// Records the batch's dry run: on to the submission when it passed;
/// otherwise the re-assertion is skipped and the era marked.
pub fn on_reassert_dry_run(run: &mut ReassertRun, shared: &mut Shared, passed: bool) -> (a: ReassertAction)
    requires
        reassert_wf(*old(run)),
        old(run).action == ReassertAction::DryRun,
    ensures
        final(run).abs_era == old(run).abs_era,
        final(run).requires_dry_run == old(run).requires_dry_run,
        final(run).batch == old(run).batch,
        final(run).action == if passed {
            ReassertAction::Submit
        } else {
            ReassertAction::Finished
        },
        passed ==> *final(shared) == *old(shared),
        !passed ==> marked(*old(shared), *final(shared), old(run).abs_era, old(shared).inner.persisted.history@),
        reassert_wf(*final(run)),
        a == final(run).action,
{
    if reassert_gate(run.requires_dry_run, passed) {
        run.action = ReassertAction::Submit;
    } else {
        mark(shared, run.abs_era);
        run.action = ReassertAction::Finished;
    }
    run.action
}

/// The history entry of a re-assertion's submission: a relay batch record
/// under step 0, finalized with its hashes or failed with its error.
pub open spec fn reassert_entry_ok(e: HistoryEntry, count: usize, outcome: Result<(String, String), String>, at: String) -> bool {
    &&& e.at == at
    &&& e.step_id == 0
    &&& e.chain@ == "relay"@
    &&& e.call@ == "utility.batch_all"@
    &&& e.args_summary@ == batch_summary(count)
    &&& match outcome {
        Ok((tx, block)) => {
            &&& e.status@ == "finalized"@
            &&& e.tx_hash == Some(tx)
            &&& e.block_hash == Some(block)
            &&& e.error is None
        },
        Err(m) => {
            &&& e.status@ == "error"@
            &&& e.tx_hash is None
            &&& e.block_hash is None
            &&& e.error == Some(m)
        },
    }
}

/// Records the batch's submission (`outcome`: the transaction and block
/// hashes, or the error text): one history entry, the era marked, and the
/// run finished.
pub fn on_reassert_submit(
    run: &mut ReassertRun,
    shared: &mut Shared,
    outcome: Result<(String, String), String>,
    at: String,
) -> (a: ReassertAction)
    requires
        reassert_wf(*old(run)),
        old(run).action == ReassertAction::Submit,
    ensures
        final(run).abs_era == old(run).abs_era,
        final(run).batch == old(run).batch,
        final(run).action == ReassertAction::Finished,
        ({
            let h = final(shared).inner.persisted.history@;
            let e = h.last();
            &&& h.len() > 0
            &&& marked(
                *old(shared),
                *final(shared),
                old(run).abs_era,
                bounded_push(old(shared).inner.persisted.history@, e),
            )
            &&& reassert_entry_ok(e, old(run).batch->Some_0.count, outcome, at)
        }),
        a == ReassertAction::Finished,
{
    let count = match &run.batch {
        Some(b) => b.count,
        None => 0,
    };
    let entry = match outcome {
        Ok((tx, block)) => batch_entry(at, 0, ChainKind::Relay, count, "finalized", Some(tx), Some(block), None),
        Err(m) => batch_entry(at, 0, ChainKind::Relay, count, "error", None, None, Some(m)),
    };
    let ghost e = entry;
    shared.inner.persisted.push_history(entry);
    proof {
        lemma_bounded_push_last(old(shared).inner.persisted.history@, e);
    }
    mark(shared, run.abs_era);
    run.action = ReassertAction::Finished;
    ReassertAction::Finished
}

} // verus!
