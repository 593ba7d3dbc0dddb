//! One step's dispatch as a run of actions: every call of the step is
//! dry-run in order (relay calls, then Asset Hub calls), then each chain's
//! atomic batch is dry-run (relay first), then, unless simulating or a
//! required dry run failed, the batches are submitted in the same order,
//! stopping at the first failure. The caller performs each action and
//! reports its outcome; these functions record it and name the next action.

use vstd::prelude::*;
use vstd::string::StringExecFns;

use crate::dispatch::{same_call, BatchPlan, ChainKind, DispatchItem, Dispatcher, InnerCall};
use crate::scheduler::{
    dispatch_gate, item_entry, lemma_bounded_push_last, record_step_applied, record_submit,
    spec_gate, submit_ok, DispatchGate, StepCalls,
};
use crate::shared::Shared;
use crate::state::spec_era_of;
use crate::state_store::bounded_push;
use crate::text::{decimal, push_decimal};

verus! {

/// Where a step's dispatch stands.
#[derive(Clone, Copy, Debug, PartialEq, Eq, Structural)]
pub enum StepPhase {
    /// Dry-running the calls one by one.
    ItemDryRuns,
    /// Dry-running the chains' atomic batches.
    BatchDryRuns,
    /// Submitting the batches.
    Submits,
    /// Nothing more to do.
    Finished,
}

/// What the caller does next.
#[derive(Clone, Copy, Debug, PartialEq, Eq, Structural)]
pub enum StepAction {
    /// Dry-run call `i` of the step.
    DryRunItem(usize),
    /// Dry-run batch `j`.
    DryRunBatch(usize),
    /// Submit batch `j`.
    Submit(usize),
    /// Stop.
    Finished,
}

/// A step's dispatch in progress.
pub struct StepRun {
    pub step_id: u32,
    pub simulate: bool,
    pub requires_dry_run: bool,
    /// Session of the snapshot the step was built from (its era is the soak
    /// anchor once the step lands).
    pub session_index: u32,
    /// The relay calls, then the Asset Hub calls.
    pub items: Vec<DispatchItem>,
    /// The relay batch (when it has calls), then the Asset Hub batch (when
    /// it has calls).
    pub batches: Vec<BatchPlan>,
    pub phase: StepPhase,
    /// Position within the phase.
    pub next: usize,
    /// No dry run has failed so far.
    pub all_ok: bool,
}

/// The action a run names.
pub open spec fn action_of(r: StepRun) -> StepAction {
    match r.phase {
        StepPhase::ItemDryRuns => StepAction::DryRunItem(r.next),
        StepPhase::BatchDryRuns => StepAction::DryRunBatch(r.next),
        StepPhase::Submits => StepAction::Submit(r.next),
        StepPhase::Finished => StepAction::Finished,
    }
}

/// A run names an action that exists, and submits only when the dry runs
/// allow it.
pub open spec fn run_wf(r: StepRun) -> bool {
    &&& r.phase == StepPhase::ItemDryRuns ==> r.next < r.items@.len()
    &&& r.phase == StepPhase::BatchDryRuns ==> r.next < r.batches@.len()
    &&& r.phase == StepPhase::Submits ==> r.next < r.batches@.len() && spec_gate(
        r.simulate,
        r.all_ok,
        r.requires_dry_run,
    ) == DispatchGate::Submit
    &&& r.phase == StepPhase::Finished ==> r.next == 0
}

/// The dry runs are over (the last call with no batch, or the last batch).
pub open spec fn ends_dry_runs(r: StepRun) -> bool {
    ||| (r.phase == StepPhase::ItemDryRuns && r.next >= r.items@.len() && r.batches@.len() == 0)
    ||| (r.phase == StepPhase::BatchDryRuns && r.next >= r.batches@.len())
}

/// Where a run goes once its position may have passed the end of its
/// phase: from the calls to the batches, from the dry runs to submission
/// (or to the end when simulating or aborting), from the last submission to
/// the end.
pub open spec fn settled(r: StepRun) -> (StepPhase, usize) {
    if ends_dry_runs(r) {
        if spec_gate(r.simulate, r.all_ok, r.requires_dry_run) == DispatchGate::Submit
            && r.batches@.len() > 0 {
            (StepPhase::Submits, 0)
        } else {
            (StepPhase::Finished, 0)
        }
    } else if r.phase == StepPhase::ItemDryRuns && r.next >= r.items@.len() {
        (StepPhase::BatchDryRuns, 0)
    } else if r.phase == StepPhase::Submits && r.next >= r.batches@.len() {
        (StepPhase::Finished, 0)
    } else {
        (r.phase, r.next)
    }
}

/// The error recorded when a required dry run failed.
pub open spec fn abort_text(step_id: u32) -> Seq<char> {
    "step "@ + decimal(step_id as nat) + " dry-run failed; aborted"@
}

/// Settling `r` aborts the step.
pub open spec fn aborts(r: StepRun) -> bool {
    ends_dry_runs(r) && spec_gate(r.simulate, r.all_ok, r.requires_dry_run) == DispatchGate::Abort
}

/// Settling `r` lands a step that has nothing to submit.
pub open spec fn lands_empty(r: StepRun) -> bool {
    &&& ends_dry_runs(r)
    &&& spec_gate(r.simulate, r.all_ok, r.requires_dry_run) == DispatchGate::Submit
    &&& r.batches@.len() == 0
}

/// Shared state `s1` is `s0` after settling `r` at `at` (the history
/// aside): an abort sets the abort error; a step with nothing to submit is
/// recorded as applied (soak anchor and applied time); nothing else
/// changes.
pub open spec fn settle_ok(s0: Shared, s1: Shared, r: StepRun, at: String) -> bool {
    &&& if aborts(r) {
        match s1.inner.last_error {
            Some(t) => t@ == abort_text(r.step_id),
            None => false,
        }
    } else {
        s1.inner.last_error == s0.inner.last_error
    }
    &&& if lands_empty(r) {
        &&& s1.inner.persisted.last_dispatch_era == Some(spec_era_of(r.session_index))
        &&& s1.inner.persisted.applied_at@ == s0.inner.persisted.applied_at@.insert(r.step_id, at)
    } else {
        &&& s1.inner.persisted.last_dispatch_era == s0.inner.persisted.last_dispatch_era
        &&& s1.inner.persisted.applied_at@ == s0.inner.persisted.applied_at@
    }
    &&& s1.inner.persisted.start_era == s0.inner.persisted.start_era
    &&& s1.inner.persisted.last_reassert_era == s0.inner.persisted.last_reassert_era
    &&& s1.inner.persisted.paused == s0.inner.persisted.paused
    &&& s1.inner.persisted.current_step_id == s0.inner.persisted.current_step_id
    &&& s1.inner.persisted.started_at == s0.inner.persisted.started_at
    &&& s1.inner.snapshot == s0.inner.snapshot
    &&& s1.inner.dispatcher_armed == s0.inner.dispatcher_armed
    &&& s1.inner.health_reasons@ == s0.inner.health_reasons@
    &&& s1.plan == s0.plan
    &&& s1.control_token == s0.control_token
    &&& s1.state_path == s0.state_path
}

/// Two runs of the same step (calls, batches and settings).
pub open spec fn same_run(a: StepRun, b: StepRun) -> bool {
    &&& a.step_id == b.step_id
    &&& a.simulate == b.simulate
    &&& a.requires_dry_run == b.requires_dry_run
    &&& a.session_index == b.session_index
    &&& a.items@ == b.items@
    &&& a.batches@ == b.batches@
}

/// `r` moved to position `next` with dry-run record `all_ok`.
pub open spec fn moved(r: StepRun, next: usize, all_ok: bool) -> StepRun {
    StepRun {
        step_id: r.step_id,
        simulate: r.simulate,
        requires_dry_run: r.requires_dry_run,
        session_index: r.session_index,
        items: r.items,
        batches: r.batches,
        phase: r.phase,
        next,
        all_ok,
    }
}

/// A run's start: the first call's dry run, nothing failed yet.
pub open spec fn at_start(r: StepRun) -> StepRun {
    StepRun {
        step_id: r.step_id,
        simulate: r.simulate,
        requires_dry_run: r.requires_dry_run,
        session_index: r.session_index,
        items: r.items,
        batches: r.batches,
        phase: StepPhase::ItemDryRuns,
        next: 0,
        all_ok: true,
    }
}

/// Batch `b` is `chain`'s atomic batch of `calls`.
pub open spec fn batch_for(d: Dispatcher, b: BatchPlan, chain: ChainKind, calls: Seq<DispatchItem>) -> bool {
    &&& b.chain == chain
    &&& b.count == calls.len()
    &&& d.wraps(b.call, chain)
    &&& match b.call.inner {
        InnerCall::BatchAll { utility_pallet, calls: cs } => {
            &&& utility_pallet == d.resolved.spec_utility_for(chain)
            &&& cs@.len() == calls.len()
            &&& forall|i: int| 0 <= i < calls.len() ==> same_call(#[trigger] cs@[i], calls[i].call)
        },
        _ => false,
    }
}

/// The batches of a step: the relay's (when it has calls), then Asset
/// Hub's (when it has calls).
pub open spec fn batches_ok(d: Dispatcher, bs: Seq<BatchPlan>, relay: Seq<DispatchItem>, ah: Seq<DispatchItem>) -> bool {
    let nr: int = if relay.len() > 0 { 1 } else { 0 };
    &&& bs.len() == nr + if ah.len() > 0 { 1int } else { 0int }
    &&& relay.len() > 0 ==> batch_for(d, bs[0], ChainKind::Relay, relay)
    &&& ah.len() > 0 ==> batch_for(d, bs[nr], ChainKind::AssetHub, ah)
}

fn refs_of(v: &Vec<DispatchItem>) -> (r: Vec<&DispatchItem>)
    ensures
        r@.len() == v@.len(),
        forall|i: int| 0 <= i < v@.len() ==> *r@[i] == v@[i],
{
    let mut r: Vec<&DispatchItem> = Vec::new();
    for i in 0..v.len()
        invariant
            r@.len() == i,
            forall|k: int| 0 <= k < i ==> *r@[k] == v@[k],
    {
        r.push(&v[i]);
    }
    r
}

pub(crate) fn batch_of(d: &Dispatcher, chain: ChainKind, v: &Vec<DispatchItem>) -> (r: Option<BatchPlan>)
    ensures
        v@.len() == 0 ==> r is None,
        v@.len() > 0 ==> (match r {
            Some(b) => batch_for(*d, b, chain, v@),
            None => false,
        }),
{
    let refs = refs_of(v);
    let r = d.batch(chain, &refs);
    proof {
        if v@.len() > 0 {
            let b = r->Some_0;
            assert(d.batch_ok(b, chain, refs@));
            match b.call.inner {
                InnerCall::BatchAll { utility_pallet, calls: cs } => {
                    assert forall|i: int| 0 <= i < v@.len() implies same_call(#[trigger] cs@[i], v@[i].call) by {
                        assert(*refs@[i] == v@[i]);
                    }
                },
                _ => {},
            }
        }
    }
    r
}

/// Moves a run past the end of its phase (see [`settled`]), with the
/// effects of the end of the dry runs.
fn settle(run: &mut StepRun, shared: &mut Shared, at: String)
    requires
        old(run).phase == StepPhase::ItemDryRuns ==> old(run).next <= old(run).items@.len(),
        old(run).phase == StepPhase::BatchDryRuns ==> old(run).next <= old(run).batches@.len(),
        old(run).phase == StepPhase::Submits ==> old(run).next <= old(run).batches@.len() && spec_gate(
            old(run).simulate,
            old(run).all_ok,
            old(run).requires_dry_run,
        ) == DispatchGate::Submit,
        old(run).phase == StepPhase::Finished ==> old(run).next == 0,
    ensures
        same_run(*final(run), *old(run)),
        final(run).all_ok == old(run).all_ok,
        (final(run).phase, final(run).next) == settled(*old(run)),
        run_wf(*final(run)),
        settle_ok(*old(shared), *final(shared), *old(run), at),
        final(shared).inner.persisted.history@ == old(shared).inner.persisted.history@,
{
    if run.phase == StepPhase::ItemDryRuns && run.next >= run.items.len() {
        run.phase = StepPhase::BatchDryRuns;
        run.next = 0;
    }
    if run.phase == StepPhase::BatchDryRuns && run.next >= run.batches.len() {
        match dispatch_gate(run.simulate, run.all_ok, run.requires_dry_run) {
            DispatchGate::SimulateOnly => {
                run.phase = StepPhase::Finished;
                run.next = 0;
            },
            DispatchGate::Abort => {
                let mut msg = String::new();
                msg.append("step ");
                push_decimal(&mut msg, run.step_id as u128);
                msg.append(" dry-run failed; aborted");
                shared.inner.last_error = Some(msg);
                run.phase = StepPhase::Finished;
                run.next = 0;
            },
            DispatchGate::Submit => {
                if run.batches.len() > 0 {
                    run.phase = StepPhase::Submits;
                    run.next = 0;
                } else {
                    record_step_applied(&mut shared.inner.persisted, run.session_index, run.step_id, at);
                    run.phase = StepPhase::Finished;
                    run.next = 0;
                }
            },
        }
    }
    if run.phase == StepPhase::Submits && run.next >= run.batches.len() {
        run.phase = StepPhase::Finished;
        run.next = 0;
    }
}

/// Starts a step's dispatch: its calls (relay, then Asset Hub), the
/// chains' batches, and the first action (the first call's dry run).
pub fn begin_step(
    dispatcher: &Dispatcher,
    calls: StepCalls,
    step_id: u32,
    simulate: bool,
    session_index: u32,
    shared: &mut Shared,
    at: String,
) -> (r: (StepRun, StepAction))
    ensures
        r.0.step_id == step_id,
        r.0.simulate == simulate,
        r.0.requires_dry_run == dispatcher.dry_run_first,
        r.0.session_index == session_index,
        r.0.items@ == calls.relay@ + calls.ah@,
        batches_ok(*dispatcher, r.0.batches@, calls.relay@, calls.ah@),
        r.0.all_ok,
        (r.0.phase, r.0.next) == settled(at_start(r.0)),
        run_wf(r.0),
        r.1 == action_of(r.0),
        settle_ok(*old(shared), *final(shared), at_start(r.0), at),
        final(shared).inner.persisted.history@ == old(shared).inner.persisted.history@,
{
    let StepCalls { packing: _, begin: _, relay, ah } = calls;
    let mut batches: Vec<BatchPlan> = Vec::new();
    match batch_of(dispatcher, ChainKind::Relay, &relay) {
        Some(b) => batches.push(b),
        None => {},
    }
    let ghost nr: int = batches@.len() as int;
    match batch_of(dispatcher, ChainKind::AssetHub, &ah) {
        Some(b) => batches.push(b),
        None => {},
    }
    let mut items = relay;
    let mut rest = ah;
    items.append(&mut rest);
    let mut run = StepRun {
        step_id,
        simulate,
        requires_dry_run: dispatcher.requires_dry_run(),
        session_index,
        items,
        batches,
        phase: StepPhase::ItemDryRuns,
        next: 0,
        all_ok: true,
    };
    let ghost start = run;
    settle(&mut run, shared, at);
    assert(settled(at_start(run)) == settled(start));
    assert(aborts(at_start(run)) == aborts(start));
    assert(lands_empty(at_start(run)) == lands_empty(start));
    let a = action(&run);
    (run, a)
}

/// The action a run names.
pub fn action(run: &StepRun) -> (a: StepAction)
    ensures
        a == action_of(*run),
{
    match run.phase {
        StepPhase::ItemDryRuns => StepAction::DryRunItem(run.next),
        StepPhase::BatchDryRuns => StepAction::DryRunBatch(run.next),
        StepPhase::Submits => StepAction::Submit(run.next),
        StepPhase::Finished => StepAction::Finished,
    }
}

/// Records the dry run of the current call (`outcome`: passed, or the
/// error text): one history entry ("dry_run_ok" or "dry_run_failed", with
/// the error), then names the next action.
pub fn on_item_dry_run(run: &mut StepRun, shared: &mut Shared, outcome: Result<(), String>, at: String) -> (a: StepAction)
    requires
        run_wf(*old(run)),
        old(run).phase == StepPhase::ItemDryRuns,
    ensures
        ({
            let i = old(run).next as int;
            let it = old(run).items@[i];
            let e = final(shared).inner.persisted.history@.last();
            &&& final(shared).inner.persisted.history@.len() > 0
            &&& final(shared).inner.persisted.history@ == bounded_push(old(shared).inner.persisted.history@, e)
            &&& e.at == at
            &&& e.step_id == old(run).step_id
            &&& e.chain@ == it.chain.spec_api_name()
            &&& e.call == it.call_path
            &&& e.args_summary == it.args_summary
            &&& e.tx_hash is None
            &&& e.block_hash is None
            &&& match outcome {
                Ok(_) => e.status@ == "dry_run_ok"@ && e.error is None,
                Err(m) => e.status@ == "dry_run_failed"@ && e.error == Some(m),
            }
        }),
        ({
            let mid = moved(*old(run), (old(run).next + 1) as usize, old(run).all_ok && outcome is Ok);
            &&& same_run(*final(run), *old(run))
            &&& final(run).all_ok == mid.all_ok
            &&& (final(run).phase, final(run).next) == settled(mid)
            &&& settle_ok(*old(shared), *final(shared), mid, at)
        }),
        run_wf(*final(run)),
        a == action_of(*final(run)),
{
    let i = run.next;
    let n = run.items.len();
    let ok = outcome.is_ok();
    let entry = match outcome {
        Ok(_) => item_entry(at.clone(), run.step_id, &run.items[i], "dry_run_ok", None, None, None),
        Err(m) => item_entry(at.clone(), run.step_id, &run.items[i], "dry_run_failed", None, None, Some(m)),
    };
    let ghost e = entry;
    shared.inner.persisted.push_history(entry);
    proof {
        lemma_bounded_push_last(old(shared).inner.persisted.history@, e);
    }
    run.all_ok = run.all_ok && ok;
    run.next = i + 1;
    let ghost mid = *run;
    let ghost sh = *shared;
    settle(run, shared, at);
    assert(mid == moved(*old(run), (old(run).next + 1) as usize, old(run).all_ok && ok));
    action(run)
}

/// Records the dry run of the current batch (no history entry), then names
/// the next action.
pub fn on_batch_dry_run(run: &mut StepRun, shared: &mut Shared, passed: bool, at: String) -> (a: StepAction)
    requires
        run_wf(*old(run)),
        old(run).phase == StepPhase::BatchDryRuns,
    ensures
        final(shared).inner.persisted.history@ == old(shared).inner.persisted.history@,
        ({
            let mid = moved(*old(run), (old(run).next + 1) as usize, old(run).all_ok && passed);
            &&& same_run(*final(run), *old(run))
            &&& final(run).all_ok == mid.all_ok
            &&& (final(run).phase, final(run).next) == settled(mid)
            &&& settle_ok(*old(shared), *final(shared), mid, at)
        }),
        run_wf(*final(run)),
        a == action_of(*final(run)),
{
    let nb = run.batches.len();
    run.all_ok = run.all_ok && passed;
    run.next = run.next + 1;
    let ghost mid = *run;
    settle(run, shared, at);
    assert(mid == moved(*old(run), (old(run).next + 1) as usize, old(run).all_ok && passed));
    action(run)
}

/// Records the submission of the current batch (`outcome`: the transaction
/// and block hashes, or the error text; see [`record_submit`]): a failure
/// ends the step, a success goes on to the next batch or ends it.
pub fn on_submit(run: &mut StepRun, shared: &mut Shared, outcome: Result<(String, String), String>, at: String) -> (a: StepAction)
    requires
        run_wf(*old(run)),
        old(run).phase == StepPhase::Submits,
    ensures
        ({
            let j = old(run).next as int;
            let b = old(run).batches@[j];
            submit_ok(
                *old(shared),
                *final(shared),
                old(run).step_id,
                b.chain,
                b.count,
                outcome,
                j + 1 == old(run).batches@.len(),
                old(run).session_index,
                at,
            )
        }),
        same_run(*final(run), *old(run)),
        final(run).all_ok == old(run).all_ok,
        (final(run).phase, final(run).next) == if outcome is Ok {
            settled(moved(*old(run), (old(run).next + 1) as usize, old(run).all_ok))
        } else {
            (StepPhase::Finished, 0usize)
        },
        run_wf(*final(run)),
        a == action_of(*final(run)),
{
    let j = run.next;
    let nb = run.batches.len();
    let chain = run.batches[j].chain;
    let count = run.batches[j].count;
    let is_last = j + 1 == run.batches.len();
    let go_on = record_submit(shared, run.step_id, chain, count, outcome, is_last, run.session_index, at);
    if go_on {
        run.next = j + 1;
        if run.next >= run.batches.len() {
            run.phase = StepPhase::Finished;
            run.next = 0;
        }
    } else {
        run.phase = StepPhase::Finished;
        run.next = 0;
    }
    action(run)
}

/// Law: nothing is submitted in a simulation, nor after a failed dry run
/// when dry runs are required.
pub proof fn law_submit_only_after_dry_runs_pass(r: StepRun)
    requires
        run_wf(r),
        action_of(r) is Submit,
    ensures
        !r.simulate,
        r.all_ok || !r.requires_dry_run,
{
}

/// The order of the phases.
pub open spec fn rank(p: StepPhase) -> int {
    match p {
        StepPhase::ItemDryRuns => 0,
        StepPhase::BatchDryRuns => 1,
        StepPhase::Submits => 2,
        StepPhase::Finished => 3,
    }
}

/// Law: a run never goes back: every call's dry run comes before every
/// batch's, and every batch's dry run before any submission.
pub proof fn law_phases_only_advance(r: StepRun)
    ensures
        rank(settled(r).0) >= rank(r.phase),
{
}

/// Law: the actions come in order. The calls are dry-run one after
/// another, then the batches one after another (the relay's first, see
/// [`batches_ok`]), then the batches are submitted one after another. The
/// last batch's dry run leads to submission if and only if the dispatch
/// gate, counting that dry run's result, says to submit.
pub proof fn law_step_order(r: StepRun, ok: bool)
    requires
        run_wf(r),
        r.items@.len() <= usize::MAX,
        r.batches@.len() <= usize::MAX,
    ensures
        r.phase == StepPhase::ItemDryRuns && r.next + 1 < r.items@.len() ==> settled(
            moved(r, (r.next + 1) as usize, r.all_ok && ok),
        ) == (StepPhase::ItemDryRuns, (r.next + 1) as usize),
        r.phase == StepPhase::ItemDryRuns && r.next + 1 == r.items@.len() && r.batches@.len() > 0
            ==> settled(moved(r, (r.next + 1) as usize, r.all_ok && ok)) == (StepPhase::BatchDryRuns, 0usize),
        r.phase == StepPhase::BatchDryRuns && r.next + 1 < r.batches@.len() ==> settled(
            moved(r, (r.next + 1) as usize, r.all_ok && ok),
        ) == (StepPhase::BatchDryRuns, (r.next + 1) as usize),
        r.phase == StepPhase::BatchDryRuns && r.next + 1 == r.batches@.len() ==> settled(
            moved(r, (r.next + 1) as usize, r.all_ok && ok),
        ) == if spec_gate(r.simulate, r.all_ok && ok, r.requires_dry_run) == DispatchGate::Submit {
            (StepPhase::Submits, 0usize)
        } else {
            (StepPhase::Finished, 0usize)
        },
        r.phase == StepPhase::Submits && r.next + 1 < r.batches@.len() ==> settled(
            moved(r, (r.next + 1) as usize, r.all_ok),
        ) == (StepPhase::Submits, (r.next + 1) as usize),
{
}

} // verus!
