//! The scheduler's decisions. On each new relay block the caller builds the
//! live snapshot and asks `tick` what to do; it performs the action (dry
//! runs, submissions, announcements) and reports back through the
//! recording functions. The active step is always derived from the chain.

use vstd::prelude::*;
use vstd::string::StringExecFns;

use crate::config::{rfc3339_utc, Plan};
use crate::config::Step;
use crate::dispatch::{
    assign_item_ok, first_bad_stash, next_timeslice, spec_period, step_items_ok, BuildError, ChainKind,
    DispatchItem, Dispatcher, ParsedStash,
};
use crate::packing_laws::{law_core_parts_sum_to_full, parts_sum};
use crate::model::{packings_view, Assignment, CorePacking, CorePackingView, HistoryEntry, StateSnapshot};
use crate::packing::{compute_packing, spec_compute_packing, PackingResult};
use crate::shared::{active_index, first_unmet, para_ids_of, sat_add, spec_para_ids, Shared};
use crate::state::{era_of_session, spec_era_of};
use crate::state_store::{bounded_push, Persisted};
use crate::text::{decimal, push_decimal};
use crate::dryrun::texts;

verus! {

/// How the scheduler runs.
#[derive(Clone, Copy, Debug, PartialEq, Eq, Structural)]
pub enum RunMode {
    /// Continuous auto-dispatch driven by new blocks.
    Auto,
    /// A single scheduler tick, then exit.
    Once,
    /// Simulate (dry-run) the next step without submitting, then exit.
    DryRunOnce,
}

/// What a tick asks the caller to do. Step indices point into the plan's
/// steps.
#[derive(Clone, Copy, Debug, PartialEq, Eq, Structural)]
pub enum TickAction {
    /// Simulate the active step without submitting.
    Simulate(usize),
    /// Simulation asked for, but every target is already met.
    NothingToSimulate,
    /// Only re-check the packing against the broker.
    CheckPacking,
    /// Announce the shutdown milestone, then re-check the packing.
    AnnounceShutdown(usize),
    /// The active step's era has not come yet.
    NotDue(usize),
    /// The active step is due but the previous dispatch is still soaking.
    Soaking(usize),
    /// The active step is due but the health gate is closed.
    HealthHold(usize),
    /// Dry-run and submit the active step.
    Dispatch(usize),
    /// Before the go-live instant: serve the dashboard, touch nothing.
    Holding,
}

/// The outcome of a tick.
pub struct TickDecision {
    /// Finality lag above the plan's maximum.
    pub lag_exceeded: bool,
    /// Online fraction below the plan's minimum.
    pub online_low: bool,
    /// Absolute era of the snapshot.
    pub abs_era: u32,
    pub action: TickAction,
}

/// The soak gate: no dispatch yet, or `soak` eras passed since the last one.
pub open spec fn soak_ok(last: Option<u32>, abs_era: u32, soak: u32) -> bool {
    match last {
        Some(l) => abs_era >= sat_add(l, soak),
        None => true,
    }
}

/// Whether `now` (Unix seconds, nanoseconds) is before the plan's go-live
/// instant; a missing or unreadable go-live means no hold.
pub open spec fn before_go_live(plan: Plan, now: (i64, u32)) -> bool {
    match plan.meta.start_at {
        Some(s) => match rfc3339_utc(s@) {
            Some(t) => now.0 < t.0 || (now.0 == t.0 && now.1 < t.1),
            None => false,
        },
        None => false,
    }
}

/// The action of a tick, from the plan, the snapshot, the persisted
/// progress as it stands after the tick's anchoring, the gates, and whether
/// the go-live instant is still ahead.
pub open spec fn spec_tick_action(
    plan: Plan,
    snap: StateSnapshot,
    start_era: u32,
    last_dispatch_era: Option<u32>,
    paused: bool,
    mode: RunMode,
    dispatcher_present: bool,
    healthy: bool,
    holding: bool,
) -> TickAction {
    let abs_era = spec_era_of(snap.relay.session_index);
    let active = first_unmet(plan.steps@, snap.relay.validators, snap.relay.cores);
    if mode == RunMode::DryRunOnce {
        match active {
            Some(i) => TickAction::Simulate(i as usize),
            None => TickAction::NothingToSimulate,
        }
    } else if holding {
        TickAction::Holding
    } else if !dispatcher_present || paused || !(plan.dispatch.mode@ == "auto"@) {
        TickAction::CheckPacking
    } else {
        match active {
            None => TickAction::CheckPacking,
            Some(i) => {
                let st = plan.steps@[i];
                let due = abs_era >= sat_add(start_era, st.era_offset);
                if st.shutdown {
                    if due {
                        TickAction::AnnounceShutdown(i as usize)
                    } else {
                        TickAction::CheckPacking
                    }
                } else if !due {
                    TickAction::NotDue(i as usize)
                } else if !soak_ok(last_dispatch_era, abs_era, plan.meta.soak_eras) {
                    TickAction::Soaking(i as usize)
                } else if !healthy {
                    TickAction::HealthHold(i as usize)
                } else {
                    TickAction::Dispatch(i as usize)
                }
            },
        }
    }
}

/// One scheduler tick at instant `now` (Unix seconds, nanoseconds).
/// What a tick decides and records, from persisted state `p0` to `p1`:
/// the health flags, the era, the start era anchored from the go-live
/// instant on, the derived active step, and the action; nothing else of the
/// persisted state changes.
pub open spec fn tick_ok(
    plan: Plan,
    snap: StateSnapshot,
    p0: Persisted,
    p1: Persisted,
    mode: RunMode,
    dispatcher_present: bool,
    online_ok: bool,
    now: (i64, u32),
    r: TickDecision,
) -> bool {
    &&& r.lag_exceeded == (snap.relay.finality_lag > plan.health.max_finality_lag_blocks)
    &&& r.online_low == !online_ok
    &&& r.abs_era == spec_era_of(snap.relay.session_index)
    &&& p1.start_era == if before_go_live(plan, now) {
        p0.start_era
    } else {
        Some(
            match p0.start_era {
                Some(e) => e,
                None => r.abs_era,
            },
        )
    }
    &&& p1.current_step_id == match first_unmet(plan.steps@, snap.relay.validators, snap.relay.cores) {
        Some(i) => Some(plan.steps@[i].id),
        None => None,
    }
    &&& p1.paused == p0.paused
    &&& p1.last_dispatch_era == p0.last_dispatch_era
    &&& p1.last_reassert_era == p0.last_reassert_era
    &&& p1.started_at == p0.started_at
    &&& p1.applied_at@ == p0.applied_at@
    &&& p1.history@ == p0.history@
    &&& r.action == spec_tick_action(
        plan,
        snap,
        match p1.start_era {
            Some(e) => e,
            None => r.abs_era,
        },
        p0.last_dispatch_era,
        p0.paused,
        mode,
        dispatcher_present,
        !r.lag_exceeded && !r.online_low,
        before_go_live(plan, now),
    )
}

/// Evaluates health (the online-fraction comparison is made by the caller
/// and passed as `online_ok`), records the derived active step, and decides
/// the action. Before the plan's go-live instant the tick holds: it anchors
/// nothing and touches nothing (a simulation still runs); from it on, the
/// start era is anchored on first sight.
pub fn tick(
    plan: &Plan,
    snap: &StateSnapshot,
    persisted: &mut Persisted,
    mode: RunMode,
    dispatcher_present: bool,
    online_ok: bool,
    now: (i64, u32),
) -> (r: TickDecision)
    ensures
        tick_ok(*plan, *snap, *old(persisted), *final(persisted), mode, dispatcher_present, online_ok, now, r),
{
    let lag_exceeded = snap.relay.finality_lag > plan.health.max_finality_lag_blocks;
    let online_low = !online_ok;
    let healthy = !lag_exceeded && !online_low;
    let abs_era = era_of_session(snap.relay.session_index);
    let holding = match plan.meta.start_at_dt() {
        Some(t) => now.0 < t.0 || (now.0 == t.0 && now.1 < t.1),
        None => false,
    };
    if !holding && persisted.start_era.is_none() {
        persisted.start_era = Some(abs_era);
    }
    let active = active_index(plan, snap);
    persisted.current_step_id = match active {
        Some(i) => Some(plan.steps[i].id),
        None => None,
    };
    let paused = persisted.paused;
    let start_era = match persisted.start_era {
        Some(e) => e,
        None => abs_era,
    };
    let action = if mode == RunMode::DryRunOnce {
        match active {
            Some(i) => TickAction::Simulate(i),
            None => TickAction::NothingToSimulate,
        }
    } else if holding {
        TickAction::Holding
    } else if !dispatcher_present || paused || !plan.dispatch.is_auto() {
        TickAction::CheckPacking
    } else {
        match active {
            None => TickAction::CheckPacking,
            Some(i) => {
                let st = &plan.steps[i];
                let due = abs_era >= start_era.saturating_add(st.era_offset);
                if st.shutdown {
                    if due {
                        TickAction::AnnounceShutdown(i)
                    } else {
                        TickAction::CheckPacking
                    }
                } else if !due {
                    TickAction::NotDue(i)
                } else {
                    let soak_passed = match persisted.last_dispatch_era {
                        Some(l) => abs_era >= l.saturating_add(plan.meta.soak_eras),
                        None => true,
                    };
                    if !soak_passed {
                        TickAction::Soaking(i)
                    } else if !healthy {
                        TickAction::HealthHold(i)
                    } else {
                        TickAction::Dispatch(i)
                    }
                }
            },
        }
    };
    TickDecision { lag_exceeded, online_low, abs_era, action }
}

/// `finality lag <lag> > max <max>`.
pub fn lag_reason(lag: u64, max: u64) -> (r: String)
    ensures
        r@ == "finality lag "@ + decimal(lag as nat) + " > max "@ + decimal(max as nat),
{
    let mut s = String::new();
    s.append("finality lag ");
    push_decimal(&mut s, lag as u128);
    s.append(" > max ");
    push_decimal(&mut s, max as u128);
    s
}

/// The health reasons of a tick: the finality-lag reason when the lag is
/// above the plan's maximum, then the online-fraction reason when the
/// caller found the fraction below the minimum.
pub open spec fn health_texts(plan: Plan, snap: StateSnapshot, online_reason: Option<String>) -> Seq<Seq<char>> {
    let lag = snap.relay.finality_lag;
    let max = plan.health.max_finality_lag_blocks;
    (if lag > max {
        seq!["finality lag "@ + decimal(lag as nat) + " > max "@ + decimal(max as nat)]
    } else {
        Seq::empty()
    }) + match online_reason {
        Some(t) => seq![t@],
        None => Seq::empty(),
    }
}

/// One tick on the shared state: decides as [`tick`] does (the online
/// fraction is low exactly when the caller gives its reason), publishes the
/// snapshot, sets the health reasons and clears the last error.
pub fn publish_tick(
    shared: &mut Shared,
    snap: StateSnapshot,
    mode: RunMode,
    dispatcher_present: bool,
    online_reason: Option<String>,
    now: (i64, u32),
) -> (r: TickDecision)
    ensures
        tick_ok(
            old(shared).plan,
            snap,
            old(shared).inner.persisted,
            final(shared).inner.persisted,
            mode,
            dispatcher_present,
            online_reason is None,
            now,
            r,
        ),
        final(shared).inner.snapshot == Some(snap),
        texts(final(shared).inner.health_reasons@) == health_texts(old(shared).plan, snap, online_reason),
        final(shared).inner.last_error is None,
        final(shared).inner.dispatcher_armed == old(shared).inner.dispatcher_armed,
        final(shared).plan == old(shared).plan,
        final(shared).control_token == old(shared).control_token,
        final(shared).state_path == old(shared).state_path,
{
    let online_ok = online_reason.is_none();
    let r = tick(&shared.plan, &snap, &mut shared.inner.persisted, mode, dispatcher_present, online_ok, now);
    let mut reasons: Vec<String> = Vec::new();
    let lag = snap.relay.finality_lag;
    let max = shared.plan.health.max_finality_lag_blocks;
    if lag > max {
        reasons.push(lag_reason(lag, max));
    }
    match online_reason {
        Some(t) => reasons.push(t),
        None => {},
    }
    shared.inner.snapshot = Some(snap);
    shared.inner.health_reasons = reasons;
    shared.inner.last_error = None;
    proof {
        assert(texts(reasons@) =~= health_texts(old(shared).plan, snap, online_reason));
    }
    r
}

// ---------------------------------------------------------------------------
// Packing re-assertion
// ---------------------------------------------------------------------------

/// The para ids a list of assignments holds, as a set.
pub open spec fn id_set(a: Seq<Assignment>) -> Set<u32> {
    pids(a).to_set()
}

/// The para ids of a list of assignments, in order.
pub open spec fn pids(a: Seq<Assignment>) -> Seq<u32> {
    a.map_values(|x: Assignment| x.para_id)
}

/// Core index -> set of paras; a later record of the same core wins.
pub open spec fn membership(ps: Seq<CorePackingView>) -> Map<u32, Set<u32>>
    decreases ps.len(),
{
    if ps.len() == 0 {
        Map::empty()
    } else {
        membership(ps.drop_last()).insert(ps.last().core, id_set(ps.last().assignments))
    }
}

/// Index of the last record of core `c` among the first `k`.
pub open spec fn last_of(ps: Seq<CorePackingView>, c: u32, k: nat) -> Option<int>
    decreases k,
{
    if k == 0 {
        None
    } else if ps[k - 1].core == c {
        Some(k - 1)
    } else {
        last_of(ps, c, (k - 1) as nat)
    }
}

proof fn lemma_membership_last(ps: Seq<CorePackingView>, c: u32)
    ensures
        membership(ps).contains_key(c) <==> last_of(ps, c, ps.len()) is Some,
        last_of(ps, c, ps.len()) matches Some(i) ==> 0 <= i < ps.len() && ps[i].core == c
            && membership(ps)[c] == id_set(ps[i].assignments),
    decreases ps.len(),
{
    if ps.len() > 0 {
        let p = ps.drop_last();
        lemma_membership_last(p, c);
        lemma_last_of_prefix(ps, c, p.len());
    }
}

proof fn lemma_last_of_prefix(ps: Seq<CorePackingView>, c: u32, k: nat)
    requires
        k <= ps.len(),
    ensures
        last_of(ps, c, k) == last_of(ps.take(k as int), c, k),
    decreases k,
{
    if k > 0 {
        lemma_last_of_prefix(ps, c, (k - 1) as nat);
        lemma_last_of_prefix(ps.take(k as int), c, (k - 1) as nat);
        assert(ps.take(k as int).take(k - 1) =~= ps.take(k - 1));
        assert(ps.take(k as int)[k - 1] == ps[k - 1]);
    }
}

fn last_index(ps: &Vec<CorePacking>, c: u32) -> (r: Option<usize>)
    ensures
        opt(r) == last_of(packings_view(ps@), c, ps@.len()),
{
    let ghost v = packings_view(ps@);
    let mut k = ps.len();
    while k > 0
        invariant
            k <= ps@.len(),
            v == packings_view(ps@),
            last_of(v, c, ps@.len()) == last_of(v, c, k as nat),
        decreases k,
    {
        if ps[k - 1].core == c {
            return Some(k - 1);
        }
        k = k - 1;
    }
    None
}

/// An `Option<usize>` as an `Option<int>`.
pub open spec fn opt(o: Option<usize>) -> Option<int> {
    match o {
        Some(i) => Some(i as int),
        None => None,
    }
}

fn contains_para(a: &Vec<Assignment>, id: u32) -> (r: bool)
    ensures
        r == id_set(a@).contains(id),
{
    let n = a.len();
    for i in 0..n
        invariant
            n == a@.len(),
            forall|k: int| 0 <= k < i ==> a@[k].para_id != id,
    {
        if a[i].para_id == id {
            assert(pids(a@)[i as int] == id);
            assert(pids(a@).contains(id));
            return true;
        }
    }
    proof {
        if pids(a@).contains(id) {
            let k = choose|k: int| 0 <= k < pids(a@).len() && #[trigger] pids(a@)[k] == id;
            assert(a@[k].para_id == id);
        }
    }
    false
}

fn subset_ids(a: &Vec<Assignment>, b: &Vec<Assignment>) -> (r: bool)
    ensures
        r == id_set(a@).subset_of(id_set(b@)),
{
    let n = a.len();
    for i in 0..n
        invariant
            n == a@.len(),
            forall|k: int| 0 <= k < i ==> id_set(b@).contains(#[trigger] a@[k].para_id),
    {
        if !contains_para(b, a[i].para_id) {
            assert(pids(a@)[i as int] == a@[i as int].para_id);
            assert(pids(a@).contains(a@[i as int].para_id));
            assert(id_set(a@).contains(a@[i as int].para_id));
            return false;
        }
    }
    assert forall|x: u32| id_set(a@).contains(x) implies id_set(b@).contains(x) by {
        assert(pids(a@).contains(x));
        let k = choose|k: int| 0 <= k < pids(a@).len() && #[trigger] pids(a@)[k] == x;
        assert(a@[k].para_id == x);
    }
    true
}

fn same_ids(a: &Vec<Assignment>, b: &Vec<Assignment>) -> (r: bool)
    ensures
        r == (id_set(a@) == id_set(b@)),
{
    let ab = subset_ids(a, b);
    let ba = subset_ids(b, a);
    proof {
        if ab && ba {
            assert(id_set(a@) =~= id_set(b@));
        }
    }
    ab && ba
}

/// Whether two packings agree on which paras sit on which core (shares
/// ignored; a later record of a core overrides an earlier one).
pub fn membership_matches(want: &Vec<CorePacking>, have: &Vec<CorePacking>) -> (r: bool)
    ensures
        r == (membership(packings_view(want@)) == membership(packings_view(have@))),
{
    let ghost w = packings_view(want@);
    let ghost h = packings_view(have@);
    let nw = want.len();
    for i in 0..nw
        invariant
            nw == want@.len(),
            w == packings_view(want@),
            h == packings_view(have@),
            forall|k: int|
                0 <= k < i ==> membership(h).contains_key(#[trigger] w[k].core) && membership(
                    h,
                )[w[k].core] == membership(w)[w[k].core],
    {
        let c = want[i].core;
        proof {
            lemma_membership_last(w, c);
            lemma_membership_last(h, c);
            lemma_last_of_hit(w, c, i as int);
        }
        let wi = last_index(want, c);
        let hi = last_index(have, c);
        match (wi, hi) {
            (Some(a), Some(b)) => {
                if !same_ids(&want[a].assignments, &have[b].assignments) {
                    proof {
                        assert(w[a as int] == want@[a as int]@);
                        assert(h[b as int] == have@[b as int]@);
                    }
                    return false;
                }
                proof {
                    assert(w[a as int] == want@[a as int]@);
                    assert(h[b as int] == have@[b as int]@);
                }
            },
            _ => {
                return false;
            },
        }
    }
    let nh = have.len();
    for j in 0..nh
        invariant
            nh == have@.len(),
            w == packings_view(want@),
            h == packings_view(have@),
            forall|k: int| 0 <= k < j ==> membership(w).contains_key(#[trigger] h[k].core),
    {
        let c = have[j].core;
        proof {
            lemma_membership_last(w, c);
            lemma_membership_last(h, c);
            lemma_last_of_hit(h, c, j as int);
        }
        if last_index(want, c).is_none() {
            return false;
        }
    }
    proof {
        lemma_membership_dom(w);
        lemma_membership_dom(h);
        assert forall|c: u32| membership(w).contains_key(c) implies membership(h).contains_key(c)
            && membership(h)[c] == membership(w)[c] by {
            let k = choose|k: int| 0 <= k < w.len() && w[k].core == c;
            assert(w[k].core == c);
        }
        assert forall|c: u32| membership(h).contains_key(c) implies membership(w).contains_key(c) by {
            let k = choose|k: int| 0 <= k < h.len() && h[k].core == c;
            assert(h[k].core == c);
        }
        assert(membership(w) =~= membership(h));
    }
    true
}

proof fn lemma_last_of_hit(ps: Seq<CorePackingView>, c: u32, i: int)
    requires
        0 <= i < ps.len(),
        ps[i].core == c,
    ensures
        last_of(ps, c, ps.len()) is Some,
{
    lemma_last_of_hit_k(ps, c, i, ps.len());
}

proof fn lemma_last_of_hit_k(ps: Seq<CorePackingView>, c: u32, i: int, k: nat)
    requires
        0 <= i < k <= ps.len(),
        ps[i].core == c,
    ensures
        last_of(ps, c, k) is Some,
    decreases k,
{
    if ps[k - 1].core != c {
        lemma_last_of_hit_k(ps, c, i, (k - 1) as nat);
    }
}

proof fn lemma_membership_dom(ps: Seq<CorePackingView>)
    ensures
        forall|c: u32|
            membership(ps).contains_key(c) <==> exists|k: int| 0 <= k < ps.len() && ps[k].core == c,
    decreases ps.len(),
{
    if ps.len() > 0 {
        let p = ps.drop_last();
        lemma_membership_dom(p);
        assert forall|c: u32| membership(ps).contains_key(c) implies exists|k: int|
            0 <= k < ps.len() && ps[k].core == c by {
            if c != ps.last().core {
                assert(membership(p).contains_key(c));
                let k = choose|k: int| 0 <= k < p.len() && p[k].core == c;
                assert(ps[k].core == c);
            } else {
                assert(ps[ps.len() - 1].core == c);
            }
        }
        assert forall|c: u32| (exists|k: int| 0 <= k < ps.len() && ps[k].core == c) implies membership(
            ps,
        ).contains_key(c) by {
            let k = choose|k: int| 0 <= k < ps.len() && ps[k].core == c;
            if k < p.len() {
                assert(p[k].core == c);
                assert(membership(p).contains_key(c));
            }
        }
    }
}

/// No re-assertion was recorded for era `abs_era` yet.
pub open spec fn spec_reassert_open(last_reassert_era: Option<u32>, abs_era: u32) -> bool {
    last_reassert_era != Some(abs_era)
}

/// The re-assertion a state calls for: the packing computed for the live
/// paras on the live core count, when the dispatcher is armed, not paused,
/// healthy, in auto mode, not yet re-asserted in `abs_era`, and the
/// on-chain membership has drifted from it; otherwise none.
pub open spec fn spec_reassert_plan(
    plan: Plan,
    snap: StateSnapshot,
    persisted: Persisted,
    dispatcher_present: bool,
    healthy: bool,
    abs_era: u32,
) -> Option<Seq<CorePackingView>> {
    let want = spec_compute_packing(spec_para_ids(Some(snap)), snap.relay.cores, plan.packing).0;
    if dispatcher_present && !persisted.paused && healthy && plan.dispatch.mode@ == "auto"@
        && spec_reassert_open(persisted.last_reassert_era, abs_era) && membership(want)
        != membership(packings_view(snap.packing@)) {
        Some(want)
    } else {
        None
    }
}

/// The cores to re-assert: the packing computed for the live paras on the
/// live core count, when the dispatcher is armed, not paused, healthy, in
/// auto mode, not yet re-asserted this era, and the on-chain membership has
/// drifted from it.
pub fn reassert_plan(
    plan: &Plan,
    snap: &StateSnapshot,
    persisted: &Persisted,
    dispatcher_present: bool,
    healthy: bool,
    abs_era: u32,
) -> (r: Option<Vec<CorePacking>>)
    requires
        snap.paras@.len() <= u32::MAX,
    ensures
        match r {
            Some(cores) => {
                &&& dispatcher_present && !persisted.paused && healthy
                &&& plan.dispatch.mode@ == "auto"@
                &&& spec_reassert_open(persisted.last_reassert_era, abs_era)
                &&& packings_view(cores@) == spec_compute_packing(
                    spec_para_ids(Some(*snap)),
                    snap.relay.cores,
                    plan.packing,
                ).0
                &&& membership(packings_view(cores@)) != membership(packings_view(snap.packing@))
            },
            None => !(dispatcher_present && !persisted.paused && healthy && plan.dispatch.mode@
                == "auto"@ && spec_reassert_open(persisted.last_reassert_era, abs_era)) || membership(
                spec_compute_packing(spec_para_ids(Some(*snap)), snap.relay.cores, plan.packing).0,
            ) == membership(packings_view(snap.packing@)),
        },
        match r {
            Some(cores) => Some(packings_view(cores@)),
            None => None,
        } == spec_reassert_plan(*plan, *snap, *persisted, dispatcher_present, healthy, abs_era),
{
    if !dispatcher_present || persisted.paused || !healthy {
        return None;
    }
    if !plan.dispatch.is_auto() {
        return None;
    }
    if persisted.last_reassert_era == Some(abs_era) {
        return None;
    }
    let para_ids = para_ids_of(snap);
    let want = compute_packing(para_ids.as_slice(), snap.relay.cores, &plan.packing);
    if membership_matches(&want.cores, &snap.packing) {
        return None;
    }
    Some(want.cores)
}

/// Records that the packing was re-asserted (or attempted) this era.
pub fn record_reassert(persisted: &mut Persisted, abs_era: u32)
    ensures
        final(persisted).last_reassert_era == Some(abs_era),
        final(persisted).last_dispatch_era == old(persisted).last_dispatch_era,
        final(persisted).start_era == old(persisted).start_era,
        final(persisted).paused == old(persisted).paused,
        final(persisted).applied_at@ == old(persisted).applied_at@,
        final(persisted).history@ == old(persisted).history@,
        final(persisted).current_step_id == old(persisted).current_step_id,
        final(persisted).started_at == old(persisted).started_at,
{
    persisted.last_reassert_era = Some(abs_era);
}

/// The calls re-asserting `cores`: one `assign_core` per core, in order,
/// from the next timeslice boundary after relay block `best` (returned
/// first).
pub fn reassert_calls(dispatcher: &Dispatcher, cores: &Vec<CorePacking>, best: u64) -> (r: (
    u32,
    Vec<DispatchItem>,
))
    requires
        (best as int) / spec_period(dispatcher.resolved.timeslice_period) < u64::MAX,
    ensures
        r.0 == ((best as int) / spec_period(dispatcher.resolved.timeslice_period) + 1) as u32,
        r.1@.len() == cores@.len(),
        forall|i: int|
            0 <= i < cores@.len() ==> assign_item_ok(#[trigger] r.1@[i], dispatcher.resolved, cores@[i], r.0),
{
    let begin = next_timeslice(best, dispatcher.resolved.timeslice_period);
    let mut items: Vec<DispatchItem> = Vec::new();
    let n = cores.len();
    for k in 0..n
        invariant
            n == cores@.len(),
            items@.len() == k,
            forall|i: int|
                0 <= i < k ==> assign_item_ok(#[trigger] items@[i], dispatcher.resolved, cores@[i], begin),
    {
        items.push(dispatcher.assign_core_reassert(begin, &cores[k]));
    }
    (begin, items)
}

/// Whether the re-assertion batch is submitted: always when dry runs are
/// not required, else only when its dry run passed.
pub fn reassert_gate(requires_dry_run: bool, dry_run_passed: bool) -> (r: bool)
    ensures
        r == (!requires_dry_run || dry_run_passed),
{
    !requires_dry_run || dry_run_passed
}

/// Law: the packing is re-asserted at most once per era: once
/// `record_reassert` has marked an era (it leaves `Some(abs_era)`), the
/// re-assertion `reassert_plan` computes for that era is none, whatever the
/// rest of the state; another era stays open.
pub proof fn law_reassert_once_per_era(
    plan: Plan,
    snap: StateSnapshot,
    persisted: Persisted,
    dispatcher_present: bool,
    healthy: bool,
    abs_era: u32,
    other_era: u32,
)
    requires
        persisted.last_reassert_era == Some(abs_era),
    ensures
        spec_reassert_plan(plan, snap, persisted, dispatcher_present, healthy, abs_era) is None,
        other_era != abs_era ==> spec_reassert_open(persisted.last_reassert_era, other_era),
{
}

// ---------------------------------------------------------------------------
// Dispatching a step
// ---------------------------------------------------------------------------

/// What to do once the dry runs are in.
#[derive(Clone, Copy, Debug, PartialEq, Eq, Structural)]
pub enum DispatchGate {
    /// A simulation: stop here.
    SimulateOnly,
    /// A dry run failed and dry runs are required: abort the step.
    Abort,
    /// Submit the batches.
    Submit,
}

/// What follows the dry runs: stop, abort, or submit.
pub open spec fn spec_gate(simulate: bool, all_ok: bool, requires_dry_run: bool) -> DispatchGate {
    if simulate {
        DispatchGate::SimulateOnly
    } else if !all_ok && requires_dry_run {
        DispatchGate::Abort
    } else {
        DispatchGate::Submit
    }
}

/// What follows the dry runs: stop, abort, or submit.
pub fn dispatch_gate(simulate: bool, all_ok: bool, requires_dry_run: bool) -> (r: DispatchGate)
    ensures
        r == spec_gate(simulate, all_ok, requires_dry_run),
{
    if simulate {
        DispatchGate::SimulateOnly
    } else if !all_ok && requires_dry_run {
        DispatchGate::Abort
    } else {
        DispatchGate::Submit
    }
}

/// A step's calls, ready for the dry runs: the packing they carry (with the
/// paras it dropped to on-demand), the begin timeslice, and the calls of
/// each chain.
pub struct StepCalls {
    pub packing: PackingResult,
    pub begin: u32,
    pub relay: Vec<DispatchItem>,
    pub ah: Vec<DispatchItem>,
}

/// Prepares a step's dispatch at relay best block `best`: packs the live
/// paras onto the step's cores, takes the next timeslice boundary as the
/// begin, and builds the calls. Fails only on an exit-cohort stash that did
/// not decode (`stashes` holds the decoded cohort, in order): the packing
/// always fills each core exactly.
pub fn prepare_step(
    plan: &Plan,
    snap: &StateSnapshot,
    step: &Step,
    best: u64,
    dispatcher: &Dispatcher,
    stashes: &Vec<Option<ParsedStash>>,
) -> (r: Result<StepCalls, BuildError>)
    requires
        snap.paras@.len() <= u32::MAX,
        stashes@.len() == plan.spec_exit_cohort_for(step).len(),
        (best as int) / spec_period(dispatcher.resolved.timeslice_period) < u64::MAX,
    ensures
        match r {
            Ok(c) => {
                &&& packings_view(c.packing.cores@) == spec_compute_packing(
                    spec_para_ids(Some(*snap)),
                    step.cores,
                    plan.packing,
                ).0
                &&& c.packing.dropped@ == spec_compute_packing(
                    spec_para_ids(Some(*snap)),
                    step.cores,
                    plan.packing,
                ).1
                &&& c.begin == ((best as int) / spec_period(dispatcher.resolved.timeslice_period)
                    + 1) as u32
                &&& step_items_ok(c.relay@, c.ah@, dispatcher.resolved, *step, c.packing.cores@, c.begin, stashes@)
            },
            Err(BuildError::BadStash(s)) => exists|i: int|
                first_bad_stash(stashes@, i) && s == plan.spec_exit_cohort_for(step)[i],
            Err(BuildError::PackingInvariant { .. }) => false,
        },
{
    let para_ids = para_ids_of(snap);
    let packing = compute_packing(para_ids.as_slice(), step.cores, &plan.packing);
    proof {
        let spec = spec_compute_packing(para_ids@, step.cores, plan.packing).0;
        law_core_parts_sum_to_full(para_ids@, step.cores, plan.packing);
        assert forall|i: int| 0 <= i < packing.cores@.len() implies parts_sum(
            #[trigger] packing.cores@[i].assignments@,
        ) == 57600 by {
            assert(packings_view(packing.cores@)[i] == packing.cores@[i]@);
            assert(spec[i].assignments == packing.cores@[i].assignments@);
        }
    }
    let begin = next_timeslice(best, dispatcher.resolved.timeslice_period);
    match dispatcher.build_step_items(plan, step, &packing.cores, begin, stashes) {
        Ok((relay, ah)) => Ok(StepCalls { packing, begin, relay, ah }),
        Err(e) => Err(e),
    }
}

/// Records a successful dispatch: the soak anchor moves to this era and the
/// step is marked applied at `at`.
pub fn record_step_applied(persisted: &mut Persisted, session_index: u32, step_id: u32, at: String)
    ensures
        final(persisted).last_dispatch_era == Some(spec_era_of(session_index)),
        final(persisted).applied_at@ == old(persisted).applied_at@.insert(step_id, at),
        final(persisted).start_era == old(persisted).start_era,
        final(persisted).last_reassert_era == old(persisted).last_reassert_era,
        final(persisted).paused == old(persisted).paused,
        final(persisted).history@ == old(persisted).history@,
        final(persisted).current_step_id == old(persisted).current_step_id,
        final(persisted).started_at == old(persisted).started_at,
{
    broadcast use vstd::std_specs::btree::group_btree_axioms;
    broadcast use vstd::laws_cmp::group_laws_cmp;

    persisted.last_dispatch_era = Some(era_of_session(session_index));
    persisted.applied_at.insert(step_id, at);
}

/// History text of a shutdown milestone's arguments.
pub open spec fn shutdown_summary() -> Seq<char> {
    "terminal milestone — operators stop nodes (no on-chain dispatch)"@
}

/// The history entry announcing the shutdown milestone of `step_id` at
/// `at`: on the relay, `network.shutdown`, status "shutdown", no
/// transaction, block or error.
pub open spec fn shutdown_entry_ok(e: HistoryEntry, step_id: u32, at: String) -> bool {
    &&& e.at == at
    &&& e.step_id == step_id
    &&& e.chain@ == "relay"@
    &&& e.call@ == "network.shutdown"@
    &&& e.args_summary@ == shutdown_summary()
    &&& e.tx_hash is None
    &&& e.status@ == "shutdown"@
    &&& e.block_hash is None
    &&& e.error is None
}

/// One announcement of step `id` with entry `e` on (applied steps,
/// history): nothing when the step is already marked applied, else the
/// step is marked applied at the entry's time and the entry appended.
pub open spec fn announce_once(
    state: (Map<u32, String>, Seq<HistoryEntry>),
    id: u32,
    e: HistoryEntry,
) -> (Map<u32, String>, Seq<HistoryEntry>) {
    if state.0.contains_key(id) {
        state
    } else {
        (state.0.insert(id, e.at), bounded_push(state.1, e))
    }
}

/// Announcements of step `id` with the entries `es`, one after another.
pub open spec fn announce_all(
    state: (Map<u32, String>, Seq<HistoryEntry>),
    id: u32,
    es: Seq<HistoryEntry>,
) -> (Map<u32, String>, Seq<HistoryEntry>)
    decreases es.len(),
{
    if es.len() == 0 {
        state
    } else {
        announce_all(announce_once(state, id, es[0]), id, es.drop_first())
    }
}

/// Announces the terminal shutdown milestone once: when the step is not yet
/// marked applied, records its history entry and marks it applied at `at`.
/// Returns whether it announced.
pub fn announce_shutdown(persisted: &mut Persisted, step_id: u32, at: String) -> (r: bool)
    ensures
        r == !old(persisted).applied_at@.contains_key(step_id),
        r ==> final(persisted).history@.len() > 0,
        r ==> shutdown_entry_ok(final(persisted).history@.last(), step_id, at),
        (final(persisted).applied_at@, final(persisted).history@) == announce_once(
            (old(persisted).applied_at@, old(persisted).history@),
            step_id,
            final(persisted).history@.last(),
        ),
        final(persisted).start_era == old(persisted).start_era,
        final(persisted).last_dispatch_era == old(persisted).last_dispatch_era,
        final(persisted).last_reassert_era == old(persisted).last_reassert_era,
        final(persisted).paused == old(persisted).paused,
        final(persisted).current_step_id == old(persisted).current_step_id,
        final(persisted).started_at == old(persisted).started_at,
{
    broadcast use vstd::std_specs::btree::group_btree_axioms;
    broadcast use vstd::laws_cmp::group_laws_cmp;

    if persisted.applied_at.contains_key(&step_id) {
        return false;
    }
    let mut chain = String::new();
    chain.append("relay");
    let mut call = String::new();
    call.append("network.shutdown");
    let mut args = String::new();
    args.append("terminal milestone — operators stop nodes (no on-chain dispatch)");
    let mut status = String::new();
    status.append("shutdown");
    let entry = HistoryEntry {
        at: at.clone(),
        step_id,
        chain,
        call,
        args_summary: args,
        tx_hash: None,
        status,
        block_hash: None,
        error: None,
    };
    let ghost e = entry;
    persisted.push_history(entry);
    proof {
        lemma_bounded_push_last(old(persisted).history@, e);
    }
    persisted.applied_at.insert(step_id, at);
    true
}

pub(crate) proof fn lemma_bounded_push_last(h: Seq<HistoryEntry>, e: HistoryEntry)
    ensures
        bounded_push(h, e).len() > 0,
        bounded_push(h, e).last() == e,
{
    let p = h.push(e);
    if p.len() > 2000 {
        assert(p.subrange(p.len() - 2000, p.len() as int).last() == e);
    }
}

/// The history entry of one item's dry run or submission.
pub fn item_entry(
    at: String,
    step_id: u32,
    item: &DispatchItem,
    status: &str,
    tx_hash: Option<String>,
    block_hash: Option<String>,
    error: Option<String>,
) -> (r: HistoryEntry)
    ensures
        r.at == at,
        r.step_id == step_id,
        r.chain@ == item.chain.spec_api_name(),
        r.call == item.call_path,
        r.args_summary == item.args_summary,
        r.tx_hash == tx_hash,
        r.status@ == status@,
        r.block_hash == block_hash,
        r.error == error,
{
    let mut chain = String::new();
    chain.append(item.chain.api_name());
    let mut st = String::new();
    st.append(status);
    HistoryEntry {
        at,
        step_id,
        chain,
        call: item.call_path.clone(),
        args_summary: item.args_summary.clone(),
        tx_hash,
        status: st,
        block_hash,
        error,
    }
}

/// Summary of a submitted batch.
pub open spec fn batch_summary(count: usize) -> Seq<char> {
    decimal(count as nat) + " calls (proxy→sudo→batch_all)"@
}

/// The history entry of one atomic batch (`utility.batch_all`).
pub fn batch_entry(
    at: String,
    step_id: u32,
    chain: ChainKind,
    count: usize,
    status: &str,
    tx_hash: Option<String>,
    block_hash: Option<String>,
    error: Option<String>,
) -> (r: HistoryEntry)
    ensures
        r.at == at,
        r.step_id == step_id,
        r.chain@ == chain.spec_api_name(),
        r.call@ == "utility.batch_all"@,
        r.args_summary@ == batch_summary(count),
        r.tx_hash == tx_hash,
        r.status@ == status@,
        r.block_hash == block_hash,
        r.error == error,
{
    let mut ch = String::new();
    ch.append(chain.api_name());
    let mut call = String::new();
    call.append("utility.batch_all");
    let mut args = String::new();
    push_decimal(&mut args, count as u128);
    args.append(" calls (proxy→sudo→batch_all)");
    let mut st = String::new();
    st.append(status);
    HistoryEntry {
        at,
        step_id,
        chain: ch,
        call,
        args_summary: args,
        tx_hash,
        status: st,
        block_hash,
        error,
    }
}

// ---------------------------------------------------------------------------
// Laws
// ---------------------------------------------------------------------------

/// The first unmet step is unmet and every earlier step is met.
pub proof fn lemma_first_unmet_props(steps: Seq<crate::config::Step>, v: u32, c: u32)
    ensures
        match first_unmet(steps, v, c) {
            Some(i) => 0 <= i < steps.len() && !crate::shared::spec_step_met(steps[i], v, c) && forall|k: int|
                0 <= k < i ==> crate::shared::spec_step_met(#[trigger] steps[k], v, c),
            None => forall|k: int| 0 <= k < steps.len() ==> crate::shared::spec_step_met(#[trigger] steps[k], v, c),
        },
    decreases steps.len(),
{
    if steps.len() > 0 {
        let t = steps.drop_first();
        lemma_first_unmet_props(t, v, c);
        if crate::shared::spec_step_met(steps[0], v, c) {
            assert forall|k: int| 0 < k < steps.len() implies steps[k] == t[k - 1] by {}
        }
    }
}

/// Law: a step is dispatched only when it is safe to: the go-live instant
/// has come, the dispatcher is
/// armed, the schedule is not paused and in auto mode, the health gate
/// (finality lag and online fraction) is open, the step is the first whose
/// targets are not yet met (so no met target is issued again), it is not
/// the shutdown milestone, its era has come, and the previous dispatch has
/// soaked for the configured number of eras.
pub proof fn law_dispatch_only_when_safe(
    plan: Plan,
    snap: StateSnapshot,
    start_era: u32,
    last_dispatch_era: Option<u32>,
    paused: bool,
    mode: RunMode,
    dispatcher_present: bool,
    healthy: bool,
    holding: bool,
    i: usize,
)
    requires
        spec_tick_action(plan, snap, start_era, last_dispatch_era, paused, mode, dispatcher_present, healthy, holding)
            == TickAction::Dispatch(i),
    ensures
        !holding,
        dispatcher_present,
        !paused,
        healthy,
        mode != RunMode::DryRunOnce,
        plan.dispatch.mode@ == "auto"@,
        i < plan.steps@.len(),
        first_unmet(plan.steps@, snap.relay.validators, snap.relay.cores) == Some(i as int),
        !crate::shared::spec_step_met(plan.steps@[i as int], snap.relay.validators, snap.relay.cores),
        forall|k: int| 0 <= k < i ==> crate::shared::spec_step_met(#[trigger] plan.steps@[k], snap.relay.validators, snap.relay.cores),
        !plan.steps@[i as int].shutdown,
        spec_era_of(snap.relay.session_index) >= sat_add(start_era, plan.steps@[i as int].era_offset),
        soak_ok(last_dispatch_era, spec_era_of(snap.relay.session_index), plan.meta.soak_eras),
{
    lemma_first_unmet_props(plan.steps@, snap.relay.validators, snap.relay.cores);
    assert(plan.steps@.len() == plan.steps.len());
}

/// Law: the shutdown milestone is only announced (never dispatched) and
/// only once its era has come, with the dispatcher armed and not paused.
pub proof fn law_shutdown_only_announced(
    plan: Plan,
    snap: StateSnapshot,
    start_era: u32,
    last_dispatch_era: Option<u32>,
    paused: bool,
    mode: RunMode,
    dispatcher_present: bool,
    healthy: bool,
    holding: bool,
    i: usize,
)
    requires
        spec_tick_action(plan, snap, start_era, last_dispatch_era, paused, mode, dispatcher_present, healthy, holding)
            == TickAction::AnnounceShutdown(i),
    ensures
        !holding,
        i < plan.steps@.len(),
        plan.steps@[i as int].shutdown,
        first_unmet(plan.steps@, snap.relay.validators, snap.relay.cores) == Some(i as int),
        spec_era_of(snap.relay.session_index) >= sat_add(start_era, plan.steps@[i as int].era_offset),
        dispatcher_present && !paused,
{
    lemma_first_unmet_props(plan.steps@, snap.relay.validators, snap.relay.cores);
    assert(plan.steps@.len() == plan.steps.len());
}

/// Law: without a dispatcher, while paused, outside auto mode, or before
/// the go-live instant, a tick never dispatches a step nor announces the
/// shutdown.
pub proof fn law_idle_never_acts(
    plan: Plan,
    snap: StateSnapshot,
    start_era: u32,
    last_dispatch_era: Option<u32>,
    paused: bool,
    mode: RunMode,
    dispatcher_present: bool,
    healthy: bool,
    holding: bool,
)
    requires
        !dispatcher_present || paused || !(plan.dispatch.mode@ == "auto"@) || holding,
    ensures
        !(spec_tick_action(plan, snap, start_era, last_dispatch_era, paused, mode, dispatcher_present, healthy, holding) is Dispatch),
        !(spec_tick_action(plan, snap, start_era, last_dispatch_era, paused, mode, dispatcher_present, healthy, holding) is AnnounceShutdown),
{
}

/// Law: a simulation never submits, and when dry runs are required a step
/// is submitted only if every dry run passed.
pub proof fn law_dry_run_gate(simulate: bool, all_ok: bool, requires_dry_run: bool)
    ensures
        simulate ==> spec_gate(simulate, all_ok, requires_dry_run) == DispatchGate::SimulateOnly,
        spec_gate(simulate, all_ok, requires_dry_run) == DispatchGate::Submit ==> !simulate && (
        all_ok || !requires_dry_run),
{
}

/// Law: the step a tick dispatches, simulates or announces is the one the
/// plan view reports as current.
pub proof fn law_acts_on_the_reported_step(
    plan: Plan,
    snap: StateSnapshot,
    start_era: u32,
    last_dispatch_era: Option<u32>,
    paused: bool,
    mode: RunMode,
    dispatcher_present: bool,
    healthy: bool,
    holding: bool,
)
    ensures
        match spec_tick_action(plan, snap, start_era, last_dispatch_era, paused, mode, dispatcher_present, healthy, holding) {
            TickAction::Dispatch(i) | TickAction::Simulate(i) | TickAction::AnnounceShutdown(i) => i
                < plan.steps@.len() && crate::shared::spec_active_id(plan, Some(snap)) == Some(
                plan.steps@[i as int].id,
            ),
            _ => true,
        },
{
    lemma_first_unmet_props(plan.steps@, snap.relay.validators, snap.relay.cores);
    assert(plan.steps@.len() == plan.steps.len());
}

proof fn lemma_announce_all_applied(state: (Map<u32, String>, Seq<HistoryEntry>), id: u32, es: Seq<HistoryEntry>)
    requires
        state.0.contains_key(id),
    ensures
        announce_all(state, id, es) == state,
    decreases es.len(),
{
    if es.len() > 0 {
        lemma_announce_all_applied(announce_once(state, id, es[0]), id, es.drop_first());
    }
}

/// Law: announcing the shutdown milestone on any number of ticks (at least
/// one) records it exactly once: the outcome is that of the first
/// announcement, later ones change nothing.
pub proof fn law_shutdown_recorded_once(
    state: (Map<u32, String>, Seq<HistoryEntry>),
    id: u32,
    es: Seq<HistoryEntry>,
)
    requires
        es.len() > 0,
    ensures
        announce_all(state, id, es) == announce_once(state, id, es[0]),
        announce_all(state, id, es).0.contains_key(id),
{
    let first = announce_once(state, id, es[0]);
    assert(first.0.contains_key(id));
    lemma_announce_all_applied(first, id, es.drop_first());
}

/// The error recorded when a chain's batch fails to submit.
pub open spec fn submit_error_text(chain: ChainKind, err: Seq<char>) -> Seq<char> {
    "submit batch on "@ + chain.spec_api_name() + " failed: "@ + err
}

/// Shared state `s1` is `s0` after recording the submission of a batch of
/// `count` calls on `chain` with outcome `result`: the batch is logged
/// (finalized with its hashes, or the error), a failure becomes the last
/// error, and the step's progress is recorded only when the last batch went
/// through. Nothing else changes.
pub open spec fn submit_ok(
    s0: Shared,
    s1: Shared,
    step_id: u32,
    chain: ChainKind,
    count: usize,
    result: Result<(String, String), String>,
    is_last: bool,
    session_index: u32,
    at: String,
) -> bool {
    let e = s1.inner.persisted.history@.last();
    &&& s1.inner.persisted.history@.len() > 0
    &&& s1.inner.persisted.history@ == bounded_push(s0.inner.persisted.history@, e)
    &&& e.at == at
    &&& e.step_id == step_id
    &&& e.chain@ == chain.spec_api_name()
    &&& e.call@ == "utility.batch_all"@
    &&& e.args_summary@ == batch_summary(count)
    &&& match result {
        Ok((tx, block)) => e.status@ == "finalized"@ && e.tx_hash == Some(tx) && e.block_hash == Some(
            block,
        ) && e.error is None,
        Err(err) => e.status@ == "error"@ && e.tx_hash is None && e.block_hash is None && e.error
            == Some(err),
    }
    &&& match result {
        Ok(_) => s1.inner.last_error == s0.inner.last_error,
        Err(err) => match s1.inner.last_error {
            Some(t) => t@ == submit_error_text(chain, err@),
            None => false,
        },
    }
    &&& if result is Ok && is_last {
        &&& s1.inner.persisted.last_dispatch_era == Some(spec_era_of(session_index))
        &&& s1.inner.persisted.applied_at@ == s0.inner.persisted.applied_at@.insert(step_id, at)
    } else {
        &&& s1.inner.persisted.last_dispatch_era == s0.inner.persisted.last_dispatch_era
        &&& s1.inner.persisted.applied_at@ == s0.inner.persisted.applied_at@
    }
    &&& s1.inner.persisted.start_era == s0.inner.persisted.start_era
    &&& s1.inner.persisted.last_reassert_era == s0.inner.persisted.last_reassert_era
    &&& s1.inner.persisted.paused == s0.inner.persisted.paused
    &&& s1.inner.persisted.current_step_id == s0.inner.persisted.current_step_id
    &&& s1.inner.persisted.started_at == s0.inner.persisted.started_at
    &&& s1.inner.snapshot == s0.inner.snapshot
    &&& s1.inner.dispatcher_armed == s0.inner.dispatcher_armed
    &&& s1.inner.health_reasons@ == s0.inner.health_reasons@
    &&& s1.plan == s0.plan
    &&& s1.control_token == s0.control_token
    &&& s1.state_path == s0.state_path
}

/// Records the submission of one of a step's atomic batches (`result`: the
/// transaction and block hashes, or the error text) and says whether to go
/// on with the next batch. The batch is logged either way; a failure stops
/// the step and becomes the last error; the step's progress (soak anchor,
/// applied time) is recorded only when the last batch went through.
pub fn record_submit(
    shared: &mut Shared,
    step_id: u32,
    chain: ChainKind,
    count: usize,
    result: Result<(String, String), String>,
    is_last: bool,
    session_index: u32,
    at: String,
) -> (go_on: bool)
    ensures
        go_on == (result is Ok),
        submit_ok(*old(shared), *final(shared), step_id, chain, count, result, is_last, session_index, at),
{
    let ok = result.is_ok();
    let entry = match result {
        Ok((tx, block)) => batch_entry(at.clone(), step_id, chain, count, "finalized", Some(tx), Some(block), None),
        Err(err) => {
            let mut msg = String::new();
            msg.append("submit batch on ");
            msg.append(chain.api_name());
            msg.append(" failed: ");
            msg.append(err.as_str());
            shared.inner.last_error = Some(msg);
            batch_entry(at.clone(), step_id, chain, count, "error", None, None, Some(err))
        },
    };
    let ghost e = entry;
    shared.inner.persisted.push_history(entry);
    proof {
        lemma_bounded_push_last(old(shared).inner.persisted.history@, e);
    }
    if ok && is_last {
        record_step_applied(&mut shared.inner.persisted, session_index, step_id, at);
    }
    ok
}

} // verus!
