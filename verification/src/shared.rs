//! The state shared between the scheduler and the API, and the views built
//! from it: which step is active, each step's status, service health.

use vstd::prelude::*;

use crate::config::{Plan, Step};
use crate::model::{
    packings_view, CorePacking, DispatcherState, HealthView, PlanView, ServiceStatus,
    StateSnapshot, StepObserved, StepStatus, StepTargets, StepView,
};
use crate::packing::{compute_packing, spec_compute_packing};
use crate::state::{era_of_session, spec_era_of};
use crate::state_store::Persisted;

verus! {

/// The shared runtime state.
pub struct Inner {
    pub snapshot: Option<StateSnapshot>,
    pub persisted: Persisted,
    pub dispatcher_armed: bool,
    pub last_error: Option<String>,
    pub health_reasons: Vec<String>,
}

/// A step's targets are met once the observed set and cores are at or below
/// them; the shutdown milestone is never met.
pub open spec fn spec_step_met(step: Step, validators: u32, cores: u32) -> bool {
    !step.shutdown && validators <= step.validators && cores <= step.cores
}

/// Index of the first step whose targets are not met.
pub open spec fn first_unmet(steps: Seq<Step>, validators: u32, cores: u32) -> Option<int>
    decreases steps.len(),
{
    if steps.len() == 0 {
        None
    } else if !spec_step_met(steps[0], validators, cores) {
        Some(0)
    } else {
        match first_unmet(steps.drop_first(), validators, cores) {
            Some(k) => Some(k + 1),
            None => None,
        }
    }
}

/// Whether a step's targets are met by the snapshot.
pub fn step_met(step: &Step, snap: &StateSnapshot) -> (r: bool)
    ensures
        r == spec_step_met(*step, snap.relay.validators, snap.relay.cores),
{
    if step.shutdown {
        return false;
    }
    snap.relay.validators <= step.validators && snap.relay.cores <= step.cores
}

proof fn lemma_first_unmet_at(steps: Seq<Step>, v: u32, c: u32, i: int)
    requires
        0 <= i <= steps.len(),
        forall|k: int| 0 <= k < i ==> spec_step_met(#[trigger] steps[k], v, c),
        i < steps.len() ==> !spec_step_met(steps[i], v, c),
    ensures
        first_unmet(steps, v, c) == if i < steps.len() { Some(i) } else { None::<int> },
    decreases steps.len(),
{
    if steps.len() > 0 && i > 0 {
        let t = steps.drop_first();
        assert forall|k: int| 0 <= k < i - 1 implies spec_step_met(#[trigger] t[k], v, c) by {
            assert(t[k] == steps[k + 1]);
        }
        if i - 1 < t.len() {
            assert(t[i - 1] == steps[i]);
        }
        lemma_first_unmet_at(t, v, c, i - 1);
    }
}

/// Index of the active step: the first whose targets are not yet met.
pub fn active_index(plan: &Plan, snap: &StateSnapshot) -> (r: Option<usize>)
    ensures
        match r {
            Some(i) => i < plan.steps@.len() && first_unmet(
                plan.steps@,
                snap.relay.validators,
                snap.relay.cores,
            ) == Some(i as int),
            None => first_unmet(plan.steps@, snap.relay.validators, snap.relay.cores) is None,
        },
{
    let n = plan.steps.len();
    for i in 0..n
        invariant
            n == plan.steps@.len(),
            forall|k: int|
                0 <= k < i ==> spec_step_met(
                    #[trigger] plan.steps@[k],
                    snap.relay.validators,
                    snap.relay.cores,
                ),
    {
        if !step_met(&plan.steps[i], snap) {
            proof {
                lemma_first_unmet_at(plan.steps@, snap.relay.validators, snap.relay.cores, i as int);
            }
            return Some(i);
        }
    }
    proof {
        lemma_first_unmet_at(plan.steps@, snap.relay.validators, snap.relay.cores, n as int);
    }
    None
}

/// The active step: the first enabled step whose targets are not yet met.
pub fn active_step<'a>(plan: &'a Plan, snap: &StateSnapshot) -> (r: Option<&'a Step>)
    ensures
        match first_unmet(plan.steps@, snap.relay.validators, snap.relay.cores) {
            Some(i) => r == Some(&plan.steps@[i]),
            None => r is None,
        },
{
    match active_index(plan, snap) {
        Some(i) => Some(&plan.steps[i]),
        None => None,
    }
}

/// What `<DateTime<Utc> as FromStr>::from_str` (chrono) yields for a text,
/// as (Unix seconds, nanoseconds); `None` when it rejects it.
pub uninterp spec fn utc_from_str(s: Seq<char>) -> Option<(i64, u32)>;

/// Parses a UTC timestamp with chrono's `FromStr` for `DateTime<Utc>`. The
/// contract only names the result; the accepted formats are chrono's.
#[verifier::external_body]
fn parse_utc(s: &str) -> (r: Option<(i64, u32)>)
    ensures
        r == utc_from_str(s@),
{
    match s.parse::<chrono::DateTime<chrono::Utc>>() {
        Ok(dt) => Some((dt.timestamp(), dt.timestamp_subsec_nanos())),
        Err(_) => None,
    }
}

/// `a + b`, saturating at `u32::MAX`.
pub open spec fn sat_add(a: u32, b: u32) -> u32 {
    if a + b > u32::MAX {
        u32::MAX
    } else {
        (a + b) as u32
    }
}

/// The status of a step.
pub open spec fn spec_step_status(st: Step, active_id: Option<u32>, done: bool, due: bool, paused: bool) -> StepStatus {
    if st.shutdown {
        if active_id == Some(st.id) && due {
            if paused {
                StepStatus::Paused
            } else {
                StepStatus::Shutdown
            }
        } else {
            StepStatus::Pending
        }
    } else if done {
        StepStatus::Done
    } else if active_id == Some(st.id) {
        if paused {
            StepStatus::Paused
        } else {
            StepStatus::Active
        }
    } else {
        StepStatus::Pending
    }
}

/// The active step's id for an optional snapshot.
pub open spec fn spec_active_id(plan: Plan, snap: Option<StateSnapshot>) -> Option<u32> {
    match snap {
        Some(s) => match first_unmet(plan.steps@, s.relay.validators, s.relay.cores) {
            Some(i) => Some(plan.steps@[i].id),
            None => None,
        },
        None => None,
    }
}

/// The para ids of the snapshot (none without one).
pub open spec fn spec_para_ids(snap: Option<StateSnapshot>) -> Seq<u32> {
    match snap {
        Some(s) => s.paras@.map_values(|p: crate::model::ParaInfo| p.id),
        None => Seq::empty(),
    }
}

/// The ids of the snapshot's paras, in order.
pub(crate) fn para_ids_of(snap: &StateSnapshot) -> (r: Vec<u32>)
    ensures
        r@ == spec_para_ids(Some(*snap)),
{
    let mut ids: Vec<u32> = Vec::new();
    let n = snap.paras.len();
    for i in 0..n
        invariant
            n == snap.paras@.len(),
            ids@ =~= snap.paras@.map_values(|p: crate::model::ParaInfo| p.id).take(i as int),
    {
        ids.push(snap.paras[i].id);
    }
    assert(snap.paras@.map_values(|p: crate::model::ParaInfo| p.id).take(n as int)
        =~= snap.paras@.map_values(|p: crate::model::ParaInfo| p.id));
    ids
}

/// What the view states about step `st`.
pub open spec fn step_view_ok(
    sv: StepView,
    st: Step,
    plan: Plan,
    inner: Inner,
    start: (i64, u32),
    abs_era: u32,
) -> bool {
    let snap = inner.snapshot;
    let start_era = match inner.persisted.start_era {
        Some(e) => e,
        None => abs_era,
    };
    let done = match snap {
        Some(s) => spec_step_met(st, s.relay.validators, s.relay.cores),
        None => false,
    };
    let due = abs_era >= sat_add(start_era, st.era_offset);
    &&& sv.id == st.id
    &&& sv.era_offset == st.era_offset
    &&& sv.targets == (StepTargets {
        validators: st.validators,
        cores: st.cores,
        min_set_size: st.min_validator_set_size,
    })
    &&& sv.status == spec_step_status(
        st,
        spec_active_id(plan, snap),
        done,
        due,
        inner.persisted.paused,
    )
    &&& sv.scheduled_eta == ((start.0 + plan.meta.era_hours * 3600 * st.era_offset) as i128, start.1)
    &&& sv.applied_at == if inner.persisted.applied_at@.contains_key(st.id) {
        Some(inner.persisted.applied_at@[st.id])
    } else {
        None::<String>
    }
    &&& packings_view(sv.computed_packing@) == spec_compute_packing(
        spec_para_ids(snap),
        st.cores,
        plan.packing,
    ).0
    &&& sv.dropped@ == spec_compute_packing(spec_para_ids(snap), st.cores, plan.packing).1
    &&& sv.observed == (StepObserved {
        validators: match snap {
            Some(s) => s.relay.validators,
            None => 0,
        },
        cores: match snap {
            Some(s) => s.relay.cores,
            None => 0,
        },
    })
    &&& sv.note == st.note
    &&& sv.shutdown == st.shutdown
}

/// Law: what a step's status in the plan view says. With `era` the
/// snapshot's era and the step due once `era` reaches the anchored start
/// era plus its offset (saturating at the largest era):
/// - the shutdown milestone is never done or active; it is shown as
///   reached (shutdown, or paused while paused) exactly when it is the
///   active step and due, and is pending otherwise, also while it is active
///   but its era has not come;
/// - another step is done once its targets are met, and otherwise shown
///   active (paused while paused) exactly when it is the active step;
/// - a step shows as paused only while paused, and active or shutdown only
///   while not paused.
pub proof fn law_step_status(sv: StepView, st: Step, plan: Plan, inner: Inner, start: (i64, u32), era: u32)
    requires
        step_view_ok(sv, st, plan, inner, start, era),
    ensures
        ({
            let start_era: int = match inner.persisted.start_era {
                Some(e) => e as int,
                None => era as int,
            };
            let due = era as int >= start_era + st.era_offset as int || era == u32::MAX;
            let active = spec_active_id(plan, inner.snapshot) == Some(st.id);
            let met = match inner.snapshot {
                Some(s) => st.validators >= s.relay.validators && st.cores >= s.relay.cores,
                None => false,
            };
            &&& st.shutdown ==> sv.status != StepStatus::Done && sv.status != StepStatus::Active
            &&& st.shutdown ==> ((sv.status == StepStatus::Shutdown || sv.status == StepStatus::Paused)
                <==> (active && due))
            &&& st.shutdown && !(active && due) ==> sv.status == StepStatus::Pending
            &&& !st.shutdown ==> (sv.status == StepStatus::Done <==> met)
            &&& !st.shutdown && !met ==> ((sv.status == StepStatus::Active || sv.status
                == StepStatus::Paused) <==> active)
            &&& sv.status == StepStatus::Paused ==> inner.persisted.paused
            &&& (sv.status == StepStatus::Active || sv.status == StepStatus::Shutdown)
                ==> !inner.persisted.paused
        }),
{
}

/// The start instant of the schedule: the persisted start, else `now`.
pub open spec fn spec_start(inner: Inner, now: (i64, u32)) -> (i64, u32) {
    match utc_from_str(inner.persisted.started_at@) {
        Some(t) => t,
        None => now,
    }
}

/// The absolute era of the snapshot (0 without one).
pub open spec fn spec_abs_era(snap: Option<StateSnapshot>) -> u32 {
    match snap {
        Some(s) => spec_era_of(s.relay.session_index),
        None => 0,
    }
}

/// Builds the plan view from the current snapshot and persisted progress.
/// `now` stands in for the start when the persisted start does not parse.
pub fn plan_view(plan: &Plan, inner: &Inner, now: (i64, u32)) -> (r: PlanView)
    requires
        spec_para_ids(inner.snapshot).len() <= u32::MAX,
    ensures
        r.started_at == inner.persisted.started_at,
        r.starts_at == plan.meta.start_at,
        r.era_hours == plan.meta.era_hours,
        r.current_step_id == spec_active_id(*plan, inner.snapshot),
        r.mode == plan.dispatch.mode,
        r.paused == inner.persisted.paused,
        r.max_finality_lag_blocks == plan.health.max_finality_lag_blocks,
        r.steps@.len() == plan.steps@.len(),
        forall|i: int|
            0 <= i < r.steps@.len() ==> step_view_ok(
                #[trigger] r.steps@[i],
                plan.steps@[i],
                *plan,
                *inner,
                spec_start(*inner, now),
                spec_abs_era(inner.snapshot),
            ),
{
    let start = match parse_utc(inner.persisted.started_at.as_str()) {
        Some(t) => t,
        None => now,
    };
    let paused = inner.persisted.paused;
    let active_id: Option<u32> = match &inner.snapshot {
        Some(s) => match active_index(plan, s) {
            Some(i) => Some(plan.steps[i].id),
            None => None,
        },
        None => None,
    };
    let abs_era: u32 = match &inner.snapshot {
        Some(s) => era_of_session(s.relay.session_index),
        None => 0,
    };
    let start_era = match inner.persisted.start_era {
        Some(e) => e,
        None => abs_era,
    };
    let para_ids: Vec<u32> = match &inner.snapshot {
        Some(s) => para_ids_of(s),
        None => Vec::new(),
    };
    let (obs_validators, obs_cores) = match &inner.snapshot {
        Some(s) => (s.relay.validators, s.relay.cores),
        None => (0, 0),
    };
    let mut steps: Vec<StepView> = Vec::new();
    let n = plan.steps.len();
    for i in 0..n
        invariant
            n == plan.steps@.len(),
            para_ids@ == spec_para_ids(inner.snapshot),
            para_ids@.len() <= u32::MAX,
            start == spec_start(*inner, now),
            abs_era == spec_abs_era(inner.snapshot),
            start_era == match inner.persisted.start_era {
                Some(e) => e,
                None => abs_era,
            },
            active_id == spec_active_id(*plan, inner.snapshot),
            paused == inner.persisted.paused,
            obs_validators == match inner.snapshot {
                Some(s) => s.relay.validators,
                None => 0,
            },
            obs_cores == match inner.snapshot {
                Some(s) => s.relay.cores,
                None => 0,
            },
            steps@.len() == i,
            forall|k: int|
                0 <= k < i ==> step_view_ok(
                    #[trigger] steps@[k],
                    plan.steps@[k],
                    *plan,
                    *inner,
                    start,
                    abs_era,
                ),
    {
        let st = &plan.steps[i];
        let done = match &inner.snapshot {
            Some(s) => step_met(st, s),
            None => false,
        };
        let due = abs_era >= start_era.saturating_add(st.era_offset);
        let is_active = match active_id {
            Some(a) => a == st.id,
            None => false,
        };
        let status = if st.shutdown {
            if is_active && due {
                if paused {
                    StepStatus::Paused
                } else {
                    StepStatus::Shutdown
                }
            } else {
                StepStatus::Pending
            }
        } else if done {
            StepStatus::Done
        } else if is_active {
            if paused {
                StepStatus::Paused
            } else {
                StepStatus::Active
            }
        } else {
            StepStatus::Pending
        };
        let eh = plan.meta.era_hours as i128;
        let eo = st.era_offset as i128;
        assert(0 <= eh * 3600 * eo <= 4294967295 * 3600 * 4294967295) by (nonlinear_arith)
            requires
                0 <= eh <= 4294967295,
                0 <= eo <= 4294967295,
        ;
        let offset: i128 = eh * 3600 * eo;
        let scheduled: (i128, u32) = (start.0 as i128 + offset, start.1);
        let applied_at = match inner.persisted.applied_at.get(&st.id) {
            Some(a) => Some(a.clone()),
            None => None,
        };
        let packing = compute_packing(para_ids.as_slice(), st.cores, &plan.packing);
        let view = StepView {
            id: st.id,
            era_offset: st.era_offset,
            targets: StepTargets {
                validators: st.validators,
                cores: st.cores,
                min_set_size: st.min_validator_set_size,
            },
            status,
            scheduled_eta: scheduled,
            applied_at,
            computed_packing: packing.cores,
            dropped: packing.dropped,
            observed: StepObserved { validators: obs_validators, cores: obs_cores },
            note: st.note.clone(),
            shutdown: st.shutdown,
        };
        steps.push(view);
    }
    PlanView {
        started_at: inner.persisted.started_at.clone(),
        starts_at: match &plan.meta.start_at {
            Some(s) => Some(s.clone()),
            None => None,
        },
        era_hours: plan.meta.era_hours,
        current_step_id: active_id,
        mode: plan.dispatch.mode.clone(),
        paused,
        max_finality_lag_blocks: plan.health.max_finality_lag_blocks,
        steps,
    }
}

/// Builds the health view: error when an error is recorded, else paused or
/// ok; the dispatcher is armed only when configured and not paused.
pub fn health_view(inner: &Inner) -> (r: HealthView)
    ensures
        r.status == if inner.last_error is Some {
            ServiceStatus::Error
        } else if inner.persisted.paused {
            ServiceStatus::Paused
        } else {
            ServiceStatus::Healthy
        },
        r.dispatcher == if inner.dispatcher_armed && !inner.persisted.paused {
            DispatcherState::Armed
        } else {
            DispatcherState::Idle
        },
        r.reasons@ == inner.health_reasons@,
        r.last_error == inner.last_error,
{
    let paused = inner.persisted.paused;
    let status = if inner.last_error.is_some() {
        ServiceStatus::Error
    } else if paused {
        ServiceStatus::Paused
    } else {
        ServiceStatus::Healthy
    };
    let mut reasons: Vec<String> = Vec::new();
    let n = inner.health_reasons.len();
    for i in 0..n
        invariant
            n == inner.health_reasons@.len(),
            reasons@ =~= inner.health_reasons@.take(i as int),
    {
        reasons.push(inner.health_reasons[i].clone());
    }
    assert(inner.health_reasons@.take(n as int) =~= inner.health_reasons@);
    HealthView {
        status,
        reasons,
        dispatcher: if inner.dispatcher_armed && !paused {
            DispatcherState::Armed
        } else {
            DispatcherState::Idle
        },
        last_error: match &inner.last_error {
            Some(e) => Some(e.clone()),
            None => None,
        },
    }
}

/// Two shared states agree on everything but the pause flag.
pub open spec fn same_but_paused(a: Shared, b: Shared) -> bool {
    &&& a.inner.persisted.history@ == b.inner.persisted.history@
    &&& a.inner.persisted.started_at == b.inner.persisted.started_at
    &&& a.inner.persisted.start_era == b.inner.persisted.start_era
    &&& a.inner.persisted.last_dispatch_era == b.inner.persisted.last_dispatch_era
    &&& a.inner.persisted.last_reassert_era == b.inner.persisted.last_reassert_era
    &&& a.inner.persisted.current_step_id == b.inner.persisted.current_step_id
    &&& a.inner.persisted.applied_at@ == b.inner.persisted.applied_at@
    &&& a.inner.snapshot == b.inner.snapshot
    &&& a.inner.dispatcher_armed == b.inner.dispatcher_armed
    &&& a.inner.last_error == b.inner.last_error
    &&& a.inner.health_reasons@ == b.inner.health_reasons@
    &&& a.plan == b.plan
    &&& a.control_token == b.control_token
    &&& a.state_path == b.state_path
}

/// The state shared by the scheduler and the API: the plan, the mutable
/// runtime state, the optional control token and where progress is saved.
/// (The caller puts it behind a lock and writes it to disk.)
pub struct Shared {
    pub plan: Plan,
    pub inner: Inner,
    pub control_token: Option<String>,
    pub state_path: String,
}

impl Shared {
    /// Fresh shared state: no snapshot yet, no error, no health reasons.
    pub fn new(
        plan: Plan,
        persisted: Persisted,
        control_token: Option<String>,
        state_path: String,
        dispatcher_armed: bool,
    ) -> (r: Shared)
        ensures
            r.plan == plan,
            r.inner.snapshot is None,
            r.inner.persisted == persisted,
            r.inner.dispatcher_armed == dispatcher_armed,
            r.inner.last_error is None,
            r.inner.health_reasons@.len() == 0,
            r.control_token == control_token,
            r.state_path == state_path,
    {
        Shared {
            plan,
            inner: Inner {
                snapshot: None,
                persisted,
                dispatcher_armed,
                last_error: None,
                health_reasons: Vec::new(),
            },
            control_token,
            state_path,
        }
    }

    /// Sets the pause flag; nothing else changes.
    pub fn set_paused(&mut self, paused: bool)
        ensures
            final(self).inner.persisted.paused == paused,
            same_but_paused(*final(self), *old(self)),
    {
        self.inner.persisted.paused = paused;
    }

    /// The plan view (see [`plan_view`]).
    pub fn plan_view(&self, now: (i64, u32)) -> (r: PlanView)
        requires
            spec_para_ids(self.inner.snapshot).len() <= u32::MAX,
        ensures
            r.started_at == self.inner.persisted.started_at,
            r.starts_at == self.plan.meta.start_at,
            r.era_hours == self.plan.meta.era_hours,
            r.current_step_id == spec_active_id(self.plan, self.inner.snapshot),
            r.mode == self.plan.dispatch.mode,
            r.paused == self.inner.persisted.paused,
            r.max_finality_lag_blocks == self.plan.health.max_finality_lag_blocks,
            r.steps@.len() == self.plan.steps@.len(),
            forall|i: int|
                0 <= i < r.steps@.len() ==> step_view_ok(
                    #[trigger] r.steps@[i],
                    self.plan.steps@[i],
                    self.plan,
                    self.inner,
                    spec_start(self.inner, now),
                    spec_abs_era(self.inner.snapshot),
                ),
    {
        plan_view(&self.plan, &self.inner, now)
    }

    /// The health view (see [`health_view`]).
    pub fn health_view(&self) -> (r: HealthView)
        ensures
            r.status == if self.inner.last_error is Some {
                ServiceStatus::Error
            } else if self.inner.persisted.paused {
                ServiceStatus::Paused
            } else {
                ServiceStatus::Healthy
            },
            r.dispatcher == if self.inner.dispatcher_armed && !self.inner.persisted.paused {
                DispatcherState::Armed
            } else {
                DispatcherState::Idle
            },
            r.reasons@ == self.inner.health_reasons@,
            r.last_error == self.inner.last_error,
    {
        health_view(&self.inner)
    }
}

} // verus!
