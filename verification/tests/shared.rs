use paseo_downsizer::config::{Dispatch, Health, Meta, Packing, Plan, Step};
use paseo_downsizer::model::{
    AssetHubState, DispatcherState, EraProgress, ParaInfo, RelayState, ServiceStatus, StateSnapshot,
    StepStatus, ValidatorGroups,
};
use paseo_downsizer::shared::{active_step, step_met, Shared};
use paseo_downsizer::state_store::Persisted;

fn step(id: u32, era_offset: u32, validators: u32, cores: u32, shutdown: bool) -> Step {
    Step { id, era_offset, validators, cores, min_validator_set_size: 40, note: format!("n{id}"), shutdown }
}

fn plan() -> Plan {
    Plan {
        meta: Meta {
            name: "p".to_string(),
            relay_ws: String::new(),
            asset_hub_ws: String::new(),
            era_hours: 6,
            soak_eras: 1,
            start_at: Some("2026-07-02T12:00:00+02:00".to_string()),
            start_validators: None,
        },
        dispatch: Dispatch { mode: "auto".to_string(), dry_run_first: true, require_healthy_finality: true },
        health: Health { max_finality_lag_blocks: 6 },
        steps: vec![step(1, 1, 100, 20, false), step(2, 2, 60, 10, false), step(3, 4, 60, 10, true)],
        exit_cohort: Vec::new(),
        packing: Packing { max_chains_per_core: 6, hard_max_chains_per_core: 10, default_weight: 5, weights: vec![] },
    }
}

fn snapshot(session_index: u32, validators: u32, cores: u32, paras: &[u32]) -> StateSnapshot {
    StateSnapshot {
        fetched_at: String::new(),
        relay: RelayState {
            chain: String::new(),
            spec_version: 1,
            best_block: 0,
            finalized_block: 0,
            finality_lag: 0,
            session_index,
            era_progress: EraProgress { current_era: 0, session_in_era: 0, blocks_into_era: 0, era_length_blocks: 3600, next_era_in_secs: 0 },
            validators,
            min_validator_set_size: 100,
            cores,
            ah_client_mode: String::new(),
            validator_groups: ValidatorGroups { count: 0, sizes: vec![] },
        },
        asset_hub: AssetHubState { chain: String::new(), best_block: 0, finalized_block: 0, validator_count: 0 },
        paras: paras.iter().map(|&id| ParaInfo { id, name: String::new(), cores: 1, is_system: false }).collect(),
        packing: vec![],
    }
}

fn shared(started_at: &str) -> Shared {
    let mut persisted = Persisted::fresh(started_at.to_string());
    persisted.start_era = Some(100);
    persisted.applied_at.insert(1, "x".to_string());
    Shared::new(plan(), persisted, Some("tok".to_string()), "state.json".to_string(), true)
}

#[test]
fn targets_met_at_or_below() {
    let p = plan();
    assert!(step_met(&p.steps[0], &snapshot(0, 100, 20, &[])));
    assert!(step_met(&p.steps[0], &snapshot(0, 90, 5, &[])));
    assert!(!step_met(&p.steps[0], &snapshot(0, 101, 20, &[])));
    assert!(!step_met(&p.steps[0], &snapshot(0, 100, 21, &[])));
    assert!(!step_met(&p.steps[2], &snapshot(0, 1, 1, &[])));
}

#[test]
fn active_step_is_the_first_unmet() {
    let p = plan();
    assert_eq!(active_step(&p, &snapshot(0, 152, 56, &[])).map(|s| s.id), Some(1));
    assert_eq!(active_step(&p, &snapshot(0, 100, 20, &[])).map(|s| s.id), Some(2));
    assert_eq!(active_step(&p, &snapshot(0, 20, 4, &[])).map(|s| s.id), Some(3));
    let mut done = plan();
    done.steps.pop();
    assert!(active_step(&done, &snapshot(0, 20, 4, &[])).is_none());
}

#[test]
fn plan_view_reports_each_step() {
    let mut s = shared("2026-07-01T00:00:00+00:00");
    s.inner.snapshot = Some(snapshot(612, 100, 20, &[1000, 2000]));
    let v = s.plan_view((0, 0));
    assert_eq!(v.started_at, "2026-07-01T00:00:00+00:00");
    assert_eq!(v.starts_at.as_deref(), Some("2026-07-02T12:00:00+02:00"));
    assert_eq!(v.current_step_id, Some(2));
    assert_eq!((v.era_hours, v.mode.as_str(), v.paused, v.max_finality_lag_blocks), (6, "auto", false, 6));
    let st: Vec<StepStatus> = v.steps.iter().map(|x| x.status).collect();
    assert_eq!(st, vec![StepStatus::Done, StepStatus::Active, StepStatus::Pending]);
    assert_eq!(v.steps[0].scheduled_eta, (1782864000 + 21600, 0));
    assert_eq!(v.steps[1].scheduled_eta, (1782864000 + 43200, 0));
    assert_eq!(v.steps[0].applied_at.as_deref(), Some("x"));
    assert!(v.steps[1].applied_at.is_none());
    assert_eq!((v.steps[1].observed.validators, v.steps[1].observed.cores), (100, 20));
    assert_eq!((v.steps[1].targets.validators, v.steps[1].targets.cores, v.steps[1].targets.min_set_size), (60, 10, 40));
    assert_eq!(v.steps[1].note, "n2");
    let packed: Vec<(u32, Vec<(u32, u32)>)> = v.steps[1]
        .computed_packing
        .iter()
        .map(|c| (c.core, c.assignments.iter().map(|a| (a.para_id, a.parts)).collect()))
        .collect();
    assert_eq!(packed, vec![(0, vec![(1000, 57600)]), (1, vec![(2000, 57600)])]);
}

#[test]
fn plan_view_while_paused_and_at_shutdown() {
    let mut s = shared("2026-07-01T00:00:00+00:00");
    s.set_paused(true);
    s.inner.snapshot = Some(snapshot(612, 100, 20, &[]));
    let st: Vec<StepStatus> = s.plan_view((0, 0)).steps.iter().map(|x| x.status).collect();
    assert_eq!(st, vec![StepStatus::Done, StepStatus::Paused, StepStatus::Pending]);
    s.set_paused(false);
    s.inner.snapshot = Some(snapshot(624, 60, 10, &[])); // era 104: the shutdown era
    let v = s.plan_view((0, 0));
    let st: Vec<StepStatus> = v.steps.iter().map(|x| x.status).collect();
    assert_eq!(st, vec![StepStatus::Done, StepStatus::Done, StepStatus::Shutdown]);
    assert_eq!(v.current_step_id, Some(3));
    assert_eq!(StepStatus::Shutdown.as_str(), "shutdown");
}

#[test]
fn plan_view_without_snapshot_or_start() {
    let s = shared("not a time");
    let v = s.plan_view((1_000, 5));
    assert_eq!(v.current_step_id, None);
    assert_eq!(v.steps[0].scheduled_eta, (1_000 + 21600, 5));
    assert!(v.steps.iter().all(|x| x.status == StepStatus::Pending));
    assert!(v.steps.iter().all(|x| x.computed_packing.is_empty()));
    assert_eq!((v.steps[0].observed.validators, v.steps[0].observed.cores), (0, 0));
}

#[test]
fn health_view_reflects_error_pause_and_arming() {
    let mut s = shared("2026-07-01T00:00:00+00:00");
    let h = s.health_view();
    assert_eq!((h.status, h.dispatcher), (ServiceStatus::Healthy, DispatcherState::Armed));
    assert_eq!((h.status.as_str(), h.dispatcher.as_str()), ("ok", "armed"));
    s.set_paused(true);
    let h = s.health_view();
    assert_eq!((h.status, h.dispatcher), (ServiceStatus::Paused, DispatcherState::Idle));
    s.inner.last_error = Some("boom".to_string());
    s.inner.health_reasons = vec!["finality lag 9 > max 6".to_string()];
    let h = s.health_view();
    assert_eq!(h.status.as_str(), "error");
    assert_eq!(h.reasons, vec!["finality lag 9 > max 6".to_string()]);
    assert_eq!(h.last_error.as_deref(), Some("boom"));
}

#[test]
fn new_shared_state_is_blank() {
    let s = shared("t");
    assert!(s.inner.snapshot.is_none() && s.inner.last_error.is_none() && s.inner.health_reasons.is_empty());
    assert!(s.inner.dispatcher_armed);
    assert_eq!(s.control_token.as_deref(), Some("tok"));
    assert_eq!(s.state_path, "state.json");
}
