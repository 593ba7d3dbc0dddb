use paseo_downsizer::config::{Dispatch, Health, Meta, Packing, Plan, Settings, Step};
use paseo_downsizer::dispatch::{
    ChainKind, DispatchItem, Dispatcher, InnerCall, LeverCall, Lookups, Resolved,
};
use paseo_downsizer::dryrun::DryRunError;
use paseo_downsizer::model::{
    Assignment, AssetHubState, CorePacking, EraProgress, ParaInfo, RelayState, StateSnapshot, ValidatorGroups,
};
use paseo_downsizer::packing::PackingResult;
use paseo_downsizer::reassert_run::{begin_reassert, on_reassert_dry_run, on_reassert_submit, ReassertAction};
use paseo_downsizer::scheduler::{publish_tick, RunMode, StepCalls, TickAction};
use paseo_downsizer::shared::Shared;
use paseo_downsizer::state_store::Persisted;
use paseo_downsizer::step_run::{
    begin_step, on_batch_dry_run, on_item_dry_run, on_submit, StepAction, StepRun,
};

fn plan() -> Plan {
    Plan {
        meta: Meta {
            name: "p".to_string(),
            relay_ws: "wss://relay".to_string(),
            asset_hub_ws: "wss://ah".to_string(),
            era_hours: 6,
            soak_eras: 1,
            start_at: None,
            start_validators: None,
        },
        dispatch: Dispatch { mode: "auto".to_string(), dry_run_first: true, require_healthy_finality: true },
        health: Health { max_finality_lag_blocks: 6 },
        steps: vec![Step {
            id: 1,
            era_offset: 1,
            validators: 100,
            cores: 20,
            min_validator_set_size: 40,
            note: String::new(),
            shutdown: false,
        }],
        exit_cohort: vec![],
        packing: Packing { max_chains_per_core: 1, hard_max_chains_per_core: 1, default_weight: 5, weights: vec![] },
    }
}

fn dispatcher(dry_run_first: bool) -> Dispatcher {
    let l = Lookups {
        proxy: None,
        sudo: Some("Sudo".to_string()),
        set_parameter: None,
        request_core_count: None,
        batch_all: None,
        ah_proxy: None,
        ah_sudo: None,
        set_validator_count: None,
        ah_batch_all: None,
        timeslice_period: Some(80),
    };
    Dispatcher { sudo: [3u8; 32], resolved: Resolved::from_lookups(l), dry_run_first }
}

fn shared() -> Shared {
    Shared::new(plan(), Persisted::fresh("t".to_string()), None, "s.json".to_string(), true)
}

fn item(chain: ChainKind, path: &str, call: LeverCall) -> DispatchItem {
    DispatchItem { chain, call_path: path.to_string(), args_summary: format!("{path} args"), call }
}

/// Two relay calls and one Asset Hub call.
fn calls() -> StepCalls {
    StepCalls {
        packing: PackingResult { cores: vec![], dropped: vec![] },
        begin: 1000,
        relay: vec![
            item(ChainKind::Relay, "Parameters.set_parameter", LeverCall::SetMinSetSize(40)),
            item(ChainKind::Relay, "Coretime.request_core_count", LeverCall::RequestCoreCount(20)),
        ],
        ah: vec![item(ChainKind::AssetHub, "Staking.set_validator_count", LeverCall::SetValidatorCount(100))],
    }
}

fn no_calls() -> StepCalls {
    StepCalls { packing: PackingResult { cores: vec![], dropped: vec![] }, begin: 1000, relay: vec![], ah: vec![] }
}

fn ok_hashes() -> Result<(String, String), String> {
    Ok(("0xt".to_string(), "0xb".to_string()))
}

/// Runs the dry runs with the given outcomes for the calls and batches,
/// returning the run and the action after them.
fn dry_runs(
    s: &mut Shared,
    d: &Dispatcher,
    c: StepCalls,
    simulate: bool,
    items_ok: &[bool],
    batches_ok: &[bool],
) -> (StepRun, StepAction) {
    let (mut run, mut a) = begin_step(d, c, 4, simulate, 612, s, "t0".to_string());
    for (k, ok) in items_ok.iter().enumerate() {
        assert_eq!(a, StepAction::DryRunItem(k));
        let outcome = if *ok { Ok(()) } else { Err(format!("bad {k}")) };
        a = on_item_dry_run(&mut run, s, outcome, format!("i{k}"));
    }
    for (k, ok) in batches_ok.iter().enumerate() {
        assert_eq!(a, StepAction::DryRunBatch(k));
        a = on_batch_dry_run(&mut run, s, *ok, format!("b{k}"));
    }
    (run, a)
}

#[test]
fn a_step_dry_runs_every_call_then_each_batch_then_submits_in_order() {
    let mut s = shared();
    let d = dispatcher(true);
    let (mut run, a) = dry_runs(&mut s, &d, calls(), false, &[true, true, true], &[true, true]);
    assert_eq!(run.items.len(), 3);
    assert_eq!(run.batches.len(), 2);
    assert_eq!((run.batches[0].chain, run.batches[0].count), (ChainKind::Relay, 2));
    assert_eq!((run.batches[1].chain, run.batches[1].count), (ChainKind::AssetHub, 1));
    assert!(matches!(&run.batches[0].call.inner, InnerCall::BatchAll { calls, .. } if calls.len() == 2));
    let h = &s.inner.persisted.history;
    assert_eq!(h.len(), 3);
    assert_eq!(
        h.iter().map(|e| (e.status.as_str(), e.call.as_str(), e.chain.as_str())).collect::<Vec<_>>(),
        vec![
            ("dry_run_ok", "Parameters.set_parameter", "relay"),
            ("dry_run_ok", "Coretime.request_core_count", "relay"),
            ("dry_run_ok", "Staking.set_validator_count", "assetHub"),
        ]
    );
    assert_eq!(h[0].args_summary, "Parameters.set_parameter args");

    assert_eq!(a, StepAction::Submit(0));
    let a = on_submit(&mut run, &mut s, ok_hashes(), "s0".to_string());
    assert_eq!(a, StepAction::Submit(1));
    assert!(s.inner.persisted.applied_at.is_empty());
    let a = on_submit(&mut run, &mut s, ok_hashes(), "s1".to_string());
    assert_eq!(a, StepAction::Finished);
    assert_eq!(s.inner.persisted.last_dispatch_era, Some(102));
    assert_eq!(s.inner.persisted.applied_at.get(&4).map(|x| x.as_str()), Some("s1"));
    assert_eq!(s.inner.persisted.history.len(), 5);
    assert!(s.inner.last_error.is_none());
}

#[test]
fn a_failed_dry_run_aborts_the_step_with_its_error() {
    let mut s = shared();
    let d = dispatcher(true);
    let (run, a) = dry_runs(&mut s, &d, calls(), false, &[true, false, true], &[true, true]);
    assert_eq!(a, StepAction::Finished);
    assert!(!run.all_ok);
    assert_eq!(s.inner.last_error.as_deref(), Some("step 4 dry-run failed; aborted"));
    assert!(s.inner.persisted.last_dispatch_era.is_none());
    assert!(s.inner.persisted.applied_at.is_empty());
    let h = &s.inner.persisted.history;
    assert_eq!(h.len(), 3);
    assert_eq!((h[1].status.as_str(), h[1].error.as_deref(), h[1].at.as_str()), ("dry_run_failed", Some("bad 1"), "i1"));
    assert_eq!(h[2].status, "dry_run_ok");
}

#[test]
fn a_failed_batch_dry_run_also_aborts() {
    let mut s = shared();
    let d = dispatcher(true);
    let (_, a) = dry_runs(&mut s, &d, calls(), false, &[true, true, true], &[true, false]);
    assert_eq!(a, StepAction::Finished);
    assert_eq!(s.inner.last_error.as_deref(), Some("step 4 dry-run failed; aborted"));
    assert_eq!(s.inner.persisted.history.len(), 3);
}

#[test]
fn without_required_dry_runs_a_failure_still_submits() {
    let mut s = shared();
    let d = dispatcher(false);
    let (_, a) = dry_runs(&mut s, &d, calls(), false, &[false, true, true], &[false, true]);
    assert_eq!(a, StepAction::Submit(0));
    assert!(s.inner.last_error.is_none());
}

#[test]
fn a_simulation_submits_nothing_and_records_only_dry_runs() {
    let mut s = shared();
    let d = dispatcher(true);
    let (run, a) = dry_runs(&mut s, &d, calls(), true, &[true, false, true], &[true, true]);
    assert_eq!(a, StepAction::Finished);
    assert!(!run.all_ok);
    assert!(s.inner.last_error.is_none());
    assert!(s.inner.persisted.last_dispatch_era.is_none());
    assert!(s.inner.persisted.applied_at.is_empty());
    let statuses: Vec<&str> = s.inner.persisted.history.iter().map(|e| e.status.as_str()).collect();
    assert_eq!(statuses, vec!["dry_run_ok", "dry_run_failed", "dry_run_ok"]);
}

#[test]
fn a_failed_submission_ends_the_step() {
    let mut s = shared();
    let d = dispatcher(true);
    let (mut run, a) = dry_runs(&mut s, &d, calls(), false, &[true, true, true], &[true, true]);
    assert_eq!(a, StepAction::Submit(0));
    let a = on_submit(&mut run, &mut s, Err("boom".to_string()), "s0".to_string());
    assert_eq!(a, StepAction::Finished);
    assert_eq!(s.inner.last_error.as_deref(), Some("submit batch on relay failed: boom"));
    assert!(s.inner.persisted.applied_at.is_empty());
    assert!(s.inner.persisted.last_dispatch_era.is_none());
}

#[test]
fn a_step_without_calls_lands_at_once() {
    let mut s = shared();
    let d = dispatcher(true);
    let (run, a) = begin_step(&d, no_calls(), 7, false, 612, &mut s, "t0".to_string());
    assert_eq!(a, StepAction::Finished);
    assert!(run.batches.is_empty());
    assert_eq!(s.inner.persisted.last_dispatch_era, Some(102));
    assert_eq!(s.inner.persisted.applied_at.get(&7).map(|x| x.as_str()), Some("t0"));
    assert!(s.inner.persisted.history.is_empty());
}

#[test]
fn a_simulated_step_without_calls_records_nothing() {
    let mut s = shared();
    let d = dispatcher(true);
    let (_, a) = begin_step(&d, no_calls(), 7, true, 612, &mut s, "t0".to_string());
    assert_eq!(a, StepAction::Finished);
    assert!(s.inner.persisted.applied_at.is_empty());
    assert!(s.inner.persisted.last_dispatch_era.is_none());
}

#[test]
fn only_asset_hub_calls_make_one_batch() {
    let mut s = shared();
    let d = dispatcher(true);
    let mut c = calls();
    c.relay.clear();
    let (run, a) = dry_runs(&mut s, &d, c, false, &[true], &[true]);
    assert_eq!(a, StepAction::Submit(0));
    assert_eq!(run.batches.len(), 1);
    assert_eq!(run.batches[0].chain, ChainKind::AssetHub);
}

fn snapshot(lag: u64) -> StateSnapshot {
    StateSnapshot {
        fetched_at: "now".to_string(),
        relay: RelayState {
            chain: "Paseo".to_string(),
            spec_version: 1,
            best_block: 1000 + lag,
            finalized_block: 1000,
            finality_lag: lag,
            session_index: 612,
            era_progress: EraProgress { current_era: 102, session_in_era: 0, blocks_into_era: 0, era_length_blocks: 3600, next_era_in_secs: 0 },
            validators: 152,
            min_validator_set_size: 100,
            cores: 56,
            ah_client_mode: "Active".to_string(),
            validator_groups: ValidatorGroups { count: 0, sizes: vec![] },
        },
        asset_hub: AssetHubState { chain: "AH".to_string(), best_block: 1, finalized_block: 1, validator_count: 152 },
        paras: vec![ParaInfo { id: 1000, name: "AH".to_string(), cores: 1, is_system: true }],
        packing: vec![],
    }
}

#[test]
fn a_tick_publishes_the_snapshot_with_one_reason_per_breached_gate() {
    let mut s = shared();
    s.inner.last_error = Some("old".to_string());
    let d = publish_tick(
        &mut s,
        snapshot(9),
        RunMode::Auto,
        true,
        Some("online fraction 0.50 < min 0.80".to_string()),
        (1782864000, 0),
    );
    assert!(d.lag_exceeded && d.online_low);
    assert_eq!(d.abs_era, 102);
    assert_eq!(d.action, TickAction::NotDue(0));
    assert_eq!(
        s.inner.health_reasons,
        vec!["finality lag 9 > max 6".to_string(), "online fraction 0.50 < min 0.80".to_string()]
    );
    assert!(s.inner.last_error.is_none());
    assert_eq!(s.inner.snapshot.as_ref().map(|x| x.relay.finality_lag), Some(9));
    assert_eq!(s.inner.persisted.start_era, Some(102));
    assert_eq!(s.inner.persisted.current_step_id, Some(1));
}

#[test]
fn a_healthy_tick_has_no_reasons() {
    let mut s = shared();
    let d = publish_tick(&mut s, snapshot(2), RunMode::Auto, true, None, (1782864000, 0));
    assert!(!d.lag_exceeded && !d.online_low);
    assert!(s.inner.health_reasons.is_empty());
}

#[test]
fn dry_run_messages_name_the_call() {
    let p = "Broker.assign_core";
    assert_eq!(DryRunError::NoEffects.message(p), "dry-run Ok had no effects for Broker.assign_core");
    assert_eq!(
        DryRunError::MissingExecutionResult.message(p),
        "dry-run effects missing execution_result for Broker.assign_core"
    );
    assert_eq!(
        DryRunError::Dispatch("Err::BadOrigin".to_string()).message(p),
        "dry-run dispatch error for Broker.assign_core: Err::BadOrigin"
    );
    assert_eq!(
        DryRunError::ExecutionNotResult.message(p),
        "dry-run execution_result not a Result for Broker.assign_core"
    );
    assert_eq!(
        DryRunError::Rejected("Err::Unimplemented".to_string()).message(p),
        "dry-run rejected (DryRunApi Err) for Broker.assign_core: Err::Unimplemented"
    );
    assert_eq!(DryRunError::NotResult.message(p), "dry-run result not a Result variant for Broker.assign_core");
}

#[test]
fn settings_fall_back_to_the_plan_and_drop_blank_values() {
    let p = plan();
    let s = Settings::from_env_values(
        &p,
        None,
        Some("wss://other-ah".to_string()),
        None,
        Some("//Alice".to_string()),
        Some(" \t ".to_string()),
        Some(String::new()),
        None,
        Some(" tok ".to_string()),
        None,
    );
    assert_eq!(s.relay_ws, "wss://relay");
    assert_eq!(s.ah_ws, "wss://other-ah");
    assert_eq!(s.bind_addr, "127.0.0.1:8080");
    assert_eq!(s.proxy_suri.as_deref(), Some("//Alice"));
    assert!(s.sudo_account.is_none());
    assert!(s.control_token.is_none());
    assert!(s.matrix_homeserver.is_none());
    assert_eq!(s.matrix_token.as_deref(), Some(" tok "));
    assert!(s.matrix_room.is_none());
}

#[test]
fn a_set_but_empty_endpoint_is_kept() {
    let p = plan();
    let s = Settings::from_env_values(
        &p,
        Some(String::new()),
        None,
        Some("0.0.0.0:9000".to_string()),
        None,
        None,
        None,
        None,
        None,
        None,
    );
    assert_eq!(s.relay_ws, "");
    assert_eq!(s.ah_ws, "wss://ah");
    assert_eq!(s.bind_addr, "0.0.0.0:9000");
}

fn packed(core: u32, a: &[(u32, u32)]) -> CorePacking {
    CorePacking { core, assignments: a.iter().map(|&(para_id, parts)| Assignment { para_id, parts }).collect() }
}

fn drifted_cores() -> Vec<CorePacking> {
    vec![packed(0, &[(1000, 57600)]), packed(1, &[(2000, 28800), (2001, 28800)])]
}

#[test]
fn a_reassertion_dry_runs_then_submits_one_relay_batch_and_marks_the_era() {
    let mut s = shared();
    let d = dispatcher(true);
    let (mut run, a) = begin_reassert(&d, &drifted_cores(), 1000, 101, &mut s);
    assert_eq!(a, ReassertAction::DryRun);
    assert!(s.inner.persisted.last_reassert_era.is_none());
    {
        let b = run.batch.as_ref().unwrap();
        assert_eq!((b.chain, b.count), (ChainKind::Relay, 2));
        match &b.call.inner {
            InnerCall::BatchAll { calls, .. } => {
                assert_eq!(calls.len(), 2);
                assert!(matches!(&calls[1], LeverCall::AssignCore { core: 1, begin: 13, assignments } if assignments.len() == 2));
            }
            _ => panic!("expected a batch"),
        }
    }
    let a = on_reassert_dry_run(&mut run, &mut s, true);
    assert_eq!(a, ReassertAction::Submit);
    assert!(s.inner.persisted.last_reassert_era.is_none());
    let a = on_reassert_submit(&mut run, &mut s, ok_hashes(), "r".to_string());
    assert_eq!(a, ReassertAction::Finished);
    assert_eq!(s.inner.persisted.last_reassert_era, Some(101));
    let h = &s.inner.persisted.history;
    assert_eq!(h.len(), 1);
    assert_eq!(
        (h[0].step_id, h[0].chain.as_str(), h[0].status.as_str(), h[0].tx_hash.as_deref(), h[0].at.as_str()),
        (0, "relay", "finalized", Some("0xt"), "r")
    );
    assert_eq!(h[0].args_summary, "2 calls (proxy→sudo→batch_all)");
}

#[test]
fn a_failed_reassertion_dry_run_skips_the_era() {
    let mut s = shared();
    let d = dispatcher(true);
    let (mut run, _) = begin_reassert(&d, &drifted_cores(), 1000, 101, &mut s);
    let a = on_reassert_dry_run(&mut run, &mut s, false);
    assert_eq!(a, ReassertAction::Finished);
    assert_eq!(s.inner.persisted.last_reassert_era, Some(101));
    assert!(s.inner.persisted.history.is_empty());
}

#[test]
fn without_required_dry_runs_the_reassertion_submits_at_once() {
    let mut s = shared();
    let d = dispatcher(false);
    let (mut run, a) = begin_reassert(&d, &drifted_cores(), 1000, 101, &mut s);
    assert_eq!(a, ReassertAction::Submit);
    let a = on_reassert_submit(&mut run, &mut s, Err("boom".to_string()), "r".to_string());
    assert_eq!(a, ReassertAction::Finished);
    assert_eq!(s.inner.persisted.last_reassert_era, Some(101));
    let h = &s.inner.persisted.history;
    assert_eq!((h[0].status.as_str(), h[0].error.as_deref(), h[0].tx_hash.as_deref()), ("error", Some("boom"), None));
    assert!(s.inner.last_error.is_none());
}

#[test]
fn nothing_to_reassert_marks_the_era() {
    let mut s = shared();
    let d = dispatcher(true);
    let (run, a) = begin_reassert(&d, &vec![], 1000, 101, &mut s);
    assert_eq!(a, ReassertAction::Finished);
    assert!(run.batch.is_none());
    assert_eq!(s.inner.persisted.last_reassert_era, Some(101));
}
