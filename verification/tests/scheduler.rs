use std::collections::BTreeMap;

use paseo_downsizer::config::{Dispatch, Health, Meta, Packing, Plan, Step};
use paseo_downsizer::dispatch::{ChainKind, DispatchItem, LeverCall};
use paseo_downsizer::model::{
    AssetHubState, Assignment, CorePacking, EraProgress, HistoryEntry, ParaInfo, RelayState,
    StateSnapshot, ValidatorGroups,
};
use paseo_downsizer::scheduler::{
    announce_shutdown, batch_entry, dispatch_gate, item_entry, lag_reason, membership_matches,
    reassert_plan, record_reassert, record_step_applied, tick, DispatchGate, RunMode, TickAction,
};
use paseo_downsizer::state_store::Persisted;

fn step(id: u32, era_offset: u32, validators: u32, cores: u32, shutdown: bool) -> Step {
    Step { id, era_offset, validators, cores, min_validator_set_size: 40, note: String::new(), shutdown }
}

fn plan(mode: &str) -> Plan {
    Plan {
        meta: Meta {
            name: "p".to_string(),
            relay_ws: String::new(),
            asset_hub_ws: String::new(),
            era_hours: 6,
            soak_eras: 1,
            start_at: None,
            start_validators: None,
        },
        dispatch: Dispatch { mode: mode.to_string(), dry_run_first: true, require_healthy_finality: true },
        health: Health { max_finality_lag_blocks: 6 },
        steps: vec![step(1, 1, 100, 20, false), step(2, 2, 60, 10, false), step(3, 4, 60, 10, true)],
        exit_cohort: Vec::new(),
        packing: Packing { max_chains_per_core: 6, hard_max_chains_per_core: 10, default_weight: 5, weights: vec![] },
    }
}

fn packed(core: u32, a: &[(u32, u32)]) -> CorePacking {
    CorePacking { core, assignments: a.iter().map(|&(para_id, parts)| Assignment { para_id, parts }).collect() }
}

fn snapshot(session_index: u32, validators: u32, cores: u32, lag: u64, paras: &[u32], packing: Vec<CorePacking>) -> StateSnapshot {
    StateSnapshot {
        fetched_at: "2026-07-01T00:00:00+00:00".to_string(),
        relay: RelayState {
            chain: "Paseo Testnet".to_string(),
            spec_version: 2003001,
            best_block: 1000 + lag,
            finalized_block: 1000,
            finality_lag: lag,
            session_index,
            era_progress: EraProgress {
                current_era: session_index / 6,
                session_in_era: session_index % 6,
                blocks_into_era: 0,
                era_length_blocks: 3600,
                next_era_in_secs: 0,
            },
            validators,
            min_validator_set_size: 100,
            cores,
            ah_client_mode: "Active".to_string(),
            validator_groups: ValidatorGroups { count: 0, sizes: vec![] },
        },
        asset_hub: AssetHubState { chain: "AH".to_string(), best_block: 1, finalized_block: 1, validator_count: validators },
        paras: paras
            .iter()
            .map(|&id| ParaInfo { id, name: format!("Para {id}"), cores: 1, is_system: id < 2000 })
            .collect(),
        packing,
    }
}

const NOW: (i64, u32) = (1782864000, 0);

fn fresh() -> Persisted {
    Persisted::fresh("2026-07-01T00:00:00+00:00".to_string())
}

#[test]
fn first_tick_anchors_and_waits_for_the_era() {
    let p = plan("auto");
    let snap = snapshot(600, 152, 56, 0, &[], vec![]); // era 100
    let mut st = fresh();
    let d = tick(&p, &snap, &mut st, RunMode::Auto, true, true, NOW);
    assert_eq!(d.abs_era, 100);
    assert_eq!(st.start_era, Some(100));
    assert_eq!(st.current_step_id, Some(1));
    assert_eq!(d.action, TickAction::NotDue(0));
    assert!(!d.lag_exceeded && !d.online_low);
}

#[test]
fn due_healthy_step_is_dispatched() {
    let p = plan("auto");
    let snap = snapshot(606, 152, 56, 0, &[], vec![]); // era 101
    let mut st = fresh();
    st.start_era = Some(100);
    let d = tick(&p, &snap, &mut st, RunMode::Auto, true, true, NOW);
    assert_eq!(d.action, TickAction::Dispatch(0));
}

#[test]
fn health_gate_holds_a_due_step() {
    let p = plan("auto");
    let mut st = fresh();
    st.start_era = Some(100);
    let lagging = snapshot(606, 152, 56, 7, &[], vec![]);
    let d = tick(&p, &lagging, &mut st, RunMode::Auto, true, true, NOW);
    assert!(d.lag_exceeded);
    assert_eq!(d.action, TickAction::HealthHold(0));
    let at_max = snapshot(606, 152, 56, 6, &[], vec![]);
    let d = tick(&p, &at_max, &mut st, RunMode::Auto, true, false, NOW);
    assert!(!d.lag_exceeded && d.online_low);
    assert_eq!(d.action, TickAction::HealthHold(0));
}

#[test]
fn soak_delays_the_next_step() {
    let p = plan("auto");
    let snap = snapshot(612, 100, 20, 0, &[], vec![]); // era 102, step 1 met
    let mut st = fresh();
    st.start_era = Some(100);
    st.last_dispatch_era = Some(102);
    let d = tick(&p, &snap, &mut st, RunMode::Auto, true, true, NOW);
    assert_eq!(st.current_step_id, Some(2));
    assert_eq!(d.action, TickAction::Soaking(1));
    st.last_dispatch_era = Some(101);
    let d = tick(&p, &snap, &mut st, RunMode::Auto, true, true, NOW);
    assert_eq!(d.action, TickAction::Dispatch(1));
}

#[test]
fn idle_or_paused_only_checks_packing() {
    let p = plan("auto");
    let snap = snapshot(606, 152, 56, 0, &[], vec![]);
    let mut st = fresh();
    st.start_era = Some(100);
    assert_eq!(tick(&p, &snap, &mut st, RunMode::Auto, false, true, NOW).action, TickAction::CheckPacking);
    st.paused = true;
    assert_eq!(tick(&p, &snap, &mut st, RunMode::Auto, true, true, NOW).action, TickAction::CheckPacking);
    st.paused = false;
    let manual = plan("manual");
    assert_eq!(tick(&manual, &snap, &mut st, RunMode::Auto, true, true, NOW).action, TickAction::CheckPacking);
}

#[test]
fn dry_run_mode_simulates_regardless_of_timing() {
    let p = plan("auto");
    let snap = snapshot(0, 152, 56, 50, &[], vec![]);
    let mut st = fresh();
    assert_eq!(tick(&p, &snap, &mut st, RunMode::DryRunOnce, false, false, NOW).action, TickAction::Simulate(0));
}

#[test]
fn shutdown_is_announced_once_its_era_comes() {
    let p = plan("auto");
    let mut st = fresh();
    st.start_era = Some(100);
    let early = snapshot(618, 60, 10, 0, &[], vec![]); // era 103 < 104
    assert_eq!(tick(&p, &early, &mut st, RunMode::Auto, true, true, NOW).action, TickAction::CheckPacking);
    let due = snapshot(624, 60, 10, 0, &[], vec![]); // era 104
    assert_eq!(tick(&p, &due, &mut st, RunMode::Auto, true, true, NOW).action, TickAction::AnnounceShutdown(2));
    assert!(announce_shutdown(&mut st, 3, "t1".to_string()));
    assert!(!announce_shutdown(&mut st, 3, "t2".to_string()));
    assert_eq!(st.history.len(), 1);
    assert_eq!(st.history[0].status, "shutdown");
    assert_eq!(st.history[0].call, "network.shutdown");
    assert_eq!(st.history[0].chain, "relay");
    assert_eq!(st.history[0].args_summary, "terminal milestone — operators stop nodes (no on-chain dispatch)");
    assert_eq!(st.applied_at.get(&3).map(|s| s.as_str()), Some("t1"));
}

#[test]
fn tick_keeps_an_existing_anchor() {
    let p = plan("auto");
    let mut st = fresh();
    st.start_era = Some(90);
    let d = tick(&p, &snapshot(600, 152, 56, 0, &[], vec![]), &mut st, RunMode::Once, true, true, NOW);
    assert_eq!(st.start_era, Some(90));
    assert_eq!(d.action, TickAction::Dispatch(0));
}

#[test]
fn membership_ignores_shares_and_order() {
    let want = vec![packed(0, &[(1000, 57600)]), packed(1, &[(2000, 28800), (2001, 28800)])];
    let have = vec![packed(1, &[(2001, 100), (2000, 57500)]), packed(0, &[(1000, 57600)])];
    assert!(membership_matches(&want, &have));
    let moved = vec![packed(0, &[(1000, 57600)]), packed(1, &[(2000, 57600)]), packed(2, &[(2001, 57600)])];
    assert!(!membership_matches(&want, &moved));
    assert!(membership_matches(&vec![], &vec![]));
}

#[test]
fn packing_is_reasserted_on_drift_once_per_era() {
    let p = plan("auto");
    let drifted = snapshot(606, 100, 2, 0, &[1000, 2000], vec![packed(0, &[(2000, 57600)]), packed(1, &[(1000, 57600)])]);
    let mut st = fresh();
    let cores = reassert_plan(&p, &drifted, &st, true, true, 101).expect("drift");
    let got: Vec<(u32, Vec<(u32, u32)>)> =
        cores.iter().map(|c| (c.core, c.assignments.iter().map(|a| (a.para_id, a.parts)).collect())).collect();
    assert_eq!(got, vec![(0, vec![(1000, 57600)]), (1, vec![(2000, 57600)])]);
    record_reassert(&mut st, 101);
    assert_eq!(st.last_reassert_era, Some(101));
    assert!(reassert_plan(&p, &drifted, &st, true, true, 101).is_none());
    assert!(reassert_plan(&p, &drifted, &st, true, false, 102).is_none());
    let aligned = snapshot(606, 100, 2, 0, &[1000, 2000], vec![packed(0, &[(1000, 57600)]), packed(1, &[(2000, 57600)])]);
    assert!(reassert_plan(&p, &aligned, &st, true, true, 102).is_none());
}

#[test]
fn dry_run_gate_decides_submission() {
    assert_eq!(dispatch_gate(true, true, true), DispatchGate::SimulateOnly);
    assert_eq!(dispatch_gate(false, false, true), DispatchGate::Abort);
    assert_eq!(dispatch_gate(false, false, false), DispatchGate::Submit);
    assert_eq!(dispatch_gate(false, true, true), DispatchGate::Submit);
}

#[test]
fn a_dispatch_moves_the_soak_anchor() {
    let mut st = fresh();
    record_step_applied(&mut st, 613, 2, "2026-07-01T12:00:00+00:00".to_string());
    assert_eq!(st.last_dispatch_era, Some(102));
    let mut expect = BTreeMap::new();
    expect.insert(2u32, "2026-07-01T12:00:00+00:00".to_string());
    assert_eq!(st.applied_at, expect);
}

#[test]
fn history_entries_are_built_from_items_and_batches() {
    let item = DispatchItem {
        chain: ChainKind::AssetHub,
        call_path: "Staking.set_validator_count".to_string(),
        args_summary: "new=60".to_string(),
        call: LeverCall::SetValidatorCount(60),
    };
    let e: HistoryEntry = item_entry("t".to_string(), 2, &item, "dry_run_ok", None, None, None);
    assert_eq!((e.chain.as_str(), e.call.as_str(), e.status.as_str()), ("assetHub", "Staking.set_validator_count", "dry_run_ok"));
    let b = batch_entry("t".to_string(), 2, ChainKind::Relay, 5, "finalized", Some("0x1".to_string()), Some("0x2".to_string()), None);
    assert_eq!(b.call, "utility.batch_all");
    assert_eq!(b.args_summary, "5 calls (proxy→sudo→batch_all)");
    assert_eq!(b.chain, "relay");
    assert_eq!(b.tx_hash.as_deref(), Some("0x1"));
}

#[test]
fn lag_reason_text() {
    assert_eq!(lag_reason(12, 6), "finality lag 12 > max 6");
}

use paseo_downsizer::dispatch::{BuildError, Dispatcher, Lookups, ParsedStash, Resolved};
use paseo_downsizer::scheduler::prepare_step;

fn dispatcher() -> Dispatcher {
    let l = Lookups {
        proxy: None,
        sudo: None,
        set_parameter: None,
        request_core_count: None,
        batch_all: None,
        ah_proxy: None,
        ah_sudo: None,
        set_validator_count: None,
        ah_batch_all: None,
        timeslice_period: Some(80),
    };
    Dispatcher { sudo: [0u8; 32], resolved: Resolved::from_lookups(l), dry_run_first: true }
}

#[test]
fn prepare_step_packs_and_builds_the_calls() {
    let mut p = plan("auto");
    p.exit_cohort = vec![("step_2".to_string(), vec!["5Abc".to_string()])];
    let snap = snapshot(612, 100, 20, 0, &[1000, 2000, 2001], vec![]);
    let stashes = vec![Some(ParsedStash { account: [9u8; 32], display: "5Abc".to_string() })];
    let calls = match prepare_step(&p, &snap, &p.steps[1], 1_000, &dispatcher(), &stashes) {
        Ok(c) => c,
        Err(_) => panic!("prepare failed"),
    };
    assert_eq!(calls.begin, 13);
    assert!(calls.packing.dropped.is_empty());
    assert_eq!(calls.packing.cores.len(), 3);
    assert_eq!(calls.relay.len(), 5);
    assert_eq!(calls.relay[2].args_summary, "core=0 begin=13 [1000:57600]");
    assert_eq!(calls.relay[3].args_summary, "core=1 begin=13 [2000:57600]");
    assert_eq!(calls.relay[4].args_summary, "core=2 begin=13 [2001:57600]");
    assert_eq!(calls.ah.len(), 2);
    assert_eq!(calls.ah[1].args_summary, "stash=5Abc");
}

#[test]
fn prepare_step_refuses_an_undecoded_stash() {
    let mut p = plan("auto");
    p.exit_cohort = vec![("step_2".to_string(), vec!["5Abc".to_string(), "nope".to_string()])];
    let snap = snapshot(612, 100, 20, 0, &[1000], vec![]);
    let stashes = vec![Some(ParsedStash { account: [9u8; 32], display: "5Abc".to_string() }), None];
    match prepare_step(&p, &snap, &p.steps[1], 1_000, &dispatcher(), &stashes) {
        Err(BuildError::BadStash(s)) => assert_eq!(s, "nope"),
        _ => panic!("expected a bad stash"),
    }
}

#[test]
fn nothing_happens_before_go_live() {
    let mut p = plan("auto");
    p.meta.start_at = Some("2026-07-02T12:00:00+02:00".to_string()); // 1782986400
    let snap = snapshot(606, 152, 56, 0, &[], vec![]);
    let mut st = fresh();
    let d = tick(&p, &snap, &mut st, RunMode::Auto, true, true, (1782986399, 999_999_999));
    assert_eq!(d.action, TickAction::Holding);
    assert_eq!(st.start_era, None);
    assert_eq!(st.current_step_id, Some(1));
    // a simulation still runs
    let d = tick(&p, &snap, &mut st, RunMode::DryRunOnce, true, true, (0, 0));
    assert_eq!(d.action, TickAction::Simulate(0));
    // at go-live the schedule anchors to the current era
    let d = tick(&p, &snap, &mut st, RunMode::Auto, true, true, (1782986400, 0));
    assert_eq!(st.start_era, Some(101));
    assert_eq!(d.action, TickAction::NotDue(0));
}
