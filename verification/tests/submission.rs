use paseo_downsizer::config::{Dispatch, Health, Meta, Packing, Plan, Step};
use paseo_downsizer::dispatch::{
    pallet_with_call, ChainKind, DispatchItem, Dispatcher, InnerCall, LeverCall, Lookups,
    PalletCalls, Resolved,
};
use paseo_downsizer::model::{
    AssetHubState, Assignment, CorePacking, EraProgress, ParaInfo, RelayState, StateSnapshot,
    ValidatorGroups,
};
use paseo_downsizer::packing::compute_packing;
use paseo_downsizer::scheduler::{announce_shutdown, reassert_calls, reassert_gate, record_submit};
use paseo_downsizer::shared::Shared;
use paseo_downsizer::state_store::Persisted;

fn plan(steps: Vec<Step>) -> Plan {
    Plan {
        meta: Meta {
            name: "p".to_string(),
            relay_ws: String::new(),
            asset_hub_ws: String::new(),
            era_hours: 6,
            soak_eras: 1,
            start_at: None,
            start_validators: None,
        },
        dispatch: Dispatch { mode: "auto".to_string(), dry_run_first: true, require_healthy_finality: true },
        health: Health { max_finality_lag_blocks: 6 },
        steps,
        exit_cohort: vec![],
        packing: Packing { max_chains_per_core: 1, hard_max_chains_per_core: 1, default_weight: 5, weights: vec![] },
    }
}

fn dispatcher() -> Dispatcher {
    let l = Lookups {
        proxy: None,
        sudo: Some("Sudo".to_string()),
        set_parameter: None,
        request_core_count: None,
        batch_all: None,
        ah_proxy: None,
        ah_sudo: None,
        set_validator_count: None,
        ah_batch_all: Some("AhUtility".to_string()),
        timeslice_period: Some(80),
    };
    Dispatcher { sudo: [3u8; 32], resolved: Resolved::from_lookups(l), dry_run_first: true }
}

fn shared() -> Shared {
    Shared::new(plan(vec![]), Persisted::fresh("t".to_string()), None, "s.json".to_string(), true)
}

#[test]
fn a_failed_batch_stops_the_step_and_records_no_progress() {
    let mut s = shared();
    assert!(record_submit(&mut s, 2, ChainKind::Relay, 4, Ok(("0xa".to_string(), "0xb".to_string())), false, 612, "t1".to_string()));
    assert!(s.inner.persisted.last_dispatch_era.is_none() && s.inner.persisted.applied_at.is_empty());
    assert!(!record_submit(&mut s, 2, ChainKind::AssetHub, 2, Err("boom".to_string()), true, 612, "t2".to_string()));
    assert_eq!(s.inner.last_error.as_deref(), Some("submit batch on assetHub failed: boom"));
    assert!(s.inner.persisted.applied_at.is_empty());
    let h = &s.inner.persisted.history;
    assert_eq!(h.len(), 2);
    assert_eq!((h[0].status.as_str(), h[0].tx_hash.as_deref(), h[0].call.as_str()), ("finalized", Some("0xa"), "utility.batch_all"));
    assert_eq!((h[1].status.as_str(), h[1].error.as_deref(), h[1].chain.as_str()), ("error", Some("boom"), "assetHub"));
    assert_eq!(h[1].args_summary, "2 calls (proxy→sudo→batch_all)");
}

#[test]
fn the_last_batch_records_the_progress() {
    let mut s = shared();
    assert!(record_submit(&mut s, 3, ChainKind::AssetHub, 2, Ok(("0xa".to_string(), "0xb".to_string())), true, 612, "t".to_string()));
    assert_eq!(s.inner.persisted.last_dispatch_era, Some(102));
    assert_eq!(s.inner.persisted.applied_at.get(&3).map(|x| x.as_str()), Some("t"));
    assert!(s.inner.last_error.is_none());
}

#[test]
fn shutdown_entry_is_a_relay_record_without_transaction() {
    let mut p = Persisted::fresh("t".to_string());
    assert!(announce_shutdown(&mut p, 5, "now".to_string()));
    for _ in 0..3 {
        assert!(!announce_shutdown(&mut p, 5, "later".to_string()));
    }
    assert_eq!(p.history.len(), 1);
    let e = &p.history[0];
    assert_eq!((e.chain.as_str(), e.at.as_str(), e.step_id), ("relay", "now", 5));
    assert!(e.tx_hash.is_none() && e.block_hash.is_none() && e.error.is_none());
}

fn packed(c: u32, a: &[(u32, u32)]) -> CorePacking {
    CorePacking { core: c, assignments: a.iter().map(|&(para_id, parts)| Assignment { para_id, parts }).collect() }
}

#[test]
fn reassertion_calls_and_gate() {
    let d = dispatcher();
    let (begin, items) = reassert_calls(&d, &vec![packed(0, &[(1000, 57600)]), packed(1, &[(2000, 57600)])], 1_000);
    assert_eq!(begin, 13);
    assert_eq!(items.len(), 2);
    assert_eq!(items[1].args_summary, "core=1 begin=13 [2000:57600]");
    assert_eq!(items[1].call_path, "Coretime.assign_core");
    assert!(reassert_gate(false, false));
    assert!(reassert_gate(true, true));
    assert!(!reassert_gate(true, false));
}

#[test]
fn batches_carry_the_proxy_sudo_batch_all_tree() {
    let d = dispatcher();
    let a = DispatchItem {
        chain: ChainKind::AssetHub,
        call_path: String::new(),
        args_summary: String::new(),
        call: LeverCall::SetValidatorCount(60),
    };
    let b = DispatchItem {
        chain: ChainKind::AssetHub,
        call_path: String::new(),
        args_summary: String::new(),
        call: LeverCall::ForceUnstake([9u8; 32]),
    };
    let plan = d.batch(ChainKind::AssetHub, &vec![&a, &b]).unwrap();
    assert_eq!((plan.call.proxy_pallet.as_str(), plan.call.sudo_pallet.as_str(), plan.call.real), ("Proxy", "Sudo", [3u8; 32]));
    match &plan.call.inner {
        InnerCall::BatchAll { utility_pallet, calls } => {
            assert_eq!(utility_pallet, "AhUtility");
            assert!(matches!(calls[0], LeverCall::SetValidatorCount(60)));
            assert!(matches!(calls[1], LeverCall::ForceUnstake(x) if x == [9u8; 32]));
        }
        _ => panic!("expected a batch"),
    }
    let one = d.proxied(&a);
    assert!(matches!(one.inner, InnerCall::Lever(LeverCall::SetValidatorCount(60))));
}

#[test]
fn first_pallet_with_a_call() {
    let ps = vec![
        PalletCalls { name: "System".to_string(), calls: vec!["remark".to_string()] },
        PalletCalls { name: "Utility".to_string(), calls: vec!["batch".to_string(), "batch_all".to_string()] },
        PalletCalls { name: "Other".to_string(), calls: vec!["batch_all".to_string()] },
    ];
    assert_eq!(pallet_with_call(&ps, "batch_all").as_deref(), Some("Utility"));
    assert_eq!(pallet_with_call(&ps, "remark").as_deref(), Some("System"));
    assert!(pallet_with_call(&ps, "sudo").is_none());
}

#[test]
fn packing_ignores_the_order_of_ids() {
    let cfg = Packing { max_chains_per_core: 2, hard_max_chains_per_core: 2, default_weight: 5, weights: vec![("2001".to_string(), 9)] };
    let a = compute_packing(&[1000, 2000, 2001, 2002, 2003], 3, &cfg);
    let b = compute_packing(&[2003, 2001, 1000, 2002, 2000], 3, &cfg);
    let shape = |r: &paseo_downsizer::packing::PackingResult| -> Vec<(u32, Vec<(u32, u32)>)> {
        r.cores.iter().map(|c| (c.core, c.assignments.iter().map(|x| (x.para_id, x.parts)).collect())).collect()
    };
    assert_eq!(shape(&a), shape(&b));
    assert_eq!(a.dropped, b.dropped);
}

#[test]
fn plan_view_lists_the_dropped_paras() {
    let step = Step { id: 1, era_offset: 1, validators: 100, cores: 2, min_validator_set_size: 40, note: String::new(), shutdown: false };
    let mut s = Shared::new(plan(vec![step]), Persisted::fresh("t".to_string()), None, "s.json".to_string(), true);
    s.inner.snapshot = Some(StateSnapshot {
        fetched_at: String::new(),
        relay: RelayState {
            chain: String::new(),
            spec_version: 1,
            best_block: 0,
            finalized_block: 0,
            finality_lag: 0,
            session_index: 0,
            era_progress: EraProgress { current_era: 0, session_in_era: 0, blocks_into_era: 0, era_length_blocks: 3600, next_era_in_secs: 0 },
            validators: 152,
            min_validator_set_size: 100,
            cores: 56,
            ah_client_mode: String::new(),
            validator_groups: ValidatorGroups { count: 0, sizes: vec![] },
        },
        asset_hub: AssetHubState { chain: String::new(), best_block: 0, finalized_block: 0, validator_count: 0 },
        paras: [1000, 2002, 2001].iter().map(|&id| ParaInfo { id, name: String::new(), cores: 1, is_system: false }).collect(),
        packing: vec![],
    });
    let v = s.plan_view((0, 0));
    // Asset Hub on core 0, one slot on core 1: the higher id falls back to on-demand.
    assert_eq!(v.steps[0].dropped, vec![2002]);
    assert_eq!(v.steps[0].computed_packing.len(), 2);
}
