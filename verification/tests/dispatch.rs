use paseo_downsizer::config::{Dispatch, Health, Meta, Packing, Plan, Step};
use paseo_downsizer::dispatch::{
    core_parts_sum, next_timeslice, BuildError, ChainKind, DispatchItem, Dispatcher, LeverCall,
    Lookups, ParsedStash, Resolved,
};
use paseo_downsizer::model::{Assignment, CorePacking};

fn lookups() -> Lookups {
    Lookups {
        proxy: None,
        sudo: None,
        set_parameter: None,
        request_core_count: None,
        batch_all: None,
        ah_proxy: None,
        ah_sudo: None,
        set_validator_count: Some("StakingAsync".to_string()),
        ah_batch_all: None,
        timeslice_period: Some(80),
    }
}

fn dispatcher() -> Dispatcher {
    Dispatcher { sudo: [7u8; 32], resolved: Resolved::from_lookups(lookups()), dry_run_first: true }
}

fn the_plan() -> Plan {
    Plan {
        meta: Meta {
            name: "p".to_string(),
            relay_ws: String::new(),
            asset_hub_ws: String::new(),
            era_hours: 6,
            soak_eras: 1,
            start_at: None,
            start_validators: None,
        },
        dispatch: Dispatch { mode: "auto".to_string(), dry_run_first: true, require_healthy_finality: true },
        health: Health { max_finality_lag_blocks: 6 },
        steps: vec![Step {
            id: 2,
            era_offset: 2,
            validators: 60,
            cores: 8,
            min_validator_set_size: 40,
            note: String::new(),
            shutdown: false,
        }],
        exit_cohort: vec![("step_2".to_string(), vec!["5Abc".to_string(), "bogus".to_string()])],
        packing: Packing { max_chains_per_core: 6, hard_max_chains_per_core: 10, default_weight: 5, weights: vec![] },
    }
}

fn packed(core: u32, a: &[(u32, u32)]) -> CorePacking {
    CorePacking {
        core,
        assignments: a.iter().map(|&(para_id, parts)| Assignment { para_id, parts }).collect(),
    }
}

#[test]
fn api_names() {
    assert_eq!(ChainKind::Relay.api_name(), "relay");
    assert_eq!(ChainKind::AssetHub.api_name(), "assetHub");
}

#[test]
fn next_timeslice_rounds_up_past_now() {
    assert_eq!(next_timeslice(1_000, 80), 13);
    assert_eq!(next_timeslice(1_040, 80), 14);
    assert_eq!(next_timeslice(79, 80), 1);
    assert_eq!(next_timeslice(0, 80), 1);
    // a zero period counts as one block
    assert_eq!(next_timeslice(41, 0), 42);
}

#[test]
fn resolution_falls_back_to_conventional_names() {
    let r = Resolved::from_lookups(lookups());
    assert_eq!(r.proxy_pallet, "Proxy");
    assert_eq!(r.sudo_pallet, "Sudo");
    assert_eq!(r.parameters_pallet, "Parameters");
    assert_eq!(r.coretime_pallet, "Coretime");
    assert_eq!(r.utility_pallet, "Utility");
    assert_eq!(r.staking_pallet, "StakingAsync");
    assert_eq!(r.set_validator_count_call, "set_validator_count");
    assert_eq!(r.force_unstake_call, "force_unstake");
    assert_eq!(r.timeslice_period, 80);
    let mut l = lookups();
    l.timeslice_period = Some(u128::from(u32::MAX) + 1);
    assert_eq!(Resolved::from_lookups(l).timeslice_period, 80);
    let mut l = lookups();
    l.timeslice_period = None;
    l.request_core_count = Some("Broker".to_string());
    let r = Resolved::from_lookups(l);
    assert_eq!(r.timeslice_period, 80);
    assert_eq!(r.coretime_pallet, "Broker");
    assert_eq!(r.utility_pallet_for(ChainKind::AssetHub), "Utility");
    assert_eq!(r.proxy_pallet_for(ChainKind::Relay), "Proxy");
}

#[test]
fn build_step_items_orders_levers() {
    let d = dispatcher();
    let plan = the_plan();
    let packing = vec![packed(0, &[(1000, 57600)]), packed(1, &[(2000, 28800), (2001, 28800)])];
    let stashes = vec![
        Some(ParsedStash { account: [1u8; 32], display: "5Abc".to_string() }),
        Some(ParsedStash { account: [2u8; 32], display: "5Xyz".to_string() }),
    ];
    let (relay, ah) = match d.build_step_items(&plan, &plan.steps[0], &packing, 13, &stashes) {
        Ok(v) => v,
        Err(_) => panic!("build failed"),
    };
    assert_eq!(relay.len(), 4);
    assert!(matches!(relay[0].call, LeverCall::SetMinSetSize(40)));
    assert_eq!(relay[0].call_path, "Parameters.set_parameter");
    assert_eq!(relay[0].args_summary, "AhClient::MinimumValidatorSetSize(40)");
    assert!(matches!(relay[1].call, LeverCall::RequestCoreCount(8)));
    assert_eq!(relay[1].call_path, "Coretime.request_core_count");
    assert_eq!(relay[1].args_summary, "count=8");
    assert_eq!(relay[3].call_path, "Coretime.assign_core");
    assert_eq!(relay[3].args_summary, "core=1 begin=13 [2000:28800,2001:28800]");
    match &relay[3].call {
        LeverCall::AssignCore { core, begin, assignments } => {
            assert_eq!((*core, *begin, assignments.len()), (1, 13, 2));
        }
        _ => panic!("expected assign_core"),
    }
    assert!(relay.iter().all(|i| i.chain == ChainKind::Relay));
    assert_eq!(ah.len(), 3);
    assert!(matches!(ah[0].call, LeverCall::SetValidatorCount(60)));
    assert_eq!(ah[0].call_path, "StakingAsync.set_validator_count");
    assert_eq!(ah[0].args_summary, "new=60");
    assert!(matches!(ah[2].call, LeverCall::ForceUnstake(a) if a == [2u8; 32]));
    assert_eq!(ah[1].call_path, "StakingAsync.force_unstake");
    assert_eq!(ah[1].args_summary, "stash=5Abc");
    assert!(ah.iter().all(|i| i.chain == ChainKind::AssetHub));
}

#[test]
fn build_step_items_rejects_a_bad_core_sum() {
    let d = dispatcher();
    let plan = the_plan();
    let packing = vec![packed(0, &[(1000, 57600)]), packed(3, &[(2000, 28800), (2001, 28799)])];
    let stashes = vec![None, None];
    match d.build_step_items(&plan, &plan.steps[0], &packing, 13, &stashes) {
        Err(BuildError::PackingInvariant { core, sum }) => assert_eq!((core, sum), (3, 57599)),
        _ => panic!("expected the packing invariant error"),
    }
}

#[test]
fn build_step_items_reports_the_first_bad_stash() {
    let d = dispatcher();
    let plan = the_plan();
    let packing = vec![packed(0, &[(1000, 57600)])];
    let stashes = vec![Some(ParsedStash { account: [1u8; 32], display: "5Abc".to_string() }), None];
    match d.build_step_items(&plan, &plan.steps[0], &packing, 13, &stashes) {
        Err(BuildError::BadStash(s)) => assert_eq!(s, "bogus"),
        _ => panic!("expected the bad stash error"),
    }
}

#[test]
fn batch_counts_items_and_skips_empty() {
    let d = dispatcher();
    let item = d.assign_core_reassert(5, &packed(2, &[(1000, 57600)]));
    assert_eq!(item.args_summary, "core=2 begin=5 [1000:57600]");
    let items: Vec<&DispatchItem> = vec![&item, &item];
    let b = d.batch(ChainKind::Relay, &items).unwrap();
    assert_eq!((b.chain, b.count), (ChainKind::Relay, 2));
    assert!(d.batch(ChainKind::AssetHub, &Vec::new()).is_none());
    assert!(d.requires_dry_run());
}

#[test]
fn core_parts_sum_adds_all_parts() {
    assert_eq!(core_parts_sum(&packed(0, &[(1, 100), (2, 200), (3, 57300)])), 57600);
    assert_eq!(core_parts_sum(&packed(0, &[])), 0);
}
