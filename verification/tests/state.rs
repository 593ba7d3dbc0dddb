use paseo_downsizer::state::{
    ah_client_mode_from, ah_validator_count_from, best_and_lag, claim_queue_from, dedup_u32,
    era_of_session, era_progress, find_min_set_size, min_set_size_from, num_cores_from, para_name,
    staking_pallet_candidates, validator_groups_from, validators_from, DEFAULT_MIN_SET_SIZE,
    ERA_BLOCKS, EPOCH_BLOCKS, SESSIONS_PER_ERA,
};
use paseo_downsizer::value::DynValue;

fn u(n: u128) -> DynValue {
    DynValue::Uint(n)
}
fn tuple(v: Vec<DynValue>) -> DynValue {
    DynValue::Unnamed(v)
}
fn named(v: Vec<(&str, DynValue)>) -> DynValue {
    DynValue::Named(v.into_iter().map(|(k, x)| (k.to_string(), x)).collect())
}
fn variant(name: &str, v: Vec<DynValue>) -> DynValue {
    DynValue::UnnamedVariant(name.to_string(), v)
}
fn para(id: u128) -> DynValue {
    tuple(vec![u(id)])
}

#[test]
fn era_constants() {
    assert_eq!(EPOCH_BLOCKS, 600);
    assert_eq!(SESSIONS_PER_ERA, 6);
    assert_eq!(ERA_BLOCKS, 3600);
    assert_eq!(DEFAULT_MIN_SET_SIZE, 100);
}

#[test]
fn era_of_session_divides_by_six() {
    assert_eq!(era_of_session(0), 0);
    assert_eq!(era_of_session(5), 0);
    assert_eq!(era_of_session(6), 1);
    assert_eq!(era_of_session(20699), 3449);
}

#[test]
fn era_progress_counts_blocks_into_era() {
    let p = era_progress(20699, Some(100), 350);
    assert_eq!(p.current_era, 3449);
    assert_eq!(p.session_in_era, 5);
    assert_eq!(p.blocks_into_era, 3250);
    assert_eq!(p.era_length_blocks, 3600);
    assert_eq!(p.next_era_in_secs, 2100);
    let q = era_progress(7, None, 0);
    assert_eq!((q.current_era, q.session_in_era, q.blocks_into_era, q.next_era_in_secs), (1, 1, 600, 18000));
    // a best block before the session start counts as the start
    let r = era_progress(5, Some(100), 50);
    assert_eq!((r.blocks_into_era, r.next_era_in_secs), (3000, 3600));
}

#[test]
fn best_never_falls_behind_finalized() {
    assert_eq!(best_and_lag(Some(110), 100, 105), (110, 5));
    assert_eq!(best_and_lag(None, 100, 105), (105, 0));
    assert_eq!(best_and_lag(None, 108, 105), (108, 3));
    assert_eq!(best_and_lag(Some(90), 100, 95), (95, 0));
}

#[test]
fn num_cores_reads_snake_or_camel_case() {
    let snake = named(vec![("scheduler_params", named(vec![("num_cores", u(56))]))]);
    assert_eq!(num_cores_from(&snake), Some(56));
    let camel = named(vec![("schedulerParams", named(vec![("numCores", tuple(vec![u(20)]))]))]);
    assert_eq!(num_cores_from(&camel), Some(20));
    let missing = named(vec![("scheduler_params", named(vec![("lookahead", u(3))]))]);
    assert_eq!(num_cores_from(&missing), None);
    let too_big = named(vec![("scheduler_params", named(vec![("num_cores", u(1u128 << 40))]))]);
    assert_eq!(num_cores_from(&too_big), None);
}

#[test]
fn min_set_size_is_found_in_the_parameters() {
    let plain = variant("AhClient", vec![variant("MinimumValidatorSetSize", vec![u(40)])]);
    assert_eq!(find_min_set_size(&plain), Some(40));
    let keyed = variant(
        "AhClient",
        vec![variant("MinimumValidatorSetSize", vec![tuple(vec![]), variant("Some", vec![u(40)])])],
    );
    assert_eq!(find_min_set_size(&keyed), Some(40));
    let other = || variant("Other", vec![variant("Something", vec![u(5)])]);
    assert_eq!(find_min_set_size(&other()), None);
    assert_eq!(min_set_size_from(&vec![None, Some(other()), Some(keyed)]), 40);
    assert_eq!(min_set_size_from(&vec![]), 100);
    assert_eq!(min_set_size_from(&vec![None, Some(other())]), 100);
}

#[test]
fn ah_client_mode_is_the_variant_name() {
    assert_eq!(ah_client_mode_from(Some(&variant("Active", vec![]))), "Active");
    assert_eq!(ah_client_mode_from(Some(&u(1))), "unknown");
    assert_eq!(ah_client_mode_from(None), "unknown");
}

#[test]
fn validator_counts_and_groups() {
    assert_eq!(validators_from(Some(&tuple(vec![DynValue::Other, DynValue::Other, DynValue::Other]))), 3);
    assert_eq!(validators_from(None), 0);
    let groups = tuple(vec![tuple(vec![u(1), u(2), u(3)]), tuple(vec![u(4), u(5)])]);
    let g = validator_groups_from(Some(&groups));
    assert_eq!((g.count, g.sizes.clone()), (2, vec![3, 2]));
    let none = validator_groups_from(None);
    assert_eq!((none.count, none.sizes.len()), (0, 0));
}

#[test]
fn ah_validator_count_takes_the_first_readable() {
    let c = vec![None, Some(DynValue::Other), Some(u(152)), Some(u(3))];
    assert_eq!(ah_validator_count_from(&c), 152);
    assert_eq!(ah_validator_count_from(&vec![]), 0);
    assert_eq!(staking_pallet_candidates(), vec!["Staking", "StakingAsync", "StakingAhClient"]);
}

#[test]
fn para_names() {
    assert_eq!(para_name(1000), "Asset Hub");
    assert_eq!(para_name(1001), "Collectives");
    assert_eq!(para_name(1002), "Bridge Hub");
    assert_eq!(para_name(1003), "Para 1003");
    assert_eq!(para_name(1004), "People");
    assert_eq!(para_name(1005), "Coretime");
    assert_eq!(para_name(2000), "Para 2000");
}

#[test]
fn dedup_keeps_first_occurrences() {
    assert_eq!(dedup_u32(&vec![3, 1, 3, 2, 1]), vec![3, 1, 2]);
    assert!(dedup_u32(&vec![]).is_empty());
}

#[test]
fn claim_queue_gives_paras_and_current_packing() {
    // The map arrives wrapped in one composite layer; entries are unsorted.
    let map = tuple(vec![
        tuple(vec![tuple(vec![u(1)]), tuple(vec![para(2000), para(2000)])]),
        tuple(vec![u(0), tuple(vec![para(1000), para(2001)])]),
        tuple(vec![u(2), tuple(vec![para(1000)])]),
        tuple(vec![u(3), tuple(vec![])]),
    ]);
    let cq = tuple(vec![map]);
    let (paras, packing) = claim_queue_from(&cq);
    let ps: Vec<(u32, String, u32, bool)> =
        paras.iter().map(|p| (p.id, p.name.clone(), p.cores, p.is_system)).collect();
    assert_eq!(
        ps,
        vec![
            (1000, "Asset Hub".to_string(), 2, true),
            (2000, "Para 2000".to_string(), 1, false),
            (2001, "Para 2001".to_string(), 1, false),
        ]
    );
    let pk: Vec<(u32, Vec<(u32, u32)>)> = packing
        .iter()
        .map(|c| (c.core, c.assignments.iter().map(|a| (a.para_id, a.parts)).collect()))
        .collect();
    assert_eq!(
        pk,
        vec![
            (0, vec![(1000, 28800), (2001, 28800)]),
            (1, vec![(2000, 57600)]),
            (2, vec![(1000, 57600)]),
        ]
    );
}

#[test]
fn claim_queue_of_nothing_is_empty() {
    let (paras, packing) = claim_queue_from(&tuple(vec![]));
    assert!(paras.is_empty() && packing.is_empty());
}

use paseo_downsizer::state::{build_state, ChainReads};

fn reads() -> ChainReads {
    ChainReads {
        fetched_at: "2026-07-01T00:00:00+00:00".to_string(),
        relay_best: 1000,
        relay_head: Some(1005),
        relay_finalized: 1002,
        spec_version: 2003001,
        relay_chain: None,
        session_index: Some(u(20699)),
        session_validators: Some(tuple(vec![DynValue::Other, DynValue::Other])),
        active_config: Some(named(vec![("scheduler_params", named(vec![("num_cores", u(56))]))])),
        parameters: vec![None, Some(variant("AhClient", vec![variant("MinimumValidatorSetSize", vec![u(40)])]))],
        ah_client_mode: Some(variant("Active", vec![])),
        validator_groups: Some(tuple(vec![tuple(vec![u(1), u(2)])])),
        claim_queue: Some(tuple(vec![tuple(vec![tuple(vec![u(0), tuple(vec![para(1000)])])])])),
        session_start: Some(u(1000)),
        ah_finalized: 500,
        ah_head: None,
        ah_chain: Some("Paseo Asset Hub".to_string()),
        ah_validator_counts: vec![None, Some(u(152))],
    }
}

#[test]
fn build_state_assembles_the_snapshot() {
    let s = build_state(&reads());
    assert_eq!(s.fetched_at, "2026-07-01T00:00:00+00:00");
    assert_eq!(s.relay.chain, "Paseo Testnet");
    assert_eq!((s.relay.best_block, s.relay.finalized_block, s.relay.finality_lag), (1005, 1002, 3));
    assert_eq!(s.relay.session_index, 20699);
    assert_eq!((s.relay.era_progress.current_era, s.relay.era_progress.blocks_into_era), (3449, 3005));
    assert_eq!(s.relay.era_progress.next_era_in_secs, 595 * 6);
    assert_eq!((s.relay.validators, s.relay.cores, s.relay.min_validator_set_size), (2, 56, 40));
    assert_eq!(s.relay.ah_client_mode, "Active");
    assert_eq!(s.relay.validator_groups.sizes, vec![2]);
    assert_eq!(s.paras.len(), 1);
    assert_eq!((s.paras[0].id, s.paras[0].name.as_str()), (1000, "Asset Hub"));
    assert_eq!(s.packing.len(), 1);
    assert_eq!(s.asset_hub.chain, "Paseo Asset Hub");
    assert_eq!((s.asset_hub.best_block, s.asset_hub.finalized_block, s.asset_hub.validator_count), (500, 500, 152));
}

#[test]
fn build_state_with_failed_reads_uses_defaults() {
    let mut r = reads();
    r.relay_head = None;
    r.session_index = None;
    r.session_validators = None;
    r.active_config = None;
    r.parameters = vec![];
    r.ah_client_mode = None;
    r.validator_groups = None;
    r.claim_queue = None;
    r.session_start = None;
    r.ah_chain = None;
    r.ah_head = Some(510);
    r.ah_validator_counts = vec![];
    let s = build_state(&r);
    assert_eq!((s.relay.best_block, s.relay.finality_lag), (1002, 0));
    assert_eq!((s.relay.session_index, s.relay.validators, s.relay.cores), (0, 0, 0));
    assert_eq!(s.relay.min_validator_set_size, 100);
    assert_eq!(s.relay.ah_client_mode, "unknown");
    assert_eq!((s.relay.era_progress.blocks_into_era, s.relay.era_progress.next_era_in_secs), (0, 21600));
    assert!(s.paras.is_empty() && s.packing.is_empty());
    assert_eq!(s.asset_hub.chain, "Asset Hub");
    assert_eq!((s.asset_hub.best_block, s.asset_hub.validator_count), (510, 0));
}
