use paseo_downsizer::config::{
    default_max_lag, default_mode, default_soak, default_true, Dispatch, Health, Meta, Packing, Plan,
    Step,
};

fn step(id: u32, validators: u32, shutdown: bool) -> Step {
    Step {
        id,
        era_offset: id,
        validators,
        cores: 10,
        min_validator_set_size: 40,
        note: String::new(),
        shutdown,
    }
}

fn plan(start_validators: Option<u32>, start_at: Option<&str>) -> Plan {
    Plan {
        meta: Meta {
            name: "downsize".to_string(),
            relay_ws: "wss://relay".to_string(),
            asset_hub_ws: "wss://ah".to_string(),
            era_hours: 6,
            soak_eras: 1,
            start_at: start_at.map(|s| s.to_string()),
            start_validators,
        },
        dispatch: Dispatch { mode: "auto".to_string(), dry_run_first: true, require_healthy_finality: true },
        health: Health { max_finality_lag_blocks: 10 },
        steps: vec![step(1, 100, false), step(2, 60, false), step(3, 20, false), step(4, 20, true)],
        exit_cohort: vec![
            ("step_2".to_string(), vec!["5Abc".to_string(), "5Def".to_string()]),
            ("step_1".to_string(), vec!["5Ghi".to_string()]),
        ],
        packing: Packing {
            max_chains_per_core: 6,
            hard_max_chains_per_core: 10,
            default_weight: 5,
            weights: vec![("1000".to_string(), 100), ("1002".to_string(), 20)],
        },
    }
}

#[test]
fn cohort_key_names_the_step() {
    assert_eq!(step(7, 1, false).cohort_key(), "step_7");
    assert_eq!(step(0, 1, false).cohort_key(), "step_0");
    assert_eq!(step(123, 1, false).cohort_key(), "step_123");
}

#[test]
fn weight_for_falls_back_to_default() {
    let p = plan(None, None);
    assert_eq!(p.packing.weight_for(1000), 100);
    assert_eq!(p.packing.weight_for(1002), 20);
    assert_eq!(p.packing.weight_for(2000), 5);
    assert_eq!(p.packing.weight_for(100), 5);
}

#[test]
fn preview_cycles_chain_from_start_validators() {
    let p = plan(Some(152), None);
    assert_eq!(p.preview_cycles(), vec![(1, 152, 100), (2, 100, 60), (3, 60, 20)]);
}

#[test]
fn preview_cycles_without_start_use_first_target() {
    let p = plan(None, None);
    assert_eq!(p.preview_cycles(), vec![(1, 100, 100), (2, 100, 60), (3, 60, 20)]);
}

#[test]
fn exit_cohort_for_finds_the_step_key() {
    let p = plan(None, None);
    assert_eq!(p.exit_cohort_for(&p.steps[1]), vec!["5Abc".to_string(), "5Def".to_string()]);
    assert_eq!(p.exit_cohort_for(&p.steps[0]), vec!["5Ghi".to_string()]);
    assert!(p.exit_cohort_for(&p.steps[2]).is_empty());
}

#[test]
fn enabled_steps_keep_order_and_shutdown() {
    let p = plan(None, None);
    let ids: Vec<u32> = p.enabled_steps().iter().map(|s| s.id).collect();
    assert_eq!(ids, vec![1, 2, 3, 4]);
    assert!(p.enabled_steps()[3].shutdown);
}

#[test]
fn start_at_parses_rfc3339_to_utc() {
    let p = plan(None, Some("2026-07-02T12:00:00+02:00"));
    assert_eq!(p.meta.start_at_dt(), Some((1782986400, 0)));
    let z = plan(None, Some("2026-07-01T00:00:00.5Z"));
    assert_eq!(z.meta.start_at_dt(), Some((1782864000, 500_000_000)));
}

#[test]
fn start_at_absent_or_invalid_is_none() {
    assert_eq!(plan(None, None).meta.start_at_dt(), None);
    assert_eq!(plan(None, Some("tomorrow at noon")).meta.start_at_dt(), None);
}

#[test]
fn defaults_match_the_plan_format() {
    assert_eq!(default_soak(), 1);
    assert_eq!(default_mode(), "auto");
    assert!(default_true());
    assert_eq!(default_max_lag(), 6);
}

#[test]
fn dispatch_mode_auto_only_for_auto() {
    let mut d = Dispatch { mode: "auto".to_string(), dry_run_first: true, require_healthy_finality: true };
    assert!(d.is_auto());
    d.mode = "manual".to_string();
    assert!(!d.is_auto());
    d.mode = "Auto".to_string();
    assert!(!d.is_auto());
}
