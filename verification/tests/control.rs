use paseo_downsizer::control::{authorized, control_action, ControlAction};
use paseo_downsizer::matrix::enc;

#[test]
fn control_actions() {
    assert_eq!(control_action("pause"), ControlAction::Pause);
    assert_eq!(control_action("resume"), ControlAction::Resume);
    assert_eq!(control_action("Pause"), ControlAction::Unknown);
    assert_eq!(control_action(""), ControlAction::Unknown);
}

#[test]
fn bearer_token_checks() {
    assert!(authorized(None, None));
    assert!(authorized(Some("anything"), None));
    assert!(!authorized(None, Some("s3cret")));
    assert!(authorized(Some("Bearer s3cret"), Some("s3cret")));
    assert!(authorized(Some("Bearer  s3cret \t"), Some("s3cret")));
    assert!(authorized(Some("s3cret"), Some("s3cret")));
    assert!(authorized(Some("Bearer Bearer s3cret"), Some("s3cret")));
    assert!(!authorized(Some("Bearer wrong"), Some("s3cret")));
    assert!(!authorized(Some("bearer s3cret"), Some("s3cret")));
}

#[test]
fn room_ids_are_percent_encoded() {
    assert_eq!(enc("!abc:matrix.org"), "%21abc%3Amatrix.org");
    assert_eq!(enc("#paseo-announcements:parity.io"), "%23paseo-announcements%3Aparity.io");
    assert_eq!(enc("a~b_c.d-e"), "a~b_c.d-e");
    assert_eq!(enc("é"), "%C3%A9");
    assert_eq!(enc(""), "");
}


use paseo_downsizer::config::{Dispatch, Health, Meta, Packing, Plan};
use paseo_downsizer::control::{apply_control, ControlReply};
use paseo_downsizer::shared::Shared;
use paseo_downsizer::state_store::Persisted;

fn shared(token: Option<&str>) -> Shared {
    let plan = Plan {
        meta: Meta {
            name: "p".to_string(),
            relay_ws: String::new(),
            asset_hub_ws: String::new(),
            era_hours: 6,
            soak_eras: 1,
            start_at: None,
            start_validators: None,
        },
        dispatch: Dispatch { mode: "auto".to_string(), dry_run_first: true, require_healthy_finality: true },
        health: Health { max_finality_lag_blocks: 6 },
        steps: vec![],
        exit_cohort: vec![],
        packing: Packing { max_chains_per_core: 6, hard_max_chains_per_core: 10, default_weight: 5, weights: vec![] },
    };
    Shared::new(plan, Persisted::fresh("t".to_string()), token.map(|t| t.to_string()), "state.json".to_string(), true)
}

#[test]
fn control_requests_pause_and_resume() {
    let mut s = shared(Some("s3cret"));
    assert_eq!(apply_control(&mut s, Some("Bearer s3cret"), "pause"), ControlReply::Paused);
    assert!(s.inner.persisted.paused);
    assert_eq!(apply_control(&mut s, Some("Bearer s3cret"), "resume"), ControlReply::Resumed);
    assert!(!s.inner.persisted.paused);
}

#[test]
fn unauthorized_or_unknown_requests_change_nothing() {
    let mut s = shared(Some("s3cret"));
    assert_eq!(apply_control(&mut s, Some("Bearer nope"), "pause"), ControlReply::Unauthorized);
    assert_eq!(apply_control(&mut s, None, "pause"), ControlReply::Unauthorized);
    assert!(!s.inner.persisted.paused);
    assert_eq!(apply_control(&mut s, Some("Bearer s3cret"), "stop"), ControlReply::UnknownAction);
    assert!(!s.inner.persisted.paused);
    let mut open = shared(None);
    assert_eq!(apply_control(&mut open, None, "pause"), ControlReply::Paused);
    assert!(open.inner.persisted.paused);
}
