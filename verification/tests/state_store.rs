use paseo_downsizer::model::HistoryEntry;
use paseo_downsizer::state_store::{Persisted, HISTORY_MAX};

fn entry(step_id: u32) -> HistoryEntry {
    HistoryEntry {
        at: "t".to_string(),
        step_id,
        chain: "relay".to_string(),
        call: "x".to_string(),
        args_summary: String::new(),
        tx_hash: None,
        status: "dry_run_ok".to_string(),
        block_hash: None,
        error: None,
    }
}

#[test]
fn fresh_progress_is_empty() {
    let p = Persisted::fresh("2026-07-01T00:00:00+00:00".to_string());
    assert_eq!(p.started_at, "2026-07-01T00:00:00+00:00");
    assert!(p.start_era.is_none() && p.last_dispatch_era.is_none() && p.last_reassert_era.is_none());
    assert!(p.current_step_id.is_none() && !p.paused);
    assert!(p.applied_at.is_empty() && p.history.is_empty());
}

#[test]
fn history_is_bounded_to_the_newest() {
    assert_eq!(HISTORY_MAX, 2000);
    let mut p = Persisted::fresh(String::new());
    for i in 0..2005u32 {
        p.push_history(entry(i));
    }
    assert_eq!(p.history.len(), 2000);
    assert_eq!(p.history[0].step_id, 5);
    assert_eq!(p.history[1999].step_id, 2004);
}

#[test]
fn history_below_the_bound_keeps_everything() {
    let mut p = Persisted::fresh(String::new());
    p.push_history(entry(1));
    p.push_history(entry(2));
    let ids: Vec<u32> = p.history.iter().map(|e| e.step_id).collect();
    assert_eq!(ids, vec![1, 2]);
}
