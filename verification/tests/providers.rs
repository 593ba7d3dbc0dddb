use paseo_downsizer::providers::{Meta, Provider, Providers, Val};

fn val(name: &str, stash: &str, cycle: &str) -> Val {
    Val { name: name.to_string(), stash: stash.to_string(), cycle: cycle.to_string() }
}

fn providers() -> Providers {
    Providers {
        meta: Meta {
            cycle_1: Some("Jul 2 12:00 UTC".to_string()),
            cycle_2: Some("Jul 2 18:00 UTC".to_string()),
            cycle_3: None,
            cycle_4: None,
        },
        providers: vec![
            Provider {
                name: "acme".to_string(),
                display: "ACME".to_string(),
                matrix: "@acme:matrix.org".to_string(),
                ibp: String::new(),
                validators: vec![val("acme-01", "5Aaa", "2"), val("acme-02", "5Bbb", "floor"), val("acme-03", "5Ccc", "2")],
            },
            Provider {
                name: "quiet".to_string(),
                display: "Quiet".to_string(),
                matrix: String::new(),
                ibp: String::new(),
                validators: vec![val("q-01", "5Ddd", "2")],
            },
        ],
    }
}

#[test]
fn cycle_dates() {
    let p = providers();
    assert_eq!(p.cycle_dt(1), "Jul 2 12:00 UTC");
    assert_eq!(p.cycle_dt(3), "");
    assert_eq!(p.cycle_dt(9), "");
}

#[test]
fn notice_tags_providers_leaving_this_cycle() {
    let (text, html) = providers().cycle_notice(2, 100, 60).expect("a notice");
    assert_eq!(
        text,
        "🔻 Paseo relay downsizing — Cycle 2 of 4 · Jul 2 18:00 UTC · validator set 100 → 60.\n\
         These validators are being rotated out of the active set this cycle (force-unstaked, no slashing):\n\n\
         • @acme:matrix.org — ACME (2):\n    acme-01  5Aaa\n    acme-03  5Ccc\n\
         \nNo slashing — validators are cleanly removed. Chains stay live at a reduced cadence. \
         Live status: https://paseo-downsizer.r0gue.io"
    );
    assert_eq!(
        html,
        "<b>🔻 Paseo relay downsizing — Cycle 2 of 4</b> · Jul 2 18:00 UTC · validator set 100 → 60.\
         <br/>These validators are being rotated out this cycle (force-unstaked, no slashing):<ul>\
         <li><a href=\"https://matrix.to/#/@acme:matrix.org\">@acme:matrix.org</a> — ACME (2):<ul>\
         <li>acme-01 — <code>5Aaa</code></li><li>acme-03 — <code>5Ccc</code></li></ul></li></ul>\
         No slashing — validators are cleanly removed. Chains stay live at a reduced cadence. \
         <a href=\"https://paseo-downsizer.r0gue.io\">Live status</a>."
    );
}

#[test]
fn no_notice_without_tagged_leavers() {
    assert!(providers().cycle_notice(1, 152, 100).is_none());
    assert!(providers().cycle_notice(4, 20, 20).is_none());
}
