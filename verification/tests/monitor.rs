use uptime_monitor::cycle::{check_now_cycle, health_report, scheduled_cycle};
use uptime_monitor::notify::{alert_text, build_alert, should_notify};
use uptime_monitor::sites::parse_site_list;
use uptime_monitor::store::{ProbeOutcome, StatusEntry, StatusStore};

fn outcome(site: &str, up: bool, checked_at: &str) -> ProbeOutcome {
    ProbeOutcome {
        site: String::from(site),
        entry: StatusEntry { up, checked_at: String::from(checked_at) },
    }
}

#[test]
fn store_starts_empty() {
    let store = StatusStore::new();
    assert_eq!(store.len(), 0);
    assert_eq!(store.snapshot().len(), 0);
    assert_eq!(health_report(&store), "");
}

#[test]
fn upsert_adds_and_replaces() {
    let mut store = StatusStore::new();
    store.upsert(String::from("http://a.example"), StatusEntry {
        up: true,
        checked_at: String::from("T1"),
    });
    assert_eq!(store.len(), 1);
    store.upsert(String::from("http://b.example"), StatusEntry {
        up: false,
        checked_at: String::from("T2"),
    });
    assert_eq!(store.len(), 2);
    store.upsert(String::from("http://a.example"), StatusEntry {
        up: false,
        checked_at: String::from("T3"),
    });
    assert_eq!(store.len(), 2);
    let snap = store.snapshot();
    assert_eq!(snap[0].site, "http://a.example");
    assert!(!snap[0].entry.up);
    assert_eq!(snap[0].entry.checked_at, "T3");
    assert_eq!(snap[1].site, "http://b.example");
}

#[test]
fn upsert_is_idempotent() {
    let mut once = StatusStore::new();
    once.upsert(String::from("http://a.example"), StatusEntry {
        up: true,
        checked_at: String::from("T1"),
    });
    let mut twice = StatusStore::new();
    twice.upsert(String::from("http://a.example"), StatusEntry {
        up: true,
        checked_at: String::from("T1"),
    });
    twice.upsert(String::from("http://a.example"), StatusEntry {
        up: true,
        checked_at: String::from("T1"),
    });
    let s1 = once.snapshot();
    let s2 = twice.snapshot();
    assert_eq!(s1.len(), s2.len());
    assert_eq!(s1[0].site, s2[0].site);
    assert_eq!(s1[0].entry.up, s2[0].entry.up);
    assert_eq!(s1[0].entry.checked_at, s2[0].entry.checked_at);
}

#[test]
fn last_write_wins_per_site() {
    // Two cycles' probes for one site interleave as whole-entry upserts: the
    // final state is whichever completed last, never a torn entry.
    let mut store = StatusStore::new();
    store.upsert(String::from("http://a.example"), StatusEntry {
        up: true,
        checked_at: String::from("T1"),
    });
    store.upsert(String::from("http://a.example"), StatusEntry {
        up: false,
        checked_at: String::from("T2"),
    });
    let snap = store.snapshot();
    assert_eq!(snap.len(), 1);
    assert!(!snap[0].entry.up);
    assert_eq!(snap[0].entry.checked_at, "T2");
}

#[test]
fn check_now_reports_and_alerts() {
    let mut store = StatusStore::new();
    let results = vec![
        outcome("http://ok.example", true, "T1"),
        outcome("http://down.example", false, "T2"),
    ];
    let out = check_now_cycle(&mut store, &results);
    assert_eq!(out.report, "0: OK at T1\n1: DOWN at T2");
    assert_eq!(out.alert, Some(String::from("healthcheck\n0: OK at T1\n1: DOWN at T2")));
    assert_eq!(store.len(), 2);
}

#[test]
fn check_now_all_up_sends_no_alert() {
    let mut store = StatusStore::new();
    let results = vec![outcome("http://ok.example", true, "T1")];
    let out = check_now_cycle(&mut store, &results);
    assert_eq!(out.report, "0: OK at T1");
    assert_eq!(out.alert, None);
}

#[test]
fn empty_cycle_is_silent() {
    // A missing site list file yields an empty input: empty report, nothing
    // probed, no alert, store untouched.
    let mut store = StatusStore::new();
    let results: Vec<ProbeOutcome> = Vec::new();
    let out = check_now_cycle(&mut store, &results);
    assert_eq!(out.report, "");
    assert_eq!(out.alert, None);
    assert_eq!(store.len(), 0);
}

#[test]
fn scheduled_cycle_reads_back_whole_store() {
    let mut store = StatusStore::new();
    let first = vec![outcome("http://a.example", true, "T1")];
    scheduled_cycle(&mut store, &first);
    let second = vec![outcome("http://b.example", false, "T2")];
    let out = scheduled_cycle(&mut store, &second);
    // The report is rendered from the whole store, numbered in store order.
    assert_eq!(out.report, "0: OK at T1\n1: DOWN at T2");
    assert!(out.alert.is_some());
}

#[test]
fn health_report_one_line_per_site_ever_probed() {
    let mut store = StatusStore::new();
    scheduled_cycle(&mut store, &vec![
        outcome("http://a.example", true, "T1"),
        outcome("http://b.example", false, "T2"),
    ]);
    assert_eq!(health_report(&store), "http://a.example: OK at T1\nhttp://b.example: DOWN at T2");
    // Re-probing a known site adds no line; the count never decreases.
    scheduled_cycle(&mut store, &vec![outcome("http://a.example", false, "T3")]);
    let text = health_report(&store);
    assert_eq!(text.lines().count(), 2);
    assert_eq!(text, "http://a.example: DOWN at T3\nhttp://b.example: DOWN at T2");
}

#[test]
fn should_notify_finds_marker() {
    assert!(should_notify("0: DOWN at T1"));
    assert!(!should_notify("0: OK at T1"));
    assert!(!should_notify(""));
    // The marker never straddles a line break.
    assert!(!should_notify("0: OK at DOW\n1: OK at N"));
    // A near-miss prefix does not hide a later occurrence.
    assert!(should_notify("0: OK at DODOWN"));
    assert!(!should_notify("0: OK at DOW"));
}

#[test]
fn alert_text_prefixes_header() {
    assert_eq!(alert_text("0: DOWN at T1"), "healthcheck\n0: DOWN at T1");
}

#[test]
fn build_alert_shapes_payload() {
    let msg = build_alert(String::from("42"), "0: DOWN at T1");
    assert_eq!(msg.method, "sendMessage");
    assert_eq!(msg.chat_id, "42");
    assert_eq!(msg.text, "healthcheck\n0: DOWN at T1");
}

#[test]
fn site_list_splits_lines() {
    assert_eq!(parse_site_list("http://a.example\nhttp://b.example"), vec![
        String::from("http://a.example"),
        String::from("http://b.example"),
    ]);
    assert_eq!(parse_site_list("http://a.example\nhttp://b.example\n"), vec![
        String::from("http://a.example"),
        String::from("http://b.example"),
    ]);
    assert_eq!(parse_site_list("http://a.example\r\nhttp://b.example\r\n"), vec![
        String::from("http://a.example"),
        String::from("http://b.example"),
    ]);
}

#[test]
fn site_list_edge_cases() {
    assert_eq!(parse_site_list(""), Vec::<String>::new());
    assert_eq!(parse_site_list("\n"), vec![String::from("")]);
    // A carriage return not followed by a newline stays.
    assert_eq!(parse_site_list("http://a.example\r"), vec![String::from("http://a.example\r")]);
}

#[test]
fn on_demand_and_scheduled_paths_share_store() {
    // The two paths write the same store under the same discipline: for each
    // site, whichever probe completed last is what both views read back.
    let mut store = StatusStore::new();
    check_now_cycle(&mut store, &vec![outcome("http://a.example", true, "T1")]);
    let out = scheduled_cycle(&mut store, &vec![outcome("http://a.example", false, "T2")]);
    assert_eq!(out.report, "0: DOWN at T2");
    assert_eq!(store.len(), 1);
    assert_eq!(health_report(&store), "http://a.example: DOWN at T2");
}

#[test]
fn long_cycle_numbers_lines_in_order() {
    let mut store = StatusStore::new();
    let mut results = Vec::new();
    for k in 0..12 {
        results.push(outcome(&format!("http://s{}.example", k), true, "T"));
    }
    let out = check_now_cycle(&mut store, &results);
    let lines: Vec<&str> = out.report.lines().collect();
    assert_eq!(lines.len(), 12);
    assert_eq!(lines[10], "10: OK at T");
    assert_eq!(lines[11], "11: OK at T");
    assert_eq!(out.alert, None);
}
