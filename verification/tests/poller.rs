use main_logic::apprules::AppRules;
use main_logic::clock::Timestamp;
use main_logic::effects::Effect;
use main_logic::error::SynapseError;
use main_logic::logger::{decimal, error_line, error_line_with_context, event_line};
use main_logic::metrics::{AppCount, Metrics, MetricsSummary};
use main_logic::poller::Poller;
use main_logic::types::{EventId, SessionId};

fn names(list: &[&str]) -> Vec<String> {
    list.iter().map(|s| s.to_string()).collect()
}

fn at(secs: u64) -> Timestamp {
    Timestamp::from_secs(secs)
}

fn poller() -> Poller {
    Poller::new(AppRules::test_with_rules(names(&["editor"]), names(&["chat"])), at(1000))
}

fn texts(errors: &[SynapseError]) -> Vec<String> {
    errors.iter().map(|e| e.message()).collect()
}

#[test]
fn tick_drives_manager_and_metrics() {
    let mut poller = poller();
    let report = poller.tick_with_ids(
        Ok(names(&["editor", "chat"])),
        Ok(Some("chat".to_string())),
        at(1001),
        SessionId(1),
        EventId(1),
    );
    assert!(report.errors.is_empty());
    assert!(!report.summary_due);
    assert!(report.closed_session.is_none());
    assert_eq!(report.effects.len(), 3);
    assert_eq!(poller.manager.session_id(), Some(SessionId(1)));
    assert_eq!(poller.metrics.total_checks, 1);
    assert_eq!(poller.metrics.blocked_count, 1);
    assert_eq!(poller.metrics.app_frequency.get("chat"), Some(&1));
    assert_eq!(poller.metrics.app_frequency.get("editor"), Some(&1));
    let report = poller.tick_with_ids(Ok(names(&["chat"])), Ok(None), at(1060), SessionId(2), EventId(2));
    assert!(report.summary_due);
    let closed = report.closed_session.unwrap();
    assert_eq!(closed.id(), SessionId(1));
    assert_eq!(closed.end_time(), Some(&at(1060)));
    assert!(matches!(report.effects[..], [Effect::UpdateSession { .. }]));
    assert_eq!(poller.metrics.total_checks, 1);
}

#[test]
fn failed_focus_probe_counts_as_no_focus() {
    let mut poller = poller();
    poller.tick_with_ids(Ok(names(&["editor"])), Ok(Some("editor".to_string())), at(1001), SessionId(1), EventId(1));
    let report =
        poller.tick_with_ids(Ok(names(&["editor"])), Err("xprop failed".to_string()), at(1002), SessionId(2), EventId(2));
    assert_eq!(texts(&report.errors), vec!["Platform error: Failed to get foreground process: xprop failed"]);
    assert!(report.effects.is_empty());
    assert!(poller.manager.last_checked_process().is_none());
    assert_eq!(poller.manager.session_id(), Some(SessionId(1)));
}

#[test]
fn failed_listing_leaves_the_session_alone() {
    let mut poller = poller();
    poller.tick_with_ids(Ok(names(&["editor"])), Ok(Some("editor".to_string())), at(1001), SessionId(1), EventId(1));
    let report = poller.tick_with_ids(
        Err("read_dir failed".to_string()),
        Ok(Some("chat".to_string())),
        at(1002),
        SessionId(2),
        EventId(2),
    );
    assert_eq!(texts(&report.errors), vec!["Platform error: Failed to list running processes: read_dir failed"]);
    assert!(report.effects.is_empty());
    assert!(report.closed_session.is_none());
    assert_eq!(poller.manager.session_id(), Some(SessionId(1)));
    assert!(poller.manager.last_checked_process().is_none());
    assert!(!poller.manager.last_blocked());
    let both = poller.tick_with_ids(Err("a".to_string()), Err("b".to_string()), at(1003), SessionId(3), EventId(3));
    assert_eq!(
        texts(&both.errors),
        vec![
            "Platform error: Failed to list running processes: a",
            "Platform error: Failed to get foreground process: b"
        ]
    );
    // Without a list no session starts either.
    let mut idle = Poller::new(AppRules::test_with_rules(names(&["editor"]), vec![]), at(0));
    idle.tick(Err("a".to_string()), Ok(Some("editor".to_string())), at(1));
    assert!(idle.manager.current_session().is_none());
}

#[test]
fn backwards_clock_is_reported_and_the_step_skipped() {
    let mut poller = poller();
    poller.tick(Ok(names(&["editor"])), Ok(Some("editor".to_string())), at(1001));
    let id = poller.manager.session_id();
    let report = poller.tick(Ok(vec![]), Ok(Some("chat".to_string())), at(1000));
    assert_eq!(texts(&report.errors), vec!["Time error: second time provided was later than self"]);
    assert!(report.effects.is_empty());
    assert_eq!(poller.manager.session_id(), id);
    let last = poller.finish(at(999));
    assert_eq!(last.errors.len(), 1);
    assert!(last.closed_session.is_none());
    let last = poller.finish(at(1100));
    assert!(last.errors.is_empty());
    assert!(!last.summary_due);
    assert_eq!(last.closed_session.unwrap().end_time(), Some(&at(1100)));
    assert_eq!(last.effects.len(), 2);
    assert!(poller.manager.current_session().is_none());
}

#[test]
fn log_lines_are_formatted() {
    assert_eq!(event_line(1700000000, true, "test.exe"), "[1700000000] BLOCKED -> test.exe\n");
    assert_eq!(event_line(0, false, "a b"), "[0] ALLOWED -> a b\n");
    let err = SynapseError::Other("Test error message".to_string());
    assert_eq!(error_line(&err), "[ERROR] Other error: Test error message\n");
    assert_eq!(
        error_line_with_context("Polling session manager", &err),
        "[ERROR] Polling session manager: Other error: Test error message\n"
    );
    for n in [0u64, 7, 9, 10, 11, 99, 100, 101, 1234567890, u64::MAX] {
        assert_eq!(decimal(n), n.to_string());
    }
}

#[test]
fn test_log_summary_with_no_data() {
    let mut metrics = Metrics::new(at(0));
    let summary = metrics.log_summary(at(61));
    assert_eq!(metrics.last_summary, at(61));
    assert!(summary.top_apps.is_empty());
    assert_eq!(
        summary.lines(),
        vec![
            "\n----- Focus Summary -----",
            "Total Checks: 0",
            "Blocked Detections: 0",
            "Most Frequent Apps: ",
            "-------------------------\n"
        ]
    );
}

#[test]
fn summary_ranks_the_five_most_frequent_apps() {
    let mut metrics = Metrics::new(at(0));
    for (name, times) in [("a", 3), ("b", 1), ("c", 7), ("d", 2), ("e", 5), ("f", 4), ("g", 6)] {
        for _ in 0..times {
            metrics.update(name, name == "c");
        }
    }
    let summary = metrics.log_summary(at(100));
    let ranked: Vec<(String, u64)> = summary.top_apps.iter().map(|e| (e.name.clone(), e.count)).collect();
    assert_eq!(
        ranked,
        vec![
            ("c".to_string(), 7),
            ("g".to_string(), 6),
            ("e".to_string(), 5),
            ("f".to_string(), 4),
            ("a".to_string(), 3)
        ]
    );
    assert_eq!(summary.total_checks, 28);
    assert_eq!(summary.blocked_count, 7);
    assert_eq!(summary.lines()[4], "    c -> 7 times");
    assert_eq!(summary.lines().len(), 10);
    assert_eq!(metrics.app_frequency.top(0).len(), 0);
    assert_eq!(metrics.app_frequency.top(2).len(), 2);
    assert_eq!(metrics.app_frequency.top(100).len(), 7);
    let given = MetricsSummary {
        total_checks: 12,
        blocked_count: 3,
        top_apps: vec![AppCount { name: "x y".to_string(), count: 10 }],
    };
    assert_eq!(given.lines()[1], "Total Checks: 12");
    assert_eq!(given.lines()[2], "Blocked Detections: 3");
    assert_eq!(given.lines()[4], "    x y -> 10 times");
}
