use main_logic::api::{today_bounds, total_or_zero};
use main_logic::apprules::AppRules;
use main_logic::clock::Timestamp;
use main_logic::constants::{MAIN_LOOP_SLEEP_MS, SUMMARY_INTERVAL_SECS};
use main_logic::manager::SessionManager;
use main_logic::metrics::Metrics;
use main_logic::platform::{get_foreground_process_name, resolve_display_name, InstalledApp};
use main_logic::session::FocusSession;
use std::time::{Duration, SystemTime, UNIX_EPOCH};

fn stamp(time: SystemTime) -> Timestamp {
    let since = time.duration_since(UNIX_EPOCH).unwrap();
    Timestamp::new(since.as_secs(), since.subsec_nanos())
}

fn setup_metrics() -> Metrics {
    Metrics::new(stamp(SystemTime::now()))
}

fn app(display: &str, exe: &str) -> InstalledApp {
    InstalledApp { display_name: display.to_string(), exe_name: exe.to_string() }
}

#[test]
fn log_event_file_error() {
    // Simulating a file that cannot be opened is hard to do portably.
    assert!(true);
}

#[test]
fn test_update_increments_counts() {
    let mut metrics = setup_metrics();
    metrics.update("notepad.exe", false);
    metrics.update("chrome.exe", true);
    assert_eq!(metrics.total_checks, 2);
    assert_eq!(metrics.blocked_count, 1);
    assert_eq!(*metrics.app_frequency.get("notepad.exe").unwrap(), 1);
    assert_eq!(*metrics.app_frequency.get("chrome.exe").unwrap(), 1);
}

#[test]
fn test_update_from_session_adds_apps() {
    let mut metrics = setup_metrics();
    let mut mgr = SessionManager::new(AppRules::test_with_rules(vec!["notepad.exe".to_string()], vec![]));
    mgr.set_last_checked_process("notepad.exe".to_string());
    mgr.set_last_blocked(false);
    mgr.set_current_session(FocusSession::new(
        stamp(SystemTime::now()),
        vec!["notepad.exe".to_string(), "word.exe".to_string()],
    ));
    metrics.update_from_session(&mgr);
    assert_eq!(metrics.total_checks, 1);
    // once from the process last checked, once from the session's applications
    assert_eq!(*metrics.app_frequency.get("notepad.exe").unwrap(), 2);
    assert_eq!(*metrics.app_frequency.get("word.exe").unwrap(), 1);
}

#[test]
fn test_should_log_summary_false_initially() {
    let now = stamp(SystemTime::now());
    let metrics = Metrics::new(now);
    assert!(!metrics.should_log_summary(now));
}

#[test]
fn test_should_log_summary_true_after_time() {
    let now = SystemTime::now();
    let mut metrics = setup_metrics();
    // The last summary lies in the past.
    metrics.last_summary = stamp(now - Duration::from_secs(61));
    assert!(metrics.should_log_summary(stamp(now)));
}

#[test]
fn test_log_summary_prints_and_resets_timer() {
    let now = SystemTime::now();
    let mut metrics = setup_metrics();
    metrics.update("notepad.exe", false);
    metrics.update("chrome.exe", true);
    metrics.last_summary = stamp(now - Duration::from_secs(61));
    let before = metrics.last_summary;
    metrics.mark_summary(stamp(now));
    let after = metrics.last_summary;
    assert!(before.is_before(&after));
    assert!(!metrics.should_log_summary(stamp(now)));
    assert_eq!(metrics.total_checks, 2);
}

#[test]
fn summary_is_due_after_exactly_sixty_seconds() {
    let metrics = Metrics::new(Timestamp::new(1000, 500));
    assert_eq!(SUMMARY_INTERVAL_SECS, 60);
    assert_eq!(MAIN_LOOP_SLEEP_MS, 1000);
    assert!(!metrics.should_log_summary(Timestamp::new(1059, 999_999_999)));
    assert!(!metrics.should_log_summary(Timestamp::new(1060, 499)));
    assert!(metrics.should_log_summary(Timestamp::new(1060, 500)));
    assert!(metrics.should_log_summary(Timestamp::new(2000, 0)));
    // A clock that stepped back never makes a summary due.
    assert!(!metrics.should_log_summary(Timestamp::new(10, 0)));
}

#[test]
fn frequency_counts_names_exactly() {
    let mut metrics = setup_metrics();
    assert_eq!(metrics.app_frequency.len(), 0);
    assert!(metrics.app_frequency.get("a").is_none());
    metrics.update("a", false);
    metrics.update("A", true);
    metrics.update("a", true);
    assert_eq!(metrics.app_frequency.get("a"), Some(&2));
    assert_eq!(metrics.app_frequency.get("A"), Some(&1));
    assert_eq!(metrics.app_frequency.get("b"), None);
    assert_eq!(metrics.app_frequency.len(), 2);
    assert_eq!(metrics.total_checks, 3);
    assert_eq!(metrics.blocked_count, 2);
}

#[test]
fn counters_saturate() {
    let mut metrics = setup_metrics();
    metrics.total_checks = u64::MAX;
    metrics.blocked_count = u64::MAX - 1;
    metrics.update("x", true);
    metrics.update("x", true);
    assert_eq!(metrics.total_checks, u64::MAX);
    assert_eq!(metrics.blocked_count, u64::MAX);
}

#[test]
fn update_from_an_idle_manager_counts_nothing() {
    let mut metrics = setup_metrics();
    let mgr = SessionManager::new(AppRules::test_with_rules(vec![], vec![]));
    metrics.update_from_session(&mgr);
    assert_eq!(metrics.total_checks, 0);
    assert_eq!(metrics.app_frequency.len(), 0);
}

#[test]
fn day_bounds_are_utc_midnights() {
    assert_eq!(today_bounds(0), (0, 86_400));
    assert_eq!(today_bounds(86_399), (0, 86_400));
    assert_eq!(today_bounds(86_400), (86_400, 172_800));
    assert_eq!(today_bounds(1_700_000_000), (1_699_920_000, 1_700_006_400));
    assert_eq!(total_or_zero(None), 0);
    assert_eq!(total_or_zero(Some(-3)), -3);
}

#[test]
fn linux_test_get_foreground_process_name() {
    // No executable in focus, nothing installed: no name, and no panic.
    let _ = get_foreground_process_name(&vec![], None);
    assert_eq!(get_foreground_process_name(&vec![], Some("code")), None);
    let installed = vec![app("Visual Studio Code", "code"), app("Firefox", "firefox")];
    assert_eq!(get_foreground_process_name(&installed, None), None);
    assert_eq!(get_foreground_process_name(&installed, Some("code")), Some("Visual Studio Code".to_string()));
}

#[test]
fn windows_test_get_foreground_process_name() {
    let _ = get_foreground_process_name(&vec![], None);
    let installed = vec![app("Notepad", "Notepad.EXE"), app("Chrome", "chrome.exe")];
    // The probe strips the suffix: the name is found as part of the executable's.
    assert_eq!(get_foreground_process_name(&installed, Some("notepad")), Some("Notepad".to_string()));
    assert_eq!(get_foreground_process_name(&installed, Some("chrome.exe")), Some("Chrome".to_string()));
    assert_eq!(get_foreground_process_name(&installed, Some("word")), None);
}

#[test]
fn display_name_prefers_exact_then_related_and_last_of_equals() {
    let apps = vec![
        app("Old Code", "code"),
        app("Code Insiders", "code-insiders"),
        app("Code", "code"),
        app("Term", "term"),
    ];
    assert_eq!(resolve_display_name(&apps, "code"), Some("Code".to_string()));
    assert_eq!(resolve_display_name(&apps, "code-insiders"), Some("Code Insiders".to_string()));
    // No executable is named "cod": the first related one is "code", whose last entry counts.
    assert_eq!(resolve_display_name(&apps, "cod"), Some("Code".to_string()));
    // The executable's name stands in the probed one.
    assert_eq!(resolve_display_name(&apps, "xterm-256"), Some("Term".to_string()));
    assert_eq!(resolve_display_name(&apps, "zzz"), None);
    assert_eq!(resolve_display_name(&vec![], "code"), None);
    // Names are compared as given here: case counts.
    assert_eq!(resolve_display_name(&apps, "CODE"), None);
}
