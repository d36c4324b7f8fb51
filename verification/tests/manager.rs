use main_logic::allowance::{SnoozeTable, TemporaryAllowance};
use main_logic::apprules::{AppRules, AppRulesFile, Platform};
use main_logic::clock::Timestamp;
use main_logic::effects::Effect;
use main_logic::error::SynapseError;
use main_logic::manager::{any_work_app_running, PollOutcome, SessionManager};
use main_logic::session::FocusSession;
use main_logic::tracker::UsageTracker;
use main_logic::types::{EventId, SessionId};
use std::time::{SystemTime, UNIX_EPOCH};

fn stamp(time: SystemTime) -> Timestamp {
    let since = time.duration_since(UNIX_EPOCH).unwrap();
    Timestamp::new(since.as_secs(), since.subsec_nanos())
}

fn names(list: &[&str]) -> Vec<String> {
    list.iter().map(|s| s.to_string()).collect()
}

fn at(secs: u64) -> Timestamp {
    Timestamp::from_secs(secs)
}

fn setup_manager() -> SessionManager {
    let rules = AppRules::test_with_rules(
        vec!["notepad.exe".to_string(), "word.exe".to_string()],
        vec!["chrome.exe".to_string(), "game.exe".to_string()],
    );
    SessionManager::new(rules)
}

fn focus_manager() -> SessionManager {
    SessionManager::new(AppRules::test_with_rules(names(&["editor", "ide"]), names(&["chat", "game"])))
}

fn step(mgr: &mut SessionManager, running: &[&str], foreground: Option<&str>, secs: u64) -> PollOutcome {
    mgr.poll_with_ids(&names(running), foreground, at(secs), SessionId(secs as u128), EventId(secs as u128))
        .unwrap()
}

fn inserted_sessions(outcome: &PollOutcome) -> usize {
    outcome.effects.iter().filter(|e| matches!(e, Effect::InsertSession(_))).count()
}

fn notices(outcome: &PollOutcome) -> Vec<String> {
    let mut found = Vec::new();
    for effect in &outcome.effects {
        if let Effect::ShowDistractionNotice { app_name } = effect {
            found.push(app_name.clone());
        }
    }
    found
}

#[test]
fn test_new_manager_initial_state() {
    let mgr = setup_manager();
    assert!(mgr.current_session().is_none());
    assert!(mgr.last_checked_process().is_none());
    assert!(!mgr.last_blocked());
    assert!(mgr.session_id().is_none());
    assert_eq!(mgr.apprules().whitelist, names(&["notepad.exe", "word.exe"]));
}

#[test]
fn test_start_and_end_session() {
    let mut mgr = setup_manager();
    let now = stamp(SystemTime::now());
    mgr.set_current_session(FocusSession::new(now, vec!["notepad.exe".to_string()]));
    mgr.set_session_id(SessionId(1));
    assert!(mgr.current_session().is_some());
    assert_eq!(mgr.session_id(), Some(SessionId(1)));
    let ended = mgr.end_active_session(now).unwrap();
    assert!(mgr.current_session().is_none());
    assert!(mgr.session_id().is_none());
    let closed = ended.closed_session.unwrap();
    assert_eq!(closed.end_time(), Some(&now));
    assert_eq!(closed.id(), SessionId(1));
}

#[test]
fn test_distraction_attempts_increment() {
    let mut mgr = setup_manager();
    let now = stamp(SystemTime::now());
    mgr.set_current_session(FocusSession::new(now, vec!["notepad.exe".to_string()]));
    mgr.record_distraction();
    assert_eq!(mgr.current_session().unwrap().distraction_attempts(), 1);
}

#[test]
fn test_end_active_session_no_session() {
    let mut mgr = setup_manager();
    let outcome = mgr.end_active_session(stamp(SystemTime::now()));
    assert!(outcome.is_ok());
    let outcome = outcome.unwrap();
    assert!(outcome.closed_session.is_none());
    assert!(outcome.effects.is_empty());
}

#[test]
fn test_full_session_lifecycle_and_metrics() {
    let rules = AppRules::test_with_rules(
        vec!["notepad.exe".to_string(), "word.exe".to_string()],
        vec!["chrome.exe".to_string(), "game.exe".to_string()],
    );
    let mut mgr = SessionManager::new(rules.clone());
    let now = stamp(SystemTime::now());
    let session = FocusSession::new(now, vec!["notepad.exe".to_string()]);
    let session_id = session.id();
    mgr.set_current_session(session);
    mgr.set_session_id(SessionId::from(session_id.0));
    assert!(mgr.current_session().is_some());

    let mut metrics = main_logic::metrics::Metrics::new(now);
    metrics.update("notepad.exe", false);
    metrics.update("chrome.exe", true);
    assert_eq!(metrics.total_checks, 2);
    assert_eq!(metrics.blocked_count, 1);

    mgr.record_distraction();
    assert_eq!(mgr.current_session().unwrap().distraction_attempts(), 1);

    let end = Timestamp::new(now.secs + 1000, now.nanos);
    let ended = mgr.end_active_session(end).unwrap();
    assert!(mgr.current_session().is_none());
    assert!(mgr.session_id().is_none());
    let closed = ended.closed_session.unwrap();
    assert_eq!(closed.id(), session_id);
    assert_eq!(closed.distraction_attempts(), 1);
    match &ended.effects[..] {
        [Effect::UpdateSession { id, end_time, work_apps, distraction_count }] => {
            assert_eq!(*id, session_id);
            assert_eq!(*end_time, end);
            assert_eq!(work_apps, "notepad.exe");
            assert_eq!(*distraction_count, 1);
        }
        other => panic!("unexpected effects: {:?}", other),
    }

    metrics.last_summary = Timestamp::new(now.secs.saturating_sub(61), now.nanos);
    assert!(metrics.should_log_summary(now));
}

#[test]
fn blocked_app_in_focus_twice_counts_once() {
    let mut mgr = focus_manager();
    let first = step(&mut mgr, &["editor", "chat"], Some("chat"), 100);
    assert_eq!(inserted_sessions(&first), 1);
    assert_eq!(notices(&first), names(&["chat"]));
    assert_eq!(mgr.current_session().unwrap().distraction_attempts(), 1);
    let id = mgr.session_id();
    assert_eq!(id, Some(SessionId(100)));
    match &first.effects[..] {
        [Effect::InsertSession(started), Effect::ShowDistractionNotice { app_name }, Effect::UpdateDistractionCount { id, count }] =>
        {
            assert_eq!(started.start_time(), &at(100));
            assert_eq!(started.distraction_attempts(), 0);
            assert_eq!(started.work_apps(), &names(&["editor"]));
            assert_eq!(app_name, "chat");
            assert_eq!(*id, SessionId(100));
            assert_eq!(*count, 1);
        }
        other => panic!("unexpected effects: {:?}", other),
    }
    let second = step(&mut mgr, &["editor", "chat"], Some("chat"), 101);
    assert!(second.effects.is_empty());
    assert!(second.closed_session.is_none());
    assert_eq!(mgr.session_id(), id);
    assert_eq!(mgr.current_session().unwrap().distraction_attempts(), 1);
    assert!(mgr.last_blocked());
    assert_eq!(mgr.last_checked_process(), Some(&"chat".to_string()));
}

#[test]
fn switching_away_and_back_counts_again() {
    let mut mgr = focus_manager();
    step(&mut mgr, &["editor"], Some("chat"), 100);
    step(&mut mgr, &["editor"], Some("chat"), 101);
    assert_eq!(mgr.current_session().unwrap().distraction_attempts(), 1);
    let away = step(&mut mgr, &["editor"], Some("editor"), 102);
    assert!(notices(&away).is_empty());
    assert!(!mgr.last_blocked());
    assert_eq!(mgr.current_session().unwrap().distraction_attempts(), 1);
    let back = step(&mut mgr, &["editor"], Some("chat"), 103);
    assert_eq!(notices(&back), names(&["chat"]));
    assert_eq!(mgr.current_session().unwrap().distraction_attempts(), 2);
    // Another blocked application counts at once, and so does the first when it returns.
    step(&mut mgr, &["editor"], Some("game"), 104);
    assert_eq!(mgr.current_session().unwrap().distraction_attempts(), 3);
    step(&mut mgr, &["editor"], Some("chat"), 105);
    assert_eq!(mgr.current_session().unwrap().distraction_attempts(), 4);
    // The debounce compares the names as they are given.
    step(&mut mgr, &["editor"], Some("CHAT"), 106);
    assert_eq!(mgr.current_session().unwrap().distraction_attempts(), 5);
    // Losing the focus altogether resets the debounce too.
    step(&mut mgr, &["editor"], None, 107);
    step(&mut mgr, &["editor"], Some("CHAT"), 108);
    assert_eq!(mgr.current_session().unwrap().distraction_attempts(), 6);
}

#[test]
fn no_work_app_never_creates_a_session() {
    let mut mgr = focus_manager();
    let samples: [(&[&str], Option<&str>); 6] = [
        (&[], None),
        (&["chat"], Some("chat")),
        (&["chat", "other"], Some("other")),
        (&["game"], Some("game")),
        (&["other"], Some("editor")),
        (&[], Some("ide")),
    ];
    for (i, (running, foreground)) in samples.iter().enumerate() {
        let outcome = step(&mut mgr, running, *foreground, 100 + i as u64);
        assert!(mgr.current_session().is_none());
        assert!(outcome.closed_session.is_none());
        assert_eq!(inserted_sessions(&outcome), 0);
        assert!(notices(&outcome).is_empty());
    }
    // The same with identities drawn by the manager.
    let outcome = mgr.poll(&names(&["chat"]), Some("chat"), at(200)).unwrap();
    assert!(mgr.current_session().is_none());
    assert_eq!(inserted_sessions(&outcome), 0);
}

#[test]
fn session_closes_when_all_work_apps_close() {
    let mut mgr = focus_manager();
    step(&mut mgr, &["editor", "chat"], Some("editor"), 100);
    step(&mut mgr, &["editor", "ide", "editor"], Some("ide"), 110);
    step(&mut mgr, &["IDE", "other"], Some("chat"), 120);
    assert_eq!(mgr.current_session().unwrap().work_apps(), &names(&["editor", "ide", "IDE"]));
    let last = step(&mut mgr, &["chat", "other"], Some("other"), 130);
    assert!(mgr.current_session().is_none());
    assert!(mgr.session_id().is_none());
    let closed = last.closed_session.expect("the session ended");
    assert!(!closed.is_active());
    assert_eq!(closed.start_time(), &at(100));
    assert_eq!(closed.end_time(), Some(&at(130)));
    assert!(!closed.end_time().unwrap().is_before(closed.start_time()));
    assert_eq!(closed.work_apps(), &names(&["editor", "ide", "IDE"]));
    assert_eq!(closed.distraction_attempts(), 1);
    assert_eq!(closed.id(), SessionId(100));
    let update = last.effects.last().unwrap();
    match update {
        Effect::UpdateSession { id, end_time, work_apps, distraction_count } => {
            assert_eq!(*id, SessionId(100));
            assert_eq!(*end_time, at(130));
            assert_eq!(work_apps, "editor,ide,IDE");
            assert_eq!(*distraction_count, 1);
        }
        other => panic!("unexpected effect: {:?}", other),
    }
    // A new work application starts a new session under a new identity.
    let again = step(&mut mgr, &["ide"], None, 140);
    assert_eq!(inserted_sessions(&again), 1);
    let session = mgr.current_session().unwrap();
    assert_eq!(session.id(), SessionId(140));
    assert_eq!(session.start_time(), &at(140));
    assert_eq!(session.distraction_attempts(), 0);
    assert_eq!(session.work_apps(), &names(&["ide"]));
}

#[test]
fn poll_draws_identities_for_what_it_starts() {
    let mut mgr = focus_manager();
    let outcome = mgr.poll(&names(&["editor"]), Some("editor"), at(100)).unwrap();
    assert_eq!(inserted_sessions(&outcome), 1);
    let id = mgr.session_id().unwrap();
    assert_ne!(id.0, 0);
    let outcome = mgr.poll(&names(&["editor"]), Some("chat"), at(105)).unwrap();
    match &outcome.effects[0] {
        Effect::InsertUsageEvent(event) => {
            assert_ne!(event.id.0, 0);
            assert_ne!(event.id.0, id.0);
            assert_eq!(event.session_id, Some(id));
        }
        other => panic!("unexpected effect: {:?}", other),
    }
}

#[test]
fn focus_changes_leave_usage_records() {
    let mut mgr = focus_manager();
    let first = step(&mut mgr, &["editor"], Some("editor"), 100);
    assert_eq!(first.effects.len(), 1); // only the new session
    let same = step(&mut mgr, &["editor"], Some("editor"), 104);
    assert!(same.effects.is_empty());
    let change = step(&mut mgr, &["editor"], Some("chat"), 107);
    match &change.effects[0] {
        Effect::InsertUsageEvent(event) => {
            assert_eq!(event.id, EventId(107));
            assert_eq!(event.process_name, "editor");
            assert_eq!(event.status, "allowed");
            assert_eq!(event.session_id, Some(SessionId(100)));
            assert_eq!(event.start_time, 100);
            assert_eq!(event.end_time, 107);
            assert_eq!(event.duration_secs, 7);
            assert_eq!(event.duration_secs, event.end_time - event.start_time);
        }
        other => panic!("unexpected effect: {:?}", other),
    }
    let back = step(&mut mgr, &["editor"], Some("editor"), 107);
    match &back.effects[0] {
        Effect::InsertUsageEvent(event) => {
            assert_eq!(event.process_name, "chat");
            assert_eq!(event.status, "blocked");
            assert_eq!(event.duration_secs, 0);
            let copy = event.clone();
            assert_eq!(copy.process_name, event.process_name);
            assert_eq!(copy.id, event.id);
        }
        other => panic!("unexpected effect: {:?}", other),
    }
    // Losing the focus forgets the running interval without a record.
    let lost = step(&mut mgr, &["editor"], None, 120);
    assert!(lost.effects.is_empty());
    assert!(mgr.last_checked_process().is_none());
    let regained = step(&mut mgr, &["editor"], Some("chat"), 125);
    assert!(regained.effects.iter().all(|e| !matches!(e, Effect::InsertUsageEvent(_))));
    assert!(mgr.current_session().is_some());
}

#[test]
fn usage_status_follows_rules_and_allowances_at_closure() {
    let mut mgr = focus_manager();
    step(&mut mgr, &[], Some("chat"), 100);
    // Snoozed before the interval closes: the record says allowed, outside any session.
    mgr.snooze_app("Chat", 60, at(105));
    let closing = step(&mut mgr, &[], Some("other"), 110);
    match &closing.effects[..] {
        [Effect::InsertUsageEvent(event)] => {
            assert_eq!(event.process_name, "chat");
            assert_eq!(event.status, "allowed");
            assert_eq!(event.session_id, None);
        }
        other => panic!("unexpected effects: {:?}", other),
    }
    // Rules replaced while "other" holds the focus: its record follows the new rules.
    mgr.set_apprules(AppRules::test_with_rules(vec![], names(&["other"])));
    let closing = step(&mut mgr, &[], Some("chat"), 120);
    match &closing.effects[..] {
        [Effect::InsertUsageEvent(event)] => {
            assert_eq!(event.process_name, "other");
            assert_eq!(event.status, "blocked");
        }
        other => panic!("unexpected effects: {:?}", other),
    }
}

#[test]
fn snoozed_app_is_not_blocked_until_the_allowance_ends() {
    let mut mgr = focus_manager();
    assert!(mgr.is_blocked("chat", at(99)));
    mgr.snooze_app("chat", 300, Timestamp::new(100, 500));
    assert!(!mgr.is_blocked("chat", Timestamp::new(100, 500)));
    assert!(!mgr.is_blocked("CHAT", Timestamp::new(250, 0)));
    assert!(!mgr.is_blocked("Chat", Timestamp::new(400, 499)));
    assert!(mgr.is_blocked("chat", Timestamp::new(400, 500)));
    assert!(mgr.is_blocked("chat", Timestamp::new(401, 0)));
    assert!(mgr.is_blocked("game", Timestamp::new(250, 0)));
    assert!(!mgr.is_blocked("editor", Timestamp::new(250, 0)));
    // An application that no rule denies stays unblocked after its allowance.
    mgr.snooze_app("other", 10, at(100));
    assert!(!mgr.is_blocked("other", at(105)));
    assert!(!mgr.is_blocked("other", at(500)));
    // A new allowance replaces the old one, longer or shorter.
    mgr.snooze_app("chat", 1000, at(500));
    mgr.snooze_app("CHAT", 10, at(500));
    assert!(!mgr.is_blocked("chat", at(509)));
    assert!(mgr.is_blocked("chat", at(510)));
    // The largest duration does not overflow.
    mgr.snooze_app("chat", u64::MAX, Timestamp::new(u64::MAX, 5));
    assert!(!mgr.is_blocked("chat", Timestamp::new(u64::MAX, 999_999_999)));
}

#[test]
fn snoozed_app_in_focus_is_no_distraction() {
    let mut mgr = focus_manager();
    mgr.snooze_app("chat", 30, at(100));
    let during = step(&mut mgr, &["editor"], Some("chat"), 110);
    assert!(notices(&during).is_empty());
    assert!(!mgr.last_blocked());
    assert_eq!(mgr.current_session().unwrap().distraction_attempts(), 0);
    let after = step(&mut mgr, &["editor"], Some("chat"), 130);
    assert_eq!(notices(&after), names(&["chat"]));
    assert!(mgr.last_blocked());
    assert_eq!(mgr.current_session().unwrap().distraction_attempts(), 1);
}

#[test]
fn a_clock_that_ran_backwards_skips_the_step() {
    let mut mgr = focus_manager();
    step(&mut mgr, &["editor"], Some("editor"), 100);
    let result = mgr.poll_with_ids(&names(&[]), Some("chat"), at(99), SessionId(5), EventId(5));
    match result {
        Err(SynapseError::Time(detail)) => assert_eq!(detail, "second time provided was later than self"),
        other => panic!("unexpected result: {:?}", other),
    }
    assert_eq!(mgr.session_id(), Some(SessionId(100)));
    assert_eq!(mgr.last_checked_process(), Some(&"editor".to_string()));
    assert!(mgr.end_active_session(at(99)).is_err());
    assert!(mgr.shutdown_with_id(at(99), EventId(1)).is_err());
    assert!(mgr.current_session().is_some());
    // Within the second of a start the nanoseconds count, for the session
    // and for the process in focus.
    mgr.set_current_session(FocusSession::with_id(SessionId(7), Timestamp::new(100, 10), vec![]));
    assert!(mgr.poll(&names(&["editor"]), None, Timestamp::new(100, 9)).is_err());
    assert!(mgr.poll(&names(&["editor"]), Some("editor"), Timestamp::new(100, 10)).is_ok());
    assert!(mgr.poll(&names(&["editor"]), Some("chat"), Timestamp::new(100, 9)).is_err());
    let mut idle = focus_manager();
    idle.poll(&names(&[]), Some("a"), Timestamp::new(200, 500)).unwrap();
    assert!(idle.poll(&names(&[]), Some("b"), Timestamp::new(200, 499)).is_err());
    assert_eq!(idle.last_checked_process(), Some(&"a".to_string()));
    let closing = idle.poll(&names(&[]), Some("b"), Timestamp::new(200, 500)).unwrap();
    match &closing.effects[..] {
        [Effect::InsertUsageEvent(event)] => {
            assert_eq!((event.start_time, event.end_time, event.duration_secs), (200, 200, 0))
        }
        other => panic!("unexpected effects: {:?}", other),
    }
}

#[test]
fn shutdown_closes_the_interval_and_the_session() {
    let mut mgr = focus_manager();
    step(&mut mgr, &["editor"], Some("chat"), 100);
    let outcome = mgr.shutdown_with_id(at(160), EventId(9)).unwrap();
    let closed = outcome.closed_session.unwrap();
    assert_eq!(closed.end_time(), Some(&at(160)));
    assert_eq!(closed.distraction_attempts(), 1);
    match &outcome.effects[..] {
        [Effect::InsertUsageEvent(event), Effect::UpdateSession { id, end_time, work_apps, distraction_count }] =>
        {
            assert_eq!(event.id, EventId(9));
            assert_eq!(event.process_name, "chat");
            assert_eq!(event.status, "blocked");
            assert_eq!(event.session_id, Some(SessionId(100)));
            assert_eq!((event.start_time, event.end_time, event.duration_secs), (100, 160, 60));
            assert_eq!(*id, SessionId(100));
            assert_eq!(*end_time, at(160));
            assert_eq!(work_apps, "editor");
            assert_eq!(*distraction_count, 1);
        }
        other => panic!("unexpected effects: {:?}", other),
    }
    assert!(mgr.current_session().is_none());
    let nothing = mgr.shutdown(at(170)).unwrap();
    assert!(nothing.effects.is_empty());
    assert!(nothing.closed_session.is_none());
}

#[test]
fn an_ended_session_is_not_taken_as_current() {
    let mut mgr = focus_manager();
    let ended = FocusSession::restore(SessionId(1), at(10), Some(at(20)), vec![], 0).unwrap();
    mgr.set_current_session(ended);
    assert!(mgr.current_session().is_none());
    mgr.set_session_id(SessionId(3));
    mgr.record_distraction();
    assert!(mgr.session_id().is_none());
}

#[test]
fn work_apps_are_found_whatever_their_case() {
    let rules = AppRules::test_with_rules(names(&["Editor"]), vec![]);
    assert!(any_work_app_running(&rules, &names(&["x", "EDITOR"])));
    assert!(!any_work_app_running(&rules, &names(&["x", "edit"])));
    assert!(!any_work_app_running(&rules, &vec![]));
}

#[test]
fn tracker_follows_the_focus() {
    let mut tracker = UsageTracker::new();
    assert!(tracker.current_app().is_none());
    assert_eq!(tracker.observe("a", Timestamp::new(10, 7)).unwrap().map(|i| i.app), None);
    assert_eq!(tracker.current_app(), Some(&"a".to_string()));
    assert_eq!(tracker.current_app_start(), Some(Timestamp::new(10, 7)));
    assert!(tracker.observe("a", at(12)).unwrap().is_none());
    assert_eq!(tracker.current_app_start(), Some(Timestamp::new(10, 7)));
    tracker.note_open_event(EventId(4));
    assert_eq!(tracker.last_open_event_id(), Some(EventId(4)));
    let closed = tracker.observe("b", Timestamp::new(15, 3)).unwrap().unwrap();
    assert_eq!(closed.app, "a");
    assert_eq!((closed.start_time, closed.end_time, closed.duration_secs), (10, 15, 5));
    assert_eq!(closed.event_id, Some(EventId(4)));
    assert_eq!(tracker.last_open_event_id(), None);
    assert_eq!(tracker.current_app(), Some(&"b".to_string()));
    // A clock that ran backwards closes nothing and changes nothing.
    assert!(tracker.observe("c", at(14)).is_err());
    assert!(tracker.finalize(at(14)).is_err());
    assert_eq!(tracker.current_app(), Some(&"b".to_string()));
    // Within the second of the start the nanoseconds count.
    assert!(tracker.observe("c", Timestamp::new(15, 2)).is_err());
    assert!(tracker.finalize(Timestamp::new(15, 0)).is_err());
    assert_eq!(tracker.current_app(), Some(&"b".to_string()));
    assert_eq!(tracker.current_app_start(), Some(Timestamp::new(15, 3)));
    // A process seen again is no change, whatever the clock says.
    assert!(tracker.observe("b", at(1)).unwrap().is_none());
    let last = tracker.finalize(Timestamp::new(15, 3)).unwrap().unwrap();
    assert_eq!(last.app, "b");
    assert_eq!((last.start_time, last.end_time, last.duration_secs), (15, 15, 0));
    assert!(tracker.current_app().is_none());
    assert!(tracker.finalize(at(20)).unwrap().is_none());
    tracker.note_open_event(EventId(5));
    assert_eq!(tracker.last_open_event_id(), None);
    tracker.observe("d", at(30)).unwrap();
    tracker.reset();
    assert!(tracker.current_app().is_none());
    assert!(tracker.current_app_start().is_none());
}

#[test]
fn allowances_expire_and_are_dropped() {
    let mut table = SnoozeTable::new();
    assert!(!table.is_allowed("chat", at(1)));
    table.snooze("Chat", 10, Timestamp::new(100, 50));
    assert!(table.is_allowed("chat", at(0)));
    assert!(table.is_allowed("CHAT", Timestamp::new(110, 49)));
    assert!(!table.is_allowed("chat", Timestamp::new(110, 50)));
    assert!(!table.is_allowed("chats", at(105)));
    assert!(table.check("chat", at(105)));
    assert!(!table.check("chat", at(200)));
    // The expired allowance is gone: an earlier instant finds none either.
    assert!(!table.is_allowed("chat", at(105)));
    let allowance = TemporaryAllowance { granted_at: at(5), duration_secs: 0 };
    assert!(!allowance.is_active(at(5)));
    assert!(allowance.is_active(Timestamp::new(4, 999)));
}

#[test]
fn rules_that_cannot_be_loaded_leave_the_old_ones() {
    let mut mgr = focus_manager();
    let result = mgr.reload_rules(Err("expected value at line 1 column 1".to_string()), Platform::Linux);
    match result {
        Err(SynapseError::Config(detail)) => {
            assert_eq!(detail, "Failed to load apprules.json: expected value at line 1 column 1")
        }
        other => panic!("unexpected result: {:?}", other),
    }
    assert!(mgr.is_blocked("chat", at(1)));
    let file = AppRulesFile { whitelist: names(&["Term"]), blacklist: names(&["Video"]) };
    assert!(mgr.reload_rules(Ok(file), Platform::Windows).is_ok());
    assert!(!mgr.is_blocked("chat", at(1)));
    assert!(mgr.is_blocked("video.EXE", at(1)));
    assert_eq!(mgr.apprules().whitelist, names(&["term", "term.exe"]));
}
