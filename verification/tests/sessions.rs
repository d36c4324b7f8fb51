use main_logic::apprules::AppRules;
use main_logic::clock::Timestamp;
use main_logic::session::{distinct_names, FocusSession};
use main_logic::sync::{merge_sessions, session_key};
use main_logic::types::{EventId, SessionId};
use std::time::{Duration, SystemTime, UNIX_EPOCH};

fn stamp(time: SystemTime) -> Timestamp {
    let since = time.duration_since(UNIX_EPOCH).unwrap();
    Timestamp::new(since.as_secs(), since.subsec_nanos())
}

fn names(list: &[&str]) -> Vec<String> {
    list.iter().map(|s| s.to_string()).collect()
}

#[test]
fn test_focus_session_clone_and_debug() {
    let now = SystemTime::now();
    let session = FocusSession::restore(
        SessionId::generate(),
        stamp(now),
        Some(stamp(now + Duration::from_secs(3600))),
        vec!["notepad.exe".to_string(), "word.exe".to_string()],
        2,
    )
    .unwrap();
    let session2 = session.clone();
    assert_eq!(session.work_apps(), session2.work_apps());
    let debug_str = format!("{:?}", session2);
    assert!(debug_str.contains("notepad.exe"));
    assert!(!session2.is_active());
    assert_eq!(session2.distraction_attempts(), 2);
    assert_eq!(session2.id(), session.id());
    assert_eq!(session2.start_time(), session.start_time());
    assert_eq!(session2.end_time(), session.end_time());
}

#[test]
fn test_merge_sessions_basic() {
    let now = stamp(SystemTime::now());
    let later = Timestamp::new(now.secs + 1, now.nanos);
    let s1 = FocusSession::new(now, vec!["a.exe".to_string()]);
    let s2 = FocusSession::new(later, vec!["b.exe".to_string()]);
    let s3 = FocusSession::new(now, vec!["a.exe".to_string()]); // same session as s1
    let merged = merge_sessions(vec![s1.clone(), s2.clone()], vec![s3.clone()]);
    assert_eq!(merged.len(), 2);
    assert!(merged.iter().any(|s| s.work_apps() == &vec!["a.exe".to_string()]));
    assert!(merged.iter().any(|s| s.work_apps() == &vec!["b.exe".to_string()]));
    assert_eq!(merged[0].id(), s3.id());
    assert_eq!(merged[1].id(), s2.id());
}

#[test]
fn test_merge_sessions_last_write_wins() {
    let now = stamp(SystemTime::now());
    let s1 = FocusSession::new(now, vec!["a.exe".to_string()]);
    let mut s2 = s1.clone();
    for _ in 0..5 {
        s2.increment_distraction_attempts();
    }
    let merged = merge_sessions(vec![s1.clone()], vec![s2.clone()]);
    // The remote record has the same key and started no earlier: it stays.
    assert_eq!(merged.len(), 1);
    assert_eq!(merged[0].distraction_attempts(), 5);
}

#[test]
fn later_remote_record_wins_on_collision() {
    let t = Timestamp::new(1_700_000_000, 0);
    let t_plus_1 = Timestamp::new(1_700_000_000, 1);
    let local = FocusSession::restore(SessionId(1), t, None, names(&["editor"]), 3).unwrap();
    let remote = FocusSession::restore(SessionId(2), t_plus_1, None, names(&["editor"]), 7).unwrap();
    let merged = merge_sessions(vec![local], vec![remote]);
    assert_eq!(merged.len(), 1);
    assert_eq!(merged[0].distraction_attempts(), 7);
    assert_eq!(merged[0].id(), SessionId(2));
}

#[test]
fn newer_local_record_stays_on_collision() {
    let t = Timestamp::new(1_700_000_000, 500);
    let earlier = Timestamp::new(1_700_000_000, 499);
    let local = FocusSession::restore(SessionId(1), t, None, names(&["editor"]), 3).unwrap();
    let remote = FocusSession::restore(SessionId(2), earlier, None, names(&["editor"]), 7).unwrap();
    let merged = merge_sessions(vec![local], vec![remote]);
    assert_eq!(merged.len(), 1);
    assert_eq!(merged[0].distraction_attempts(), 3);
    assert_eq!(merged[0].id(), SessionId(1));
}

fn summary(sessions: &[FocusSession]) -> Vec<(u128, u64, u32, Vec<String>, u32)> {
    sessions
        .iter()
        .map(|s| {
            (
                s.id().0,
                s.start_time().secs,
                s.start_time().nanos,
                s.work_apps().clone(),
                s.distraction_attempts(),
            )
        })
        .collect()
}

#[test]
fn merge_is_idempotent() {
    let a = vec![
        FocusSession::restore(SessionId(1), Timestamp::new(10, 5), None, names(&["x"]), 1).unwrap(),
        FocusSession::restore(SessionId(2), Timestamp::new(20, 0), None, names(&["y"]), 2).unwrap(),
        FocusSession::restore(SessionId(3), Timestamp::new(10, 9), None, names(&["x"]), 3).unwrap(),
    ];
    let b = vec![
        FocusSession::restore(SessionId(4), Timestamp::new(10, 7), None, names(&["x"]), 4).unwrap(),
        FocusSession::restore(SessionId(5), Timestamp::new(30, 0), None, names(&["z"]), 5).unwrap(),
        FocusSession::restore(SessionId(6), Timestamp::new(30, 0), None, names(&["z"]), 6).unwrap(),
        FocusSession::restore(SessionId(7), Timestamp::new(20, 0), None, names(&["y"]), 7).unwrap(),
        FocusSession::restore(SessionId(8), Timestamp::new(30, 0), None, names(&["z", "w"]), 8).unwrap(),
    ];
    let once = merge_sessions(a.clone(), b.clone());
    assert_eq!(
        summary(&once),
        vec![
            (3, 10, 9, names(&["x"]), 3),
            (7, 20, 0, names(&["y"]), 7),
            (6, 30, 0, names(&["z"]), 6),
            (8, 30, 0, names(&["z", "w"]), 8),
        ]
    );
    let twice = merge_sessions(once.clone(), b.clone());
    assert_eq!(summary(&twice), summary(&once));
}

#[test]
fn merge_of_nothing_is_nothing() {
    assert!(merge_sessions(vec![], vec![]).is_empty());
    let only = FocusSession::restore(SessionId(9), Timestamp::new(1, 0), None, vec![], 0).unwrap();
    let merged = merge_sessions(vec![], vec![only.clone()]);
    assert_eq!(summary(&merged), summary(&[only]));
}

#[test]
fn merge_key_joins_apps_with_commas() {
    let session =
        FocusSession::restore(SessionId(1), Timestamp::new(42, 7), None, names(&["a.exe", "b.exe", "c"]), 0)
            .unwrap();
    assert_eq!(session_key(&session), (42, "a.exe,b.exe,c".to_string()));
    let single = FocusSession::with_id(SessionId(1), Timestamp::new(43, 0), names(&["a"]));
    assert_eq!(session_key(&single), (43, "a".to_string()));
    let none = FocusSession::with_id(SessionId(1), Timestamp::new(44, 0), vec![]);
    assert_eq!(session_key(&none), (44, String::new()));
    // The weak key: one application named with a comma collides with two.
    let joined = FocusSession::with_id(SessionId(2), Timestamp::new(42, 0), names(&["a.exe,b.exe", "c"]));
    assert_eq!(session_key(&joined), session_key(&session));
}

#[test]
fn new_session_is_active_and_lists_each_app_once() {
    let start = Timestamp::new(100, 0);
    let session = FocusSession::new(start, names(&["a", "b", "a", "c", "b"]));
    assert!(session.is_active());
    assert_eq!(session.start_time(), &start);
    assert_eq!(session.end_time(), None);
    assert_eq!(session.work_apps(), &names(&["a", "b", "c"]));
    assert_eq!(session.distraction_attempts(), 0);
    assert_eq!(distinct_names(&names(&["x", "x", "X"])), names(&["x", "X"]));
}

#[test]
fn fresh_identities_are_random_and_never_nil() {
    let a = SessionId::generate();
    let b = SessionId::generate();
    let e = EventId::generate();
    assert_ne!(a, b);
    assert_ne!(a.0, e.0);
    for value in [a.0, b.0, e.0] {
        assert_ne!(value, 0);
        assert_eq!(value & 0x0000_0000_0000_f000_c000_0000_0000_0000, 0x0000_0000_0000_4000_8000_0000_0000_0000);
    }
    let s1 = FocusSession::new(Timestamp::new(1, 0), vec![]);
    let s2 = FocusSession::new(Timestamp::new(1, 0), vec![]);
    assert_ne!(s1.id(), s2.id());
    assert_eq!(SessionId::from(7u128), SessionId(7));
    assert_eq!(u128::from(SessionId(7)), 7u128);
}

#[test]
fn restore_refuses_an_end_before_the_start() {
    let start = Timestamp::new(100, 5);
    assert!(FocusSession::restore(SessionId(1), start, Some(Timestamp::new(100, 4)), vec![], 0).is_none());
    assert!(FocusSession::restore(SessionId(1), start, Some(Timestamp::new(99, 999)), vec![], 0).is_none());
    let same = FocusSession::restore(SessionId(1), start, Some(start), vec![], 0).unwrap();
    assert!(!same.is_active());
    assert_eq!(same.end_time(), Some(&start));
}

#[test]
fn finalized_session_stays_finalized() {
    let start = Timestamp::new(100, 0);
    let mut session = FocusSession::with_id(SessionId(1), start, names(&["editor"]));
    assert!(!session.close(Timestamp::new(99, 0)));
    assert!(session.is_active());
    assert!(session.close(Timestamp::new(160, 0)));
    assert!(!session.is_active());
    assert_eq!(session.end_time(), Some(&Timestamp::new(160, 0)));
    // Nothing brings it back: a second close is refused and the mutators
    // leave the end where it is.
    assert!(!session.close(Timestamp::new(200, 0)));
    session.increment_distraction_attempts();
    session.absorb(&AppRules::test_with_rules(names(&["ide"]), vec![]), &names(&["ide"]));
    session.set_id(SessionId(2));
    assert!(!session.is_active());
    assert_eq!(session.end_time(), Some(&Timestamp::new(160, 0)));
}

#[test]
fn distraction_counter_saturates() {
    let mut session =
        FocusSession::restore(SessionId(1), Timestamp::new(1, 0), None, vec![], u32::MAX - 1).unwrap();
    session.increment_distraction_attempts();
    assert_eq!(session.distraction_attempts(), u32::MAX);
    session.increment_distraction_attempts();
    assert_eq!(session.distraction_attempts(), u32::MAX);
}

#[test]
fn absorb_adds_running_work_apps_once_in_order() {
    let rules = AppRules::test_with_rules(names(&["editor", "ide", "term"]), names(&["chat"]));
    let mut session = FocusSession::with_id(SessionId(1), Timestamp::new(1, 0), names(&["ide"]));
    session.absorb(&rules, &names(&["chat", "term", "IDE", "ide", "term", "editor", "other"]));
    assert_eq!(session.work_apps(), &names(&["ide", "term", "IDE", "editor"]));
    let before = session.work_apps().clone();
    session.absorb(&rules, &names(&["chat", "term", "IDE", "ide", "term", "editor", "other"]));
    assert_eq!(session.work_apps(), &before);
}

#[test]
fn identities_are_written_and_read_as_text() {
    let id = SessionId(0xa1a2a3a4b1b2c1c2d1d2d3d4d5d6d7d8);
    assert_eq!(id.to_text(), "a1a2a3a4-b1b2-c1c2-d1d2-d3d4d5d6d7d8");
    assert_eq!(SessionId(0).to_text(), "00000000-0000-0000-0000-000000000000");
    assert_eq!(SessionId(1).to_text(), "00000000-0000-0000-0000-000000000001");
    assert_eq!(SessionId(u128::MAX).to_text(), "ffffffff-ffff-ffff-ffff-ffffffffffff");
    assert_eq!(EventId(0x0123456789abcdef0011223344556677).to_text(), "01234567-89ab-cdef-0011-223344556677");
    assert_eq!(SessionId::parse("a1a2a3a4-b1b2-c1c2-d1d2-d3d4d5d6d7d8"), Some(id));
    assert_eq!(SessionId::parse("A1A2A3A4B1B2C1C2D1D2D3D4D5D6D7D8"), Some(id));
    assert_eq!(SessionId::parse("not an id"), None);
    assert_eq!(SessionId::parse(""), None);
    assert_eq!(EventId::parse("00000000-0000-0000-0000-00000000002a"), Some(EventId(42)));
    assert_eq!(EventId::parse("00000000-0000-0000-0000-00000000002"), None);
    for _ in 0..16 {
        let fresh = SessionId::generate();
        assert_eq!(SessionId::parse(&fresh.to_text()), Some(fresh));
        assert_eq!(fresh.to_text().len(), 36);
    }
}
