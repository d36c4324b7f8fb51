//! The session manager: it owns the active session, the focus bookkeeping
//! and the temporary allowances, and turns each sample of the environment
//! into the next state and the requests to its caller.

use crate::allowance::SnoozeTable;
use crate::apprules::{lowered, with_variants, AppRules, AppRulesFile, Platform};
use crate::clock::Timestamp;
use crate::effects::{effect_views, emit, Effect};
use crate::error::{clock_error_text, SynapseError};
use crate::machine::{any_work_running, ManagerView, Sample, Step};
use crate::names::{join, lists_name, str_eq};
use crate::session::{FocusSession, SessionView};
use crate::tracker::UsageTracker;
use crate::types::{is_random_id, AppUsageEvent, EventId, SessionId};
use vstd::prelude::*;
use vstd::string::StringExecFns;

verus! {

/// What a step hands to the caller.
#[derive(Debug)]
pub struct PollOutcome {
    /// The session that the step ended, for the caller to replicate.
    pub closed_session: Option<FocusSession>,
    /// The requests to carry out, in order.
    pub effects: Vec<Effect>,
}

impl PollOutcome {
    /// The session that the step ended.
    pub open spec fn closed(self) -> Option<SessionView> {
        match self.closed_session {
            Some(session) => Some(session@),
            None => None,
        }
    }

    /// The outcome is that of `step`.
    pub open spec fn matches_step(self, step: Step) -> bool {
        &&& self.closed() == step.closed
        &&& effect_views(self.effects@) == step.effects
    }
}

/// Owns the active session and decides, sample by sample, what becomes of it.
pub struct SessionManager {
    apprules: AppRules,
    current_session: Option<FocusSession>,
    last_distraction_app: Option<String>,
    last_checked_process: Option<String>,
    last_blocked: bool,
    tracker: UsageTracker,
    snoozed: SnoozeTable,
}

/// The texts of an optional string.
pub open spec fn text_of(value: Option<String>) -> Option<Seq<char>> {
    match value {
        Some(text) => Some(text@),
        None => None,
    }
}

/// The view of an optional session.
pub open spec fn session_of(value: Option<FocusSession>) -> Option<SessionView> {
    match value {
        Some(session) => Some(session@),
        None => None,
    }
}

impl View for SessionManager {
    type V = ManagerView;

    closed spec fn view(&self) -> ManagerView {
        ManagerView {
            work: self.apprules.whitelist.deep_view(),
            block: self.apprules.blacklist.deep_view(),
            session: session_of(self.current_session),
            last_distraction_app: text_of(self.last_distraction_app),
            last_checked_process: text_of(self.last_checked_process),
            last_blocked: self.last_blocked,
            tracker: self.tracker@,
            allowances: self.snoozed@,
        }
    }
}

/// Whether some running process is a work application.
pub fn any_work_app_running(rules: &AppRules, running: &Vec<String>) -> (found: bool)
    ensures
        found == any_work_running(rules.whitelist.deep_view(), running.deep_view()),
{
    let mut i: usize = 0;
    while i < running.len()
        invariant
            i <= running.len(),
            forall|k: int|
                0 <= k < i ==> !lists_name(
                    rules.whitelist.deep_view(),
                    #[trigger] running.deep_view()[k],
                ),
        decreases running.len() - i,
    {
        if rules.is_work_app(running[i].as_str()) {
            assert(lists_name(rules.whitelist.deep_view(), running.deep_view()[i as int]));
            return true;
        }
        i += 1;
    }
    false
}

/// Whether `app` counts as blocked at `now` under `rules` and the
/// allowances `snoozed`. An expired allowance of a denied application is
/// dropped.
fn check_blocked(rules: &AppRules, snoozed: &mut SnoozeTable, app: &str, now: Timestamp) -> (blocked:
    bool)
    ensures
        blocked == (lists_name(rules.blacklist.deep_view(), app@) && !crate::allowance::allowed_at(
            old(snoozed)@,
            app@,
            now,
        )),
        final(snoozed)@ == (if lists_name(rules.blacklist.deep_view(), app@) {
            crate::allowance::after_check(old(snoozed)@, app@, now)
        } else {
            old(snoozed)@
        }),
{
    if rules.is_blocked(app) {
        !snoozed.check(app, now)
    } else {
        false
    }
}

/// First part of a step: starts a session where none is active and a work
/// application runs.
fn start_new_session_if_needed(
    rules: &AppRules,
    current: Option<FocusSession>,
    running: &Vec<String>,
    now: Timestamp,
    id: SessionId,
    any_work: bool,
    effects: &mut Vec<Effect>,
) -> (next: Option<FocusSession>)
    requires
        current matches Some(session) ==> session@.wf() && session@.active(),
        any_work == any_work_running(rules.whitelist.deep_view(), running.deep_view()),
    ensures
        next matches Some(session) ==> session@.wf() && session@.active(),
        current is None && any_work_running(rules.whitelist.deep_view(), running.deep_view())
            ==> session_of(next) == Some(
            SessionView::started(
                id,
                now,
                crate::session::gathered(
                    rules.whitelist.deep_view(),
                    Seq::empty(),
                    running.deep_view(),
                ),
            ),
        ) && effect_views(final(effects)@) == effect_views(old(effects)@).push(
            crate::effects::EffectView::InsertSession(session_of(next)->0),
        ),
        !(current is None && any_work_running(rules.whitelist.deep_view(), running.deep_view()))
            ==> session_of(next) == session_of(current) && effect_views(final(effects)@)
            == effect_views(old(effects)@),
{
    if current.is_none() && any_work {
        let none: Vec<String> = Vec::new();
        assert(none.deep_view() =~= Seq::<Seq<char>>::empty());
        let mut session = FocusSession::with_id(id, now, none);
        session.absorb(rules, running);
        let copy = session.clone();
        emit(effects, Effect::InsertSession(copy));
        Some(session)
    } else {
        current
    }
}

/// The text of an optional string slice.
pub open spec fn slice_text(value: Option<&str>) -> Option<Seq<char>> {
    match value {
        Some(text) => Some(text@),
        None => None,
    }
}

/// The sample that a step is given.
pub open spec fn sample_of(
    running: &Vec<String>,
    foreground: Option<&str>,
    now: Timestamp,
    session_id: SessionId,
    event_id: EventId,
) -> Sample {
    Sample {
        running: running.deep_view(),
        foreground: slice_text(foreground),
        now,
        session_id,
        event_id,
    }
}

/// Second part of a step, for a sample with the process `app` in focus.
fn handle_foreground_process(
    rules: &AppRules,
    current: Option<FocusSession>,
    last_distraction_app: Option<String>,
    tracker: &mut UsageTracker,
    snoozed: &mut SnoozeTable,
    running: &Vec<String>,
    app: &str,
    now: Timestamp,
    event_id: EventId,
    effects: &mut Vec<Effect>,
    Ghost(before): Ghost<ManagerView>,
) -> (next: (Option<FocusSession>, Option<String>, bool))
    requires
        current matches Some(session) ==> session@.wf() && session@.active(),
        before.work == rules.whitelist.deep_view(),
        before.block == rules.blacklist.deep_view(),
        before.session == session_of(current),
        before.last_distraction_app == text_of(last_distraction_app),
        before.tracker == old(tracker)@,
        before.allowances == old(snoozed)@,
        !old(tracker)@.clock_behind(now),
    ensures
        next.0 matches Some(session) ==> session@.wf() && session@.active(),
        ({
            let sample = Sample {
                running: running.deep_view(),
                foreground: Some(app@),
                now,
                session_id: SessionId(0),
                event_id,
            };
            let step = before.attended(sample);
            &&& session_of(next.0) == step.state.session
            &&& text_of(next.1) == step.state.last_distraction_app
            &&& next.2 == step.state.last_blocked
            &&& final(tracker)@ == step.state.tracker
            &&& final(snoozed)@ == step.state.allowances
            &&& effect_views(final(effects)@) == effect_views(old(effects)@) + step.effects
        }),
{
    let ghost start_effects = effect_views(effects@);
    let session_id = match &current {
        Some(session) => Some(session.id()),
        None => None,
    };
    let closing = tracker.observe(app, now);
    match closing {
        Ok(Some(interval)) => {
            let was_blocked = check_blocked(rules, snoozed, interval.app.as_str(), now);
            let status = if was_blocked {
                String::from_str("blocked")
            } else {
                String::from_str("allowed")
            };
            let event = AppUsageEvent {
                id: event_id,
                process_name: interval.app,
                status,
                session_id,
                start_time: interval.start_time,
                end_time: interval.end_time,
                duration_secs: interval.duration_secs,
            };
            emit(effects, Effect::InsertUsageEvent(event));
        },
        _ => {},
    }
    let ghost followed = before.followed(app@, now);
    assert(followed.allowances == snoozed@);
    assert(followed.tracker == tracker@);
    let ghost usage_effects = effect_views(effects@);
    assert(usage_effects =~= start_effects + (match before.usage_record(app@, now, event_id) {
        Some(record) => seq![crate::effects::EffectView::InsertUsageEvent(record)],
        None => Seq::empty(),
    }));
    let blocked = check_blocked(rules, snoozed, app, now);
    let repeat = match &last_distraction_app {
        Some(previous) => str_eq(previous.as_str(), app),
        None => false,
    };
    let had_session = current.is_some();
    let next_session = match current {
        Some(session) => {
            let mut session = session;
            if blocked && !repeat {
                session.increment_distraction_attempts();
                emit(effects, Effect::ShowDistractionNotice { app_name: String::from_str(app) });
                emit(
                    effects,
                    Effect::UpdateDistractionCount {
                        id: session.id(),
                        count: session.distraction_attempts(),
                    },
                );
            }
            session.absorb(rules, running);
            Some(session)
        },
        None => None,
    };
    let next_distraction = if !blocked {
        None
    } else if had_session {
        Some(String::from_str(app))
    } else {
        last_distraction_app
    };
    assert(effect_views(effects@) =~= usage_effects + followed.distraction_effects(app@, now));
    assert(effect_views(effects@) =~= start_effects + before.attended(
        Sample {
            running: running.deep_view(),
            foreground: Some(app@),
            now,
            session_id: SessionId(0),
            event_id,
        },
    ).effects);
    (next_session, next_distraction, blocked)
}

/// Third part of a step: ends `session` at `now`.
fn end_session(session: FocusSession, now: Timestamp, effects: &mut Vec<Effect>) -> (closed: FocusSession)
    requires
        session@.wf(),
        session@.active(),
        now.at_or_after(session@.start_time),
    ensures
        closed@ == session@.ended(now),
        effect_views(final(effects)@) == effect_views(old(effects)@).push(
            ManagerView::final_update(session@, now),
        ),
{
    let mut session = session;
    let work_apps = join(session.work_apps(), ",");
    emit(
        effects,
        Effect::UpdateSession {
            id: session.id(),
            end_time: now,
            work_apps,
            distraction_count: session.distraction_attempts(),
        },
    );
    let ended = session.close(now);
    assert(ended);
    session
}

impl SessionManager {
    #[verifier::type_invariant]
    spec fn valid(self) -> bool {
        self.current_session matches Some(session) ==> session@.wf() && session@.active()
    }

    /// A manager under the rules `apprules` that has seen nothing yet.
    pub fn new(apprules: AppRules) -> (manager: SessionManager)
        ensures
            manager@ == ManagerView::initial(
                apprules.whitelist.deep_view(),
                apprules.blacklist.deep_view(),
            ),
            manager@.wf(),
    {
        SessionManager {
            apprules,
            current_session: None,
            last_distraction_app: None,
            last_checked_process: None,
            last_blocked: false,
            tracker: UsageTracker::new(),
            snoozed: SnoozeTable::new(),
        }
    }

    /// One step of the machine on a state that is owned.
    fn advance(
        state: SessionManager,
        running: &Vec<String>,
        foreground: Option<&str>,
        now: Timestamp,
        session_id: SessionId,
        event_id: EventId,
    ) -> (result: (SessionManager, Result<PollOutcome, SynapseError>))
        ensures
            result.0@.wf(),
            result.1 is Err <==> state@.clock_behind(now),
            result.1 matches Err(error) ==> result.0@ == state@ && (error matches SynapseError::Time(
                detail,
            ) && detail@ == clock_error_text()),
            result.1 matches Ok(outcome) ==> result.0@ == state@.polled(
                sample_of(running, foreground, now, session_id, event_id),
            ).state && outcome.matches_step(
                state@.polled(sample_of(running, foreground, now, session_id, event_id)),
            ),
    {
        proof {
            use_type_invariant(&state);
        }
        let ghost before = state@;
        let ghost sample = sample_of(running, foreground, now, session_id, event_id);
        let SessionManager {
            apprules,
            current_session,
            last_distraction_app,
            last_checked_process,
            last_blocked,
            tracker,
            snoozed,
        } = state;
        let session_behind = match &current_session {
            Some(session) => now.is_before(session.start_time()),
            None => false,
        };
        let focus_behind = match tracker.current_app_start() {
            Some(since) => now.is_before(&since),
            None => false,
        };
        if session_behind || focus_behind {
            let same = SessionManager {
                apprules,
                current_session,
                last_distraction_app,
                last_checked_process,
                last_blocked,
                tracker,
                snoozed,
            };
            return (same, Err(SynapseError::clock()));
        }
        let mut tracker = tracker;
        let mut snoozed = snoozed;
        let mut effects: Vec<Effect> = Vec::new();
        assert(effect_views(effects@) =~= Seq::empty());
        let any_work = any_work_app_running(&apprules, running);
        let current = start_new_session_if_needed(&apprules, current_session, running, now, session_id, any_work, &mut effects);
        let ghost first = before.begun(sample);
        assert(effect_views(effects@) =~= first.effects);
        let ghost begun_effects = effect_views(effects@);
        let (current, last_distraction_app, last_checked_process, last_blocked) = match foreground {
            Some(app) => {
                let next = handle_foreground_process(
                    &apprules,
                    current,
                    last_distraction_app,
                    &mut tracker,
                    &mut snoozed,
                    running,
                    app,
                    now,
                    event_id,
                    &mut effects,
                    Ghost(first.state),
                );
                (next.0, next.1, Some(String::from_str(app)), next.2)
            },
            None => {
                tracker.reset();
                (current, None, None, false)
            },
        };
        let ghost second = first.state.attended(sample);
        assert(second == first.state.attended(
            Sample { session_id: SessionId(0), ..sample },
        ));
        assert(effect_views(effects@) =~= begun_effects + second.effects);
        let ghost attended_effects = effect_views(effects@);
        let (current, closed_session) = match current {
            Some(session) => {
                if any_work {
                    (Some(session), None)
                } else {
                    let closed = end_session(session, now, &mut effects);
                    (None, Some(closed))
                }
            },
            None => (None, None),
        };
        let ghost third = second.state.settled(sample);
        assert(effect_views(effects@) =~= attended_effects + third.effects);
        assert(effect_views(effects@) =~= first.effects + second.effects + third.effects);
        let next = SessionManager {
            apprules,
            current_session: current,
            last_distraction_app,
            last_checked_process,
            last_blocked,
            tracker,
            snoozed,
        };
        assert(next@ == third.state);
        (next, Ok(PollOutcome { closed_session, effects }))
    }

    /// A manager to stand in for one whose state has been taken out: it is
    /// under empty rules and has seen nothing.
    fn vacant() -> (manager: SessionManager)
        ensures
            manager@ == ManagerView::initial(Seq::empty(), Seq::empty()),
            manager@.wf(),
    {
        let whitelist: Vec<String> = Vec::new();
        let blacklist: Vec<String> = Vec::new();
        assert(whitelist.deep_view() =~= Seq::<Seq<char>>::empty());
        assert(blacklist.deep_view() =~= Seq::<Seq<char>>::empty());
        SessionManager::new(AppRules { whitelist, blacklist })
    }

    /// One step of the machine, with the identities to use for a session or
    /// a usage record that the step gives rise to.
    ///
    /// `running` holds the names of the running processes, `foreground` the
    /// process in focus where one was found, `now` the instant of the
    /// sample. The step fails, and changes nothing, where `now` lies before
    /// the start of the active session or before the instant at which the
    /// process in focus gained it.
    pub fn poll_with_ids(
        &mut self,
        running: &Vec<String>,
        foreground: Option<&str>,
        now: Timestamp,
        session_id: SessionId,
        event_id: EventId,
    ) -> (result: Result<PollOutcome, SynapseError>)
        ensures
            final(self)@.wf(),
            result is Err <==> old(self)@.clock_behind(now),
            result matches Err(error) ==> final(self)@ == old(self)@ && (error matches SynapseError::Time(
                detail,
            ) && detail@ == clock_error_text()),
            result matches Ok(outcome) ==> final(self)@ == old(self)@.polled(
                sample_of(running, foreground, now, session_id, event_id),
            ).state && outcome.matches_step(
                old(self)@.polled(sample_of(running, foreground, now, session_id, event_id)),
            ),
    {
        let mut state = Self::vacant();
        core::mem::swap(self, &mut state);
        let (next, result) = Self::advance(state, running, foreground, now, session_id, event_id);
        *self = next;
        result
    }

    /// Whether a process is known to be in focus, so that a usage interval
    /// is running.
    pub fn tracks_focus(&self) -> (tracking: bool)
        ensures
            tracking == self@.tracker.current is Some,
    {
        self.tracker.current_app().is_some()
    }

    /// One step of the machine. A session that the step starts and a usage
    /// record that it asks to store get newly drawn identities; none is
    /// drawn where the step can start no session or close no interval.
    pub fn poll(&mut self, running: &Vec<String>, foreground: Option<&str>, now: Timestamp) -> (result:
        Result<PollOutcome, SynapseError>)
        ensures
            final(self)@.wf(),
            result is Err <==> old(self)@.clock_behind(now),
            result matches Err(error) ==> final(self)@ == old(self)@ && (error matches SynapseError::Time(
                detail,
            ) && detail@ == clock_error_text()),
            result matches Ok(outcome) ==> exists|session_id: SessionId, event_id: EventId|
                {
                    &&& old(self)@.session is None ==> is_random_id(session_id.0)
                    &&& old(self)@.tracker.current is Some ==> is_random_id(event_id.0)
                    &&& final(self)@ == old(self)@.polled(
                        #[trigger] sample_of(running, foreground, now, session_id, event_id),
                    ).state
                    &&& outcome.matches_step(
                        old(self)@.polled(sample_of(running, foreground, now, session_id, event_id)),
                    )
                },
    {
        let session_id = if self.session_id().is_none() {
            SessionId::generate()
        } else {
            SessionId(0)
        };
        let event_id = if self.tracks_focus() {
            EventId::generate()
        } else {
            EventId(0)
        };
        self.poll_with_ids(running, foreground, now, session_id, event_id)
    }

    /// Ends the active session at `now`, if there is one, and hands it out.
    /// The call fails, and changes nothing, where `now` lies before the
    /// start of the session.
    pub fn end_active_session(&mut self, now: Timestamp) -> (result: Result<PollOutcome, SynapseError>)
        ensures
            final(self)@.wf(),
            result is Err <==> (old(self)@.session matches Some(session) && now.before(
                session.start_time,
            )),
            result matches Err(error) ==> error matches SynapseError::Time(detail) && detail@
                == clock_error_text(),
            final(self)@ == old(self)@.ended_on_request(now).state,
            result matches Ok(outcome) ==> outcome.matches_step(old(self)@.ended_on_request(now)),
    {
        proof {
            use_type_invariant(&*self);
        }
        let mut effects: Vec<Effect> = Vec::new();
        assert(effect_views(effects@) =~= Seq::empty());
        let mut current: Option<FocusSession> = None;
        core::mem::swap(&mut self.current_session, &mut current);
        match current {
            Some(session) => {
                if now.is_before(session.start_time()) {
                    self.current_session = Some(session);
                    Err(SynapseError::clock())
                } else {
                    let closed = end_session(session, now, &mut effects);
                    assert(effect_views(effects@) =~= old(self)@.finished(now).effects);
                    Ok(PollOutcome { closed_session: Some(closed), effects })
                }
            },
            None => Ok(PollOutcome { closed_session: None, effects }),
        }
    }

    /// The final step on a state that is owned.
    fn wind_up(state: SessionManager, now: Timestamp, event_id: EventId) -> (result: (
        SessionManager,
        Result<PollOutcome, SynapseError>,
    ))
        ensures
            result.0@.wf(),
            result.1 is Err <==> state@.clock_behind(now),
            result.1 matches Err(error) ==> error matches SynapseError::Time(detail) && detail@
                == clock_error_text(),
            result.0@ == state@.shut_down(now, event_id).state,
            result.1 matches Ok(outcome) ==> outcome.matches_step(state@.shut_down(now, event_id)),
    {
        proof {
            use_type_invariant(&state);
        }
        let ghost before = state@;
        let SessionManager {
            apprules,
            current_session,
            last_distraction_app,
            last_checked_process,
            last_blocked,
            tracker,
            snoozed,
        } = state;
        let session_behind = match &current_session {
            Some(session) => now.is_before(session.start_time()),
            None => false,
        };
        let focus_behind = match tracker.current_app_start() {
            Some(since) => now.is_before(&since),
            None => false,
        };
        if session_behind || focus_behind {
            let same = SessionManager {
                apprules,
                current_session,
                last_distraction_app,
                last_checked_process,
                last_blocked,
                tracker,
                snoozed,
            };
            return (same, Err(SynapseError::clock()));
        }
        let mut tracker = tracker;
        let mut snoozed = snoozed;
        let mut effects: Vec<Effect> = Vec::new();
        assert(effect_views(effects@) =~= Seq::empty());
        let session_id = match &current_session {
            Some(session) => Some(session.id()),
            None => None,
        };
        match tracker.finalize(now) {
            Ok(Some(interval)) => {
                let was_blocked = check_blocked(&apprules, &mut snoozed, interval.app.as_str(), now);
                let status = if was_blocked {
                    String::from_str("blocked")
                } else {
                    String::from_str("allowed")
                };
                let event = AppUsageEvent {
                    id: event_id,
                    process_name: interval.app,
                    status,
                    session_id,
                    start_time: interval.start_time,
                    end_time: interval.end_time,
                    duration_secs: interval.duration_secs,
                };
                emit(&mut effects, Effect::InsertUsageEvent(event));
            },
            _ => {},
        }
        let ghost usage_effects = effect_views(effects@);
        assert(usage_effects =~= match before.last_usage_record(now, event_id) {
            Some(record) => seq![crate::effects::EffectView::InsertUsageEvent(record)],
            None => Seq::empty(),
        });
        let closed_session = match current_session {
            Some(session) => Some(end_session(session, now, &mut effects)),
            None => None,
        };
        assert(effect_views(effects@) =~= before.shut_down(now, event_id).effects);
        let next = SessionManager {
            apprules,
            current_session: None,
            last_distraction_app,
            last_checked_process,
            last_blocked,
            tracker,
            snoozed,
        };
        (next, Ok(PollOutcome { closed_session, effects }))
    }

    /// The final step before the process exits, with the identity to use
    /// for the usage record: the running usage interval is closed and
    /// recorded, then the active session is ended and handed out. The call
    /// fails, and changes nothing, where `now` lies before an instant that
    /// the manager holds.
    pub fn shutdown_with_id(&mut self, now: Timestamp, event_id: EventId) -> (result: Result<
        PollOutcome,
        SynapseError,
    >)
        ensures
            final(self)@.wf(),
            result is Err <==> old(self)@.clock_behind(now),
            result matches Err(error) ==> error matches SynapseError::Time(detail) && detail@
                == clock_error_text(),
            final(self)@ == old(self)@.shut_down(now, event_id).state,
            result matches Ok(outcome) ==> outcome.matches_step(old(self)@.shut_down(now, event_id)),
    {
        let mut state = Self::vacant();
        core::mem::swap(self, &mut state);
        let (next, result) = Self::wind_up(state, now, event_id);
        *self = next;
        result
    }

    /// The final step before the process exits. The usage record that it
    /// asks to store gets a newly drawn identity.
    pub fn shutdown(&mut self, now: Timestamp) -> (result: Result<PollOutcome, SynapseError>)
        ensures
            final(self)@.wf(),
            result is Err <==> old(self)@.clock_behind(now),
            result matches Err(error) ==> error matches SynapseError::Time(detail) && detail@
                == clock_error_text(),
            exists|event_id: EventId|
                {
                    &&& old(self)@.tracker.current is Some ==> is_random_id(event_id.0)
                    &&& final(self)@ == (#[trigger] old(self)@.shut_down(now, event_id)).state
                    &&& result matches Ok(outcome) ==> outcome.matches_step(
                        old(self)@.shut_down(now, event_id),
                    )
                },
    {
        let event_id = if self.tracks_focus() {
            EventId::generate()
        } else {
            EventId(0)
        };
        self.shutdown_with_id(now, event_id)
    }

    /// Takes note that no process is in focus: what is known of the focus is
    /// forgotten, without a usage record, and the session stays as it is.
    pub fn handle_no_foreground_process(&mut self)
        ensures
            final(self)@ == old(self)@.unfocused(),
            final(self)@.wf(),
    {
        proof {
            use_type_invariant(&*self);
        }
        self.last_checked_process = None;
        self.last_blocked = false;
        self.last_distraction_app = None;
        let mut tracker = UsageTracker::new();
        core::mem::swap(&mut self.tracker, &mut tracker);
    }

    /// Grants `name` an allowance of `duration_secs` seconds from `now` on:
    /// until it expires, the application does not count as blocked.
    pub fn snooze_app(&mut self, name: &str, duration_secs: u64, now: Timestamp)
        ensures
            final(self)@ == old(self)@.snoozed(name@, duration_secs, now),
            final(self)@.wf(),
    {
        proof {
            use_type_invariant(&*self);
        }
        let mut table = SnoozeTable::new();
        core::mem::swap(&mut self.snoozed, &mut table);
        table.snooze(name, duration_secs, now);
        self.snoozed = table;
    }

    /// Whether `name` counts as blocked at `now`: it is on the deny list and
    /// holds no allowance that covers `now`. An expired allowance of a
    /// denied application is dropped.
    pub fn is_blocked(&mut self, name: &str, now: Timestamp) -> (blocked: bool)
        ensures
            blocked == old(self)@.blocked_at(name@, now),
            final(self)@ == old(self)@.checked(name@, now),
            final(self)@.wf(),
    {
        proof {
            use_type_invariant(&*self);
        }
        let mut table = SnoozeTable::new();
        core::mem::swap(&mut self.snoozed, &mut table);
        let blocked = check_blocked(&self.apprules, &mut table, name, now);
        self.snoozed = table;
        blocked
    }

    /// Puts the rules `rules` in force. The session, the focus bookkeeping
    /// and the allowances stay as they are.
    pub fn set_apprules(&mut self, rules: AppRules)
        ensures
            final(self)@ == (ManagerView {
                work: rules.whitelist.deep_view(),
                block: rules.blacklist.deep_view(),
                ..old(self)@
            }),
            final(self)@.wf(),
    {
        proof {
            use_type_invariant(&*self);
        }
        self.apprules = rules;
    }

    /// Takes what loading the rule file gave. Rules that were read are put
    /// in force; a file that could not be read or understood leaves the
    /// rules in force as they are, and the failure is handed back.
    pub fn reload_rules(&mut self, loaded: Result<AppRulesFile, String>, platform: Platform) -> (result:
        Result<(), SynapseError>)
        ensures
            final(self)@.wf(),
            match loaded {
                Ok(file) => result is Ok && final(self)@ == (ManagerView {
                    work: with_variants(lowered(file.whitelist.deep_view()), platform),
                    block: with_variants(lowered(file.blacklist.deep_view()), platform),
                    ..old(self)@
                }),
                Err(reason) => final(self)@ == old(self)@ && (result matches Err(
                    SynapseError::Config(detail),
                ) && detail@ == "Failed to load apprules.json: "@ + reason@),
            },
    {
        proof {
            use_type_invariant(&*self);
        }
        match loaded {
            Ok(file) => {
                self.set_apprules(AppRules::from_file(file, platform));
                Ok(())
            },
            Err(reason) => Err(
                SynapseError::Config(
                    String::from_str("Failed to load apprules.json: ").concat(reason.as_str()),
                ),
            ),
        }
    }

    /// The rules in force.
    pub fn apprules(&self) -> (rules: &AppRules)
        ensures
            rules.whitelist.deep_view() == self@.work,
            rules.blacklist.deep_view() == self@.block,
    {
        &self.apprules
    }

    /// The process that had the focus at the last sample.
    pub fn last_checked_process(&self) -> (process: Option<&String>)
        ensures
            match process {
                Some(name) => Some(name@),
                None => None,
            } == self@.last_checked_process,
    {
        match &self.last_checked_process {
            Some(name) => Some(name),
            None => None,
        }
    }

    /// Whether the process that had the focus at the last sample was blocked.
    pub fn last_blocked(&self) -> (blocked: bool)
        ensures
            blocked == self@.last_blocked,
    {
        self.last_blocked
    }

    /// The active session, if there is one.
    pub fn current_session(&self) -> (session: Option<&FocusSession>)
        ensures
            match session {
                Some(current) => Some(current@),
                None => None,
            } == self@.session,
            self@.wf(),
    {
        proof {
            use_type_invariant(self);
        }
        match &self.current_session {
            Some(current) => Some(current),
            None => None,
        }
    }

    /// The identity of the active session, if there is one.
    pub fn session_id(&self) -> (id: Option<SessionId>)
        ensures
            id == self@.session_id(),
    {
        match &self.current_session {
            Some(current) => Some(current.id()),
            None => None,
        }
    }

    /// Records `name` as the process that had the focus at the last sample.
    pub fn set_last_checked_process(&mut self, name: String)
        ensures
            final(self)@ == (ManagerView { last_checked_process: Some(name@), ..old(self)@ }),
    {
        proof {
            use_type_invariant(&*self);
        }
        self.last_checked_process = Some(name);
    }

    /// Records whether the process that had the focus at the last sample
    /// was blocked.
    pub fn set_last_blocked(&mut self, blocked: bool)
        ensures
            final(self)@ == (ManagerView { last_blocked: blocked, ..old(self)@ }),
    {
        proof {
            use_type_invariant(&*self);
        }
        self.last_blocked = blocked;
    }

    /// Makes `session` the active session. A session that has ended is not
    /// taken: the manager then stays as it is.
    pub fn set_current_session(&mut self, session: FocusSession)
        ensures
            final(self)@ == (if session@.active() {
                ManagerView { session: Some(session@), ..old(self)@ }
            } else {
                old(self)@
            }),
            final(self)@.wf(),
    {
        proof {
            use_type_invariant(&*self);
        }
        if session.is_active() {
            self.current_session = Some(session);
        }
    }

    /// Puts the active session, if there is one, under the identity `id`.
    pub fn set_session_id(&mut self, id: SessionId)
        ensures
            final(self)@ == (match old(self)@.session {
                Some(session) => ManagerView {
                    session: Some(SessionView { id, ..session }),
                    ..old(self)@
                },
                None => old(self)@,
            }),
            final(self)@.wf(),
    {
        proof {
            use_type_invariant(&*self);
        }
        let mut current: Option<FocusSession> = None;
        core::mem::swap(&mut self.current_session, &mut current);
        match current {
            Some(session) => {
                let mut session = session;
                session.set_id(id);
                self.current_session = Some(session);
            },
            None => {},
        }
    }

    /// Counts one distraction in the active session, if there is one.
    pub fn record_distraction(&mut self)
        ensures
            final(self)@ == (match old(self)@.session {
                Some(session) => ManagerView { session: Some(session.distracted()), ..old(self)@ },
                None => old(self)@,
            }),
            final(self)@.wf(),
    {
        proof {
            use_type_invariant(&*self);
        }
        let mut current: Option<FocusSession> = None;
        core::mem::swap(&mut self.current_session, &mut current);
        match current {
            Some(session) => {
                let mut session = session;
                session.increment_distraction_attempts();
                self.current_session = Some(session);
            },
            None => {},
        }
    }
}

} // verus!
