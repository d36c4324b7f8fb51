//! The session state machine as a mathematical model: the state of a session
//! manager, what one sample of the environment does to it, and the laws that
//! hold of every step.

use crate::allowance::{after_check, after_snooze, allowed_at, Allowances};
use crate::clock::Timestamp;
use crate::effects::EffectView;
use crate::names::{joined, lists_name};
use crate::session::{gathered, lemma_gathered, SessionView};
use crate::tracker::TrackerView;
use crate::types::{status_text, EventId, SessionId, UsageEventView};
use vstd::prelude::*;

verus! {

/// The state of a session manager.
pub ghost struct ManagerView {
    /// The allow list of the rules in force.
    pub work: Seq<Seq<char>>,
    /// The deny list of the rules in force.
    pub block: Seq<Seq<char>>,
    /// The active session, if there is one.
    pub session: Option<SessionView>,
    /// The blocked application that was detected last, until an application
    /// that is not blocked takes the focus.
    pub last_distraction_app: Option<Seq<char>>,
    /// The process that had the focus at the last sample.
    pub last_checked_process: Option<Seq<char>>,
    /// Whether that process was blocked.
    pub last_blocked: bool,
    /// The focus bookkeeping.
    pub tracker: TrackerView,
    /// The temporary allowances.
    pub allowances: Allowances,
}

/// One sample of the environment, with the identities to use for a session
/// or a usage record that the sample gives rise to.
pub ghost struct Sample {
    /// The names of the running processes.
    pub running: Seq<Seq<char>>,
    /// The process in focus, if one was found.
    pub foreground: Option<Seq<char>>,
    /// The instant of the sample.
    pub now: Timestamp,
    pub session_id: SessionId,
    pub event_id: EventId,
}

/// The result of a step: the new state, the requests to the caller in the
/// order in which they are to be carried out, and the session that the step
/// ended.
pub ghost struct Step {
    pub state: ManagerView,
    pub effects: Seq<EffectView>,
    pub closed: Option<SessionView>,
}

/// Some running process is a work application.
pub open spec fn any_work_running(work: Seq<Seq<char>>, running: Seq<Seq<char>>) -> bool {
    exists|i: int| 0 <= i < running.len() && lists_name(work, #[trigger] running[i])
}

impl ManagerView {
    /// A manager that has seen nothing yet.
    pub open spec fn initial(work: Seq<Seq<char>>, block: Seq<Seq<char>>) -> ManagerView {
        ManagerView {
            work,
            block,
            session: None,
            last_distraction_app: None,
            last_checked_process: None,
            last_blocked: false,
            tracker: TrackerView::idle(),
            allowances: Map::empty(),
        }
    }

    /// The session held is well formed and has not ended.
    pub open spec fn wf(self) -> bool {
        self.session matches Some(session) ==> session.wf() && session.active()
    }

    /// The identity of the active session.
    pub open spec fn session_id(self) -> Option<SessionId> {
        match self.session {
            Some(session) => Some(session.id),
            None => None,
        }
    }

    /// `app` counts as blocked at `now`: it is on the deny list and holds no
    /// allowance that covers `now`.
    pub open spec fn blocked_at(self, app: Seq<char>, now: Timestamp) -> bool {
        lists_name(self.block, app) && !allowed_at(self.allowances, app, now)
    }

    /// The state after `app` was checked at `now`: an expired allowance of a
    /// denied application is dropped.
    pub open spec fn checked(self, app: Seq<char>, now: Timestamp) -> ManagerView {
        if lists_name(self.block, app) {
            ManagerView { allowances: after_check(self.allowances, app, now), ..self }
        } else {
            self
        }
    }

    /// The state after `app` was snoozed at `now` for `duration_secs` seconds.
    pub open spec fn snoozed(self, app: Seq<char>, duration_secs: u64, now: Timestamp) -> ManagerView {
        ManagerView { allowances: after_snooze(self.allowances, app, duration_secs, now), ..self }
    }

    /// `now` lies before the start of the active session, or before the
    /// instant at which the process in focus gained it.
    pub open spec fn clock_behind(self, now: Timestamp) -> bool {
        (self.session matches Some(session) && now.before(session.start_time))
            || self.tracker.clock_behind(now)
    }

    /// The sample starts a session: none is active and a work application runs.
    pub open spec fn starts_session(self, running: Seq<Seq<char>>) -> bool {
        self.session is None && any_work_running(self.work, running)
    }

    /// First part of a step: a session starts where none is active and a
    /// work application runs. It holds the running work applications.
    pub open spec fn begun(self, sample: Sample) -> Step {
        if self.starts_session(sample.running) {
            let session = SessionView::started(
                sample.session_id,
                sample.now,
                gathered(self.work, Seq::empty(), sample.running),
            );
            Step {
                state: ManagerView { session: Some(session), ..self },
                effects: seq![EffectView::InsertSession(session)],
                closed: None,
            }
        } else {
            Step { state: self, effects: Seq::empty(), closed: None }
        }
    }

    /// The state after a sample without a process in focus: what is known
    /// of the focus is forgotten, the session stays as it is.
    pub open spec fn unfocused(self) -> ManagerView {
        ManagerView {
            last_distraction_app: None,
            last_checked_process: None,
            last_blocked: false,
            tracker: TrackerView::idle(),
            ..self
        }
    }

    /// The record of the usage interval that `app` in focus at `now` closes.
    /// Its status is that of the application at `now`.
    pub open spec fn usage_record(self, app: Seq<char>, now: Timestamp, id: EventId) -> Option<
        UsageEventView,
    > {
        match self.tracker.observed_interval(app, now) {
            Some(interval) => Some(
                UsageEventView {
                    id,
                    process_name: interval.app,
                    status: status_text(self.blocked_at(interval.app, now)),
                    session_id: self.session_id(),
                    start_time: interval.start_time,
                    end_time: interval.end_time,
                    duration_secs: interval.duration_secs,
                },
            ),
            None => None,
        }
    }

    /// The state after the focus bookkeeping has seen `app` at `now`.
    pub open spec fn followed(self, app: Seq<char>, now: Timestamp) -> ManagerView {
        let seen = ManagerView { tracker: self.tracker.observed(app, now), ..self };
        match self.tracker.observed_interval(app, now) {
            Some(interval) => seen.checked(interval.app, now),
            None => seen,
        }
    }

    /// `app` in focus at `now` is a distraction that counts: it is blocked,
    /// a session is active, and it is not the blocked application that was
    /// detected last.
    pub open spec fn counts_distraction(self, app: Seq<char>, now: Timestamp) -> bool {
        &&& self.blocked_at(app, now)
        &&& self.session is Some
        &&& self.last_distraction_app != Some(app)
    }

    /// The state after `app` in focus at `now` was classified.
    pub open spec fn classified(self, app: Seq<char>, now: Timestamp) -> ManagerView {
        let blocked = self.blocked_at(app, now);
        ManagerView {
            session: if self.counts_distraction(app, now) {
                Some(self.session->0.distracted())
            } else {
                self.session
            },
            last_distraction_app: if !blocked {
                None
            } else if self.session is Some {
                Some(app)
            } else {
                self.last_distraction_app
            },
            last_checked_process: Some(app),
            last_blocked: blocked,
            ..self.checked(app, now)
        }
    }

    /// The requests that a counted distraction by `app` gives rise to: the
    /// notice, then the new count.
    pub open spec fn distraction_effects(self, app: Seq<char>, now: Timestamp) -> Seq<EffectView> {
        if self.counts_distraction(app, now) {
            seq![
                EffectView::ShowDistractionNotice { app_name: app },
                EffectView::UpdateDistractionCount {
                    id: self.session->0.id,
                    count: self.session->0.distracted().distraction_attempts,
                },
            ]
        } else {
            Seq::empty()
        }
    }

    /// The state after the active session has taken note of the running
    /// work applications.
    pub open spec fn gathering(self, running: Seq<Seq<char>>) -> ManagerView {
        match self.session {
            Some(session) => ManagerView {
                session: Some(
                    SessionView {
                        work_apps: gathered(self.work, session.work_apps, running),
                        ..session
                    },
                ),
                ..self
            },
            None => self,
        }
    }

    /// Second part of a step: the process in focus is fed to the focus
    /// bookkeeping and classified, and the session takes note of the
    /// running work applications.
    pub open spec fn attended(self, sample: Sample) -> Step {
        match sample.foreground {
            None => Step { state: self.unfocused(), effects: Seq::empty(), closed: None },
            Some(app) => {
                let usage = match self.usage_record(app, sample.now, sample.event_id) {
                    Some(record) => seq![EffectView::InsertUsageEvent(record)],
                    None => Seq::empty(),
                };
                let followed = self.followed(app, sample.now);
                Step {
                    state: followed.classified(app, sample.now).gathering(sample.running),
                    effects: usage + followed.distraction_effects(app, sample.now),
                    closed: None,
                }
            },
        }
    }

    /// The sample ends the session: one is active and no work application runs.
    pub open spec fn ends_session(self, running: Seq<Seq<char>>) -> bool {
        self.session is Some && !any_work_running(self.work, running)
    }

    /// The request that stores the final state of `session`.
    pub open spec fn final_update(session: SessionView, end: Timestamp) -> EffectView {
        EffectView::UpdateSession {
            id: session.id,
            end_time: end,
            work_apps: joined(session.work_apps, ","@),
            distraction_count: session.distraction_attempts,
        }
    }

    /// The active session ended at `now`, if there is one.
    pub open spec fn finished(self, now: Timestamp) -> Step {
        match self.session {
            Some(session) => Step {
                state: ManagerView { session: None, ..self },
                effects: seq![Self::final_update(session, now)],
                closed: Some(session.ended(now)),
            },
            None => Step { state: self, effects: Seq::empty(), closed: None },
        }
    }

    /// Third part of a step: the session ends where no work application
    /// runs any more.
    pub open spec fn settled(self, sample: Sample) -> Step {
        if self.ends_session(sample.running) {
            self.finished(sample.now)
        } else {
            Step { state: self, effects: Seq::empty(), closed: None }
        }
    }

    /// The record of the running usage interval, closed at `now`.
    pub open spec fn last_usage_record(self, now: Timestamp, id: EventId) -> Option<UsageEventView> {
        match self.tracker.current {
            Some(focus) => Some(
                UsageEventView {
                    id,
                    process_name: focus.app,
                    status: status_text(self.blocked_at(focus.app, now)),
                    session_id: self.session_id(),
                    start_time: focus.since.secs,
                    end_time: now.secs,
                    duration_secs: (now.secs - focus.since.secs) as u64,
                },
            ),
            None => None,
        }
    }

    /// The active session ended on request at `now`. A request whose
    /// instant lies before the start of the session changes nothing.
    pub open spec fn ended_on_request(self, now: Timestamp) -> Step {
        if self.session matches Some(session) && now.before(session.start_time) {
            Step { state: self, effects: Seq::empty(), closed: None }
        } else {
            self.finished(now)
        }
    }

    /// The final step before the process exits: the running usage interval
    /// is closed and recorded, then the active session is ended. A request
    /// whose instant lies before one that the state holds changes nothing.
    pub open spec fn shut_down(self, now: Timestamp, event_id: EventId) -> Step {
        if self.clock_behind(now) {
            Step { state: self, effects: Seq::empty(), closed: None }
        } else {
            let usage = match self.last_usage_record(now, event_id) {
                Some(record) => seq![EffectView::InsertUsageEvent(record)],
                None => Seq::empty(),
            };
            let checked = match self.tracker.current {
                Some(focus) => self.checked(focus.app, now),
                None => self,
            };
            let last = (ManagerView { tracker: TrackerView::idle(), ..checked }).finished(now);
            Step { state: last.state, effects: usage + last.effects, closed: last.closed }
        }
    }

    /// One step of the machine. A sample whose instant lies before one that
    /// the state holds is skipped: it changes nothing and asks for nothing.
    pub open spec fn polled(self, sample: Sample) -> Step {
        if self.clock_behind(sample.now) {
            Step { state: self, effects: Seq::empty(), closed: None }
        } else {
            let first = self.begun(sample);
            let second = first.state.attended(sample);
            let third = second.state.settled(sample);
            Step {
                state: third.state,
                effects: first.effects + second.effects + third.effects,
                closed: third.closed,
            }
        }
    }
}

/// The session as a step leaves it: the one it ended, or else the one that
/// is active after it.
pub open spec fn session_after(step: Step) -> Option<SessionView> {
    if step.closed is Some {
        step.closed
    } else {
        step.state.session
    }
}

/// A step leaves a well-formed state behind, and a session that it hands
/// out is well formed and has ended at the instant of the sample.
pub proof fn lemma_step_keeps_wf(state: ManagerView, sample: Sample)
    requires
        state.wf(),
    ensures
        state.polled(sample).state.wf(),
        state.polled(sample).closed matches Some(closed) ==> closed.wf() && closed.end_time == Some(
            sample.now,
        ) && state.polled(sample).state.session is None,
{
    if !state.clock_behind(sample.now) {
        let first = state.begun(sample);
        lemma_gathered(state.work, Seq::empty(), sample.running);
        assert(first.state.wf());
        let second = first.state.attended(sample);
        if let Some(session) = first.state.session {
            lemma_gathered(state.work, session.work_apps, sample.running);
            lemma_gathered(state.work, session.distracted().work_apps, sample.running);
        }
        assert(second.state.wf());
    }
}

/// Debounce: within a session the distraction counter never goes down, and
/// a step raises it, by one, only where the process in focus is blocked and
/// is not the blocked application that was detected last.
pub proof fn lemma_counter_rises_only_on_new_detection(state: ManagerView, sample: Sample)
    requires
        state.wf(),
        !state.clock_behind(sample.now),
    ensures
        ({
            let before = state.begun(sample).state.session;
            let after = session_after(state.polled(sample));
            &&& before is Some <==> after is Some
            &&& before matches Some(old_session) ==> {
                let new_session = after->0;
                &&& new_session.id == old_session.id
                &&& new_session.start_time == old_session.start_time
                &&& old_session.distraction_attempts <= new_session.distraction_attempts
                    <= old_session.distraction_attempts + 1
                &&& old_session.distraction_attempts < new_session.distraction_attempts ==> (
                sample.foreground matches Some(app) && state.blocked_at(app, sample.now)
                    && state.last_distraction_app != Some(app))
            }
        }),
{
    let first = state.begun(sample);
    if let Some(app) = sample.foreground {
        let followed = first.state.followed(app, sample.now);
        assert(followed.blocked_at(app, sample.now) == state.blocked_at(app, sample.now));
    }
}

/// A step asks for the distraction notice at most once, and exactly where
/// it counts a distraction: where the process in focus is blocked, a
/// session is active and the process is not the blocked application that
/// was detected last. The notice names that process.
#[verifier::rlimit(40)]
pub proof fn lemma_one_notice_per_detection(state: ManagerView, sample: Sample, i: int, j: int)
    requires
        state.wf(),
        !state.clock_behind(sample.now),
        0 <= i < state.polled(sample).effects.len(),
        0 <= j < state.polled(sample).effects.len(),
    ensures
        state.polled(sample).effects[i] matches EffectView::ShowDistractionNotice { app_name } ==> {
            &&& sample.foreground == Some(app_name)
            &&& state.blocked_at(app_name, sample.now)
            &&& state.last_distraction_app != Some(app_name)
            &&& state.begun(sample).state.session is Some
            &&& (state.polled(sample).effects[j] is ShowDistractionNotice ==> i == j)
        },
        (sample.foreground matches Some(app) && state.blocked_at(app, sample.now)
            && state.last_distraction_app != Some(app) && state.begun(sample).state.session is Some)
            ==> exists|k: int|
            0 <= k < state.polled(sample).effects.len() && #[trigger] state.polled(sample).effects[k]
                == (EffectView::ShowDistractionNotice { app_name: sample.foreground->0 }),
{
    let first = state.begun(sample);
    let second = first.state.attended(sample);
    let third = second.state.settled(sample);
    let all = state.polled(sample).effects;
    if let Some(app) = sample.foreground {
        let followed = first.state.followed(app, sample.now);
        assert(followed.blocked_at(app, sample.now) == state.blocked_at(app, sample.now));
        let usage = match first.state.usage_record(app, sample.now, sample.event_id) {
            Some(record) => seq![EffectView::InsertUsageEvent(record)],
            None => Seq::empty(),
        };
        let noticed = followed.distraction_effects(app, sample.now);
        assert(second.effects == usage + noticed);
        if followed.counts_distraction(app, sample.now) {
            let k = first.effects.len() + usage.len();
            assert(all[k as int] == noticed[0]);
        }
    }
}

/// After a step in which a blocked application had the focus during a
/// session, that application is the one detected last; after a step in
/// which the process in focus was not blocked, none is.
pub proof fn lemma_detection_is_remembered(state: ManagerView, sample: Sample, app: Seq<char>)
    requires
        state.wf(),
        !state.clock_behind(sample.now),
        sample.foreground == Some(app),
    ensures
        ({
            let step = state.polled(sample);
            &&& step.state.last_blocked == state.blocked_at(app, sample.now)
            &&& step.state.last_checked_process == Some(app)
            &&& !step.state.last_blocked ==> step.state.last_distraction_app is None
            &&& step.state.last_blocked && session_after(step) is Some
                ==> step.state.last_distraction_app == Some(app)
        }),
{
    let first = state.begun(sample);
    let followed = first.state.followed(app, sample.now);
    assert(followed.blocked_at(app, sample.now) == state.blocked_at(app, sample.now));
}

/// A blocked application that keeps the focus over two samples in a row is
/// counted at most once: the second sample leaves the counter where the
/// first one left it.
pub proof fn lemma_same_app_is_not_counted_twice(
    state: ManagerView,
    first: Sample,
    second: Sample,
    app: Seq<char>,
)
    requires
        state.wf(),
        !state.clock_behind(first.now),
        first.foreground == Some(app),
        second.foreground == Some(app),
        state.polled(first).state.last_blocked,
        state.polled(first).state.session is Some,
    ensures
        session_after(state.polled(first).state.polled(second)) matches Some(session)
            && session.distraction_attempts == state.polled(
            first,
        ).state.session->0.distraction_attempts,
{
    lemma_step_keeps_wf(state, first);
    lemma_detection_is_remembered(state, first, app);
    let mid = state.polled(first).state;
    assert(mid.last_distraction_app == Some(app));
    if !mid.clock_behind(second.now) {
        lemma_counter_rises_only_on_new_detection(mid, second);
    }
}

/// Every usage record that a step asks to store runs forward: its duration
/// is the distance from its start to its end.
pub proof fn lemma_usage_records_run_forward(state: ManagerView, sample: Sample, i: int)
    requires
        0 <= i < state.polled(sample).effects.len(),
    ensures
        state.polled(sample).effects[i] matches EffectView::InsertUsageEvent(record)
            ==> record.consistent() && record.start_time <= record.end_time,
{
    if !state.clock_behind(sample.now) {
        let first = state.begun(sample);
        let second = first.state.attended(sample);
        let third = second.state.settled(sample);
        if let Some(app) = sample.foreground {
            let followed = first.state.followed(app, sample.now);
            assert(first.state.tracker == state.tracker);
        }
    }
}

/// The usage record that the final step asks to store runs forward.
pub proof fn lemma_last_usage_record_runs_forward(
    state: ManagerView,
    now: Timestamp,
    event_id: EventId,
    i: int,
)
    requires
        0 <= i < state.shut_down(now, event_id).effects.len(),
    ensures
        state.shut_down(now, event_id).effects[i] matches EffectView::InsertUsageEvent(record)
            ==> record.consistent() && record.start_time <= record.end_time,
{
}

/// A session that has ended does not become active again: the state after
/// a step holds the session it held before, still active, or none, or one
/// that the step itself started at the instant of the sample under the
/// identity given for it.
pub proof fn lemma_only_a_start_makes_a_session_active(state: ManagerView, sample: Sample)
    requires
        state.wf(),
    ensures
        ({
            let step = state.polled(sample);
            &&& step.closed matches Some(closed) ==> !closed.active() && step.state.session is None
                && closed.end_time == Some(sample.now)
            &&& step.state.session matches Some(session) ==> session.active() && match state.session {
                Some(held) => session.id == held.id && session.start_time == held.start_time,
                None => session.id == sample.session_id && session.start_time == sample.now
                    && any_work_running(state.work, sample.running),
            }
        }),
{
    lemma_step_keeps_wf(state, sample);
}

/// Snoozing an application makes it count as not blocked at every instant
/// before the end of the allowance, under any spelling of its name. From
/// the end of the allowance on it counts as blocked again exactly when it
/// is on the deny list.
pub proof fn lemma_snoozed_app_is_not_blocked(
    state: ManagerView,
    app: Seq<char>,
    spelling: Seq<char>,
    duration_secs: u64,
    now: Timestamp,
    check: Timestamp,
)
    requires
        crate::names::fold(spelling) == crate::names::fold(app),
    ensures
        check.within(now, duration_secs) ==> !state.snoozed(app, duration_secs, now).blocked_at(
            spelling,
            check,
        ),
        !check.within(now, duration_secs) ==> state.snoozed(app, duration_secs, now).blocked_at(
            spelling,
            check,
        ) == lists_name(state.block, spelling),
{
}

/// While its allowance lasts, a snoozed application in focus is no
/// distraction, under any spelling of its name: the step finds it not
/// blocked, counts nothing, asks for no notice and forgets the blocked
/// application that was detected last.
pub proof fn lemma_snoozed_app_in_focus_is_no_distraction(
    state: ManagerView,
    app: Seq<char>,
    spelling: Seq<char>,
    duration_secs: u64,
    granted: Timestamp,
    sample: Sample,
    i: int,
)
    requires
        state.wf(),
        crate::names::fold(spelling) == crate::names::fold(app),
        sample.foreground == Some(spelling),
        sample.now.within(granted, duration_secs),
        !state.snoozed(app, duration_secs, granted).clock_behind(sample.now),
    ensures
        ({
            let snoozed = state.snoozed(app, duration_secs, granted);
            let step = snoozed.polled(sample);
            &&& !step.state.last_blocked
            &&& step.state.last_checked_process == Some(spelling)
            &&& step.state.last_distraction_app is None
            &&& 0 <= i < step.effects.len() ==> !(step.effects[i] is ShowDistractionNotice) && !(
            step.effects[i] is UpdateDistractionCount)
            &&& snoozed.begun(sample).state.session matches Some(before) ==> session_after(step)
                is Some && session_after(step)->0.distraction_attempts
                == before.distraction_attempts
        }),
{
    let snoozed = state.snoozed(app, duration_secs, granted);
    let first = snoozed.begun(sample);
    let followed = first.state.followed(spelling, sample.now);
    assert(crate::allowance::allowed_at(snoozed.allowances, spelling, sample.now));
    assert(crate::allowance::allowed_at(followed.allowances, spelling, sample.now));
    assert(!followed.blocked_at(spelling, sample.now));
    assert(followed.distraction_effects(spelling, sample.now) =~= Seq::empty());
}

/// From the end of its allowance on, a snoozed application on the deny
/// list is blocked again: in focus during a session, and not the blocked
/// application detected last, it is counted once, the notice is asked for
/// once, with its name, and the expired allowance is dropped.
#[verifier::rlimit(40)]
pub proof fn lemma_expired_allowance_counts_again(
    state: ManagerView,
    app: Seq<char>,
    spelling: Seq<char>,
    duration_secs: u64,
    granted: Timestamp,
    sample: Sample,
)
    requires
        state.wf(),
        crate::names::fold(spelling) == crate::names::fold(app),
        lists_name(state.block, spelling),
        sample.foreground == Some(spelling),
        !sample.now.within(granted, duration_secs),
        !state.snoozed(app, duration_secs, granted).clock_behind(sample.now),
        state.snoozed(app, duration_secs, granted).begun(sample).state.session is Some,
        state.last_distraction_app != Some(spelling),
    ensures
        ({
            let snoozed = state.snoozed(app, duration_secs, granted);
            let before = snoozed.begun(sample).state.session->0;
            let step = snoozed.polled(sample);
            &&& step.state.last_blocked
            &&& step.state.last_distraction_app == Some(spelling)
            &&& !step.state.allowances.contains_key(crate::names::fold(app))
            &&& session_after(step) is Some
            &&& session_after(step)->0.distraction_attempts == before.distracted().distraction_attempts
            &&& exists|k: int|
                0 <= k < step.effects.len() && #[trigger] step.effects[k]
                    == (EffectView::ShowDistractionNotice { app_name: spelling })
            &&& forall|i: int, j: int|
                0 <= i < step.effects.len() && 0 <= j < step.effects.len() && (
                #[trigger] step.effects[i]) is ShowDistractionNotice && (
                #[trigger] step.effects[j]) is ShowDistractionNotice ==> i == j
        }),
{
    let snoozed = state.snoozed(app, duration_secs, granted);
    let step = snoozed.polled(sample);
    let first = snoozed.begun(sample);
    let followed = first.state.followed(spelling, sample.now);
    assert(!crate::allowance::allowed_at(snoozed.allowances, spelling, sample.now));
    assert(!crate::allowance::allowed_at(followed.allowances, spelling, sample.now));
    assert(followed.blocked_at(spelling, sample.now));
    assert(snoozed.blocked_at(spelling, sample.now));
    assert(followed.counts_distraction(spelling, sample.now));
    lemma_gathered(state.work, Seq::empty(), sample.running);
    lemma_step_keeps_wf(snoozed, sample);
    assert forall|i: int, j: int|
        0 <= i < step.effects.len() && 0 <= j < step.effects.len() && (
        #[trigger] step.effects[i]) is ShowDistractionNotice && (
        #[trigger] step.effects[j]) is ShowDistractionNotice implies i == j by {
        lemma_one_notice_per_detection(snoozed, sample, i, j);
    }
    lemma_one_notice_per_detection(snoozed, sample, 0, 0);
}

/// Without a running work application no step starts a session.
pub proof fn lemma_no_work_app_no_session(state: ManagerView, sample: Sample)
    requires
        state.session is None,
        !any_work_running(state.work, sample.running),
    ensures
        state.polled(sample).state.session is None,
        state.polled(sample).closed is None,
{
}

/// The state after the samples of `samples` were fed to the machine one
/// after another.
pub open spec fn after_run(state: ManagerView, samples: Seq<Sample>) -> ManagerView
    decreases samples.len(),
{
    if samples.len() == 0 {
        state
    } else {
        after_run(state, samples.drop_last()).polled(samples.last()).state
    }
}

/// Every state that the machine reaches is well formed, and the rules stay
/// as they are.
pub proof fn lemma_run_keeps_wf(state: ManagerView, samples: Seq<Sample>)
    requires
        state.wf(),
    ensures
        after_run(state, samples).wf(),
        after_run(state, samples).work == state.work,
        after_run(state, samples).block == state.block,
    decreases samples.len(),
{
    if samples.len() > 0 {
        lemma_run_keeps_wf(state, samples.drop_last());
        lemma_step_keeps_wf(after_run(state, samples.drop_last()), samples.last());
    }
}

/// Debounce over a whole run: at every step of every sequence of samples
/// the distraction counter stays or rises by one, and it rises only where
/// the process in focus is blocked and is not the blocked application that
/// was detected last.
pub proof fn lemma_debounce_over_runs(state: ManagerView, samples: Seq<Sample>, i: int)
    requires
        state.wf(),
        0 <= i < samples.len(),
    ensures
        ({
            let reached = after_run(state, samples.take(i));
            let before = reached.begun(samples[i]).state.session;
            let after = session_after(reached.polled(samples[i]));
            (before is Some && after is Some) ==> {
                let old_session = before->0;
                let new_session = after->0;
                &&& new_session.id == old_session.id
                &&& old_session.distraction_attempts <= new_session.distraction_attempts
                    <= old_session.distraction_attempts + 1
                &&& old_session.distraction_attempts < new_session.distraction_attempts ==> (
                samples[i].foreground matches Some(app) && reached.blocked_at(app, samples[i].now)
                    && reached.last_distraction_app != Some(app))
            }
        }),
{
    let reached = after_run(state, samples.take(i));
    lemma_run_keeps_wf(state, samples.take(i));
    if !reached.clock_behind(samples[i].now) {
        lemma_counter_rises_only_on_new_detection(reached, samples[i]);
    } else {
        let step = reached.polled(samples[i]);
        assert(step.state == reached && step.closed is None);
        assert(session_after(step) == reached.session);
        if reached.session is Some {
            assert(reached.begun(samples[i]).state == reached);
        }
    }
}

/// While no work application runs, no sequence of samples starts a
/// session, whatever has the focus.
pub proof fn lemma_no_work_app_never_a_session(state: ManagerView, samples: Seq<Sample>)
    requires
        state.session is None,
        forall|i: int| 0 <= i < samples.len() ==> !any_work_running(state.work, #[trigger] samples[i].running),
    ensures
        after_run(state, samples).session is None,
        after_run(state, samples).work == state.work,
    decreases samples.len(),
{
    if samples.len() > 0 {
        let front = samples.drop_last();
        assert forall|i: int| 0 <= i < front.len() implies !any_work_running(
            state.work,
            #[trigger] front[i].running,
        ) by {
            assert(front[i] == samples[i]);
        }
        lemma_no_work_app_never_a_session(state, front);
        assert(samples.last() == samples[samples.len() - 1]);
        lemma_no_work_app_no_session(after_run(state, front), samples.last());
    }
}

/// The process in focus at sample `i` counts as blocked under the rules
/// and allowances of `state`.
pub open spec fn blocked_in(state: ManagerView, samples: Seq<Sample>, i: int) -> bool {
    samples[i].foreground matches Some(app) && state.blocked_at(app, samples[i].now)
}

/// Sample `i` is a new detection: the process in focus is blocked, and the
/// sample before it did not have the same process in focus, blocked. For
/// the first sample the blocked application that `state` detected last
/// stands for the sample before it.
pub open spec fn detected_anew(state: ManagerView, samples: Seq<Sample>, i: int) -> bool {
    &&& blocked_in(state, samples, i)
    &&& if i == 0 {
        state.last_distraction_app != samples[0].foreground
    } else {
        !(blocked_in(state, samples, i - 1) && samples[i - 1].foreground == samples[i].foreground)
    }
}

/// The number of new detections among the first `n` samples.
pub open spec fn detections(state: ManagerView, samples: Seq<Sample>, n: int) -> nat
    decreases n,
{
    if n <= 0 {
        0
    } else {
        detections(state, samples, n - 1) + (if detected_anew(state, samples, n - 1) {
            1nat
        } else {
            0nat
        })
    }
}

/// A run within one session: a session is active, a work application runs
/// at every sample, and the clock does not run backwards.
pub open spec fn steady_run(state: ManagerView, samples: Seq<Sample>) -> bool {
    &&& state.wf()
    &&& state.session is Some
    &&& forall|i: int|
        0 <= i < samples.len() ==> any_work_running(state.work, #[trigger] samples[i].running)
    &&& samples.len() > 0 ==> !state.clock_behind(samples[0].now)
    &&& forall|i: int|
        0 < i < samples.len() ==> (#[trigger] samples[i]).now.at_or_after(samples[i - 1].now)
}

/// `count` raised by `by`, or the largest count where that is less.
pub open spec fn raised(count: u32, by: nat) -> int {
    if count + by <= u32::MAX {
        count + by
    } else {
        u32::MAX as int
    }
}

/// What holds of the state that a steady run has reached after `n` samples.
pub open spec fn reached_in_run(state: ManagerView, samples: Seq<Sample>, n: int) -> bool {
    let reached = after_run(state, samples.take(n));
    &&& reached.wf()
    &&& reached.work == state.work
    &&& reached.block == state.block
    &&& reached.session is Some
    &&& reached.session->0.id == state.session->0.id
    &&& reached.session->0.start_time == state.session->0.start_time
    &&& reached.session->0.distraction_attempts == raised(
        state.session->0.distraction_attempts,
        detections(state, samples, n),
    )
    &&& reached.last_distraction_app == (if n == 0 {
        state.last_distraction_app
    } else if blocked_in(state, samples, n - 1) {
        samples[n - 1].foreground
    } else {
        None
    })
    &&& n < samples.len() ==> !reached.clock_behind(samples[n].now)
    &&& n < samples.len() ==> forall|app: Seq<char>, later: Timestamp|
        later.at_or_after(samples[n].now) ==> #[trigger] crate::allowance::allowed_at(
            reached.allowances,
            app,
            later,
        ) == crate::allowance::allowed_at(state.allowances, app, later)
}

/// One step within a session, in full: the session stays, the counter
/// rises by one exactly where the process in focus is blocked and is not
/// the blocked application detected last, that process is then the one
/// detected last, and no later instant finds the clock behind or another
/// answer about an allowance.
#[verifier::rlimit(40)]
pub proof fn lemma_steady_step(state: ManagerView, sample: Sample)
    requires
        state.wf(),
        state.session is Some,
        any_work_running(state.work, sample.running),
        !state.clock_behind(sample.now),
    ensures
        ({
            let step = state.polled(sample);
            let next = step.state;
            let blocked = sample.foreground matches Some(app) && state.blocked_at(app, sample.now);
            let counted = blocked && state.last_distraction_app != sample.foreground;
            &&& state.begun(sample).state == state
            &&& next.wf()
            &&& next.work == state.work
            &&& next.block == state.block
            &&& step.closed is None
            &&& next.session is Some
            &&& next.session->0.id == state.session->0.id
            &&& next.session->0.start_time == state.session->0.start_time
            &&& next.session->0.distraction_attempts == (if counted {
                state.session->0.distracted().distraction_attempts
            } else {
                state.session->0.distraction_attempts
            })
            &&& next.last_distraction_app == (if blocked {
                sample.foreground
            } else {
                None
            })
            &&& forall|later: Timestamp|
                later.at_or_after(sample.now) ==> !#[trigger] next.clock_behind(later)
            &&& forall|app: Seq<char>, later: Timestamp|
                later.at_or_after(sample.now) ==> #[trigger] crate::allowance::allowed_at(
                    next.allowances,
                    app,
                    later,
                ) == crate::allowance::allowed_at(state.allowances, app, later)
        }),
{
    let session = state.session->0;
    lemma_gathered(state.work, session.work_apps, sample.running);
    lemma_gathered(state.work, session.distracted().work_apps, sample.running);
    if let Some(app) = sample.foreground {
        let followed = state.followed(app, sample.now);
        assert(followed.blocked_at(app, sample.now) == state.blocked_at(app, sample.now));
    }
}

/// Debounce over a whole run: after any number of samples within one
/// session the distraction counter stands at its start plus the number of
/// new detections among them (or at the largest count), where a sample is a
/// new detection when the process in focus is blocked and the sample before
/// it did not have the same process in focus, blocked.
pub proof fn lemma_run_counts_new_detections(state: ManagerView, samples: Seq<Sample>, n: int)
    requires
        steady_run(state, samples),
        0 <= n <= samples.len(),
    ensures
        reached_in_run(state, samples, n),
    decreases n,
{
    if n == 0 {
        assert(samples.take(0) =~= Seq::<Sample>::empty());
    } else {
        lemma_run_counts_new_detections(state, samples, n - 1);
        assert(samples.take(n).drop_last() =~= samples.take(n - 1));
        assert(samples.take(n).last() == samples[n - 1]);
        let before = after_run(state, samples.take(n - 1));
        let sample = samples[n - 1];
        let reached = before.polled(sample).state;
        assert(reached == after_run(state, samples.take(n)));
        assert(any_work_running(state.work, sample.running));
        lemma_steady_step(before, sample);
        lemma_detection_in_run(state, samples, n - 1);
        if n < samples.len() {
            let next = samples[n].now;
            assert(next.at_or_after(sample.now));
            assert forall|app: Seq<char>, later: Timestamp|
                later.at_or_after(next) implies #[trigger] crate::allowance::allowed_at(
                reached.allowances,
                app,
                later,
            ) == crate::allowance::allowed_at(state.allowances, app, later) by {
                assert(later.at_or_after(sample.now));
                assert(crate::allowance::allowed_at(before.allowances, app, later)
                    == crate::allowance::allowed_at(state.allowances, app, later));
            }
        }
    }
}

/// In a run within one session, sample `i` is a new detection exactly
/// where the state reached before it finds the process in focus blocked and
/// not the blocked application detected last.
proof fn lemma_detection_in_run(state: ManagerView, samples: Seq<Sample>, i: int)
    requires
        steady_run(state, samples),
        0 <= i < samples.len(),
        reached_in_run(state, samples, i),
    ensures
        ({
            let reached = after_run(state, samples.take(i));
            &&& blocked_in(state, samples, i) == (samples[i].foreground matches Some(app)
                && reached.blocked_at(app, samples[i].now))
            &&& detected_anew(state, samples, i) == (blocked_in(state, samples, i)
                && reached.last_distraction_app != samples[i].foreground)
        }),
{
    let reached = after_run(state, samples.take(i));
    if let Some(app) = samples[i].foreground {
        assert(samples[i].now.at_or_after(samples[i].now));
        assert(crate::allowance::allowed_at(reached.allowances, app, samples[i].now)
            == crate::allowance::allowed_at(state.allowances, app, samples[i].now));
    }
}

/// Over a whole run within one session the counter ends at its start plus
/// the number of new detections (or at the largest count).
pub proof fn lemma_run_counter(state: ManagerView, samples: Seq<Sample>)
    requires
        steady_run(state, samples),
    ensures
        after_run(state, samples).session is Some,
        after_run(state, samples).session->0.id == state.session->0.id,
        after_run(state, samples).session->0.distraction_attempts == raised(
            state.session->0.distraction_attempts,
            detections(state, samples, samples.len() as int),
        ),
{
    lemma_run_counts_new_detections(state, samples, samples.len() as int);
    assert(samples.take(samples.len() as int) =~= samples);
}

/// Over a whole run within one session the notice is asked for at every
/// sample that is a new detection, with the name of the process in focus.
pub proof fn lemma_run_notice_at_detection(state: ManagerView, samples: Seq<Sample>, i: int)
    requires
        steady_run(state, samples),
        0 <= i < samples.len(),
        detected_anew(state, samples, i),
    ensures
        ({
            let step = after_run(state, samples.take(i)).polled(samples[i]);
            exists|at: int|
                0 <= at < step.effects.len() && #[trigger] step.effects[at]
                    == (EffectView::ShowDistractionNotice { app_name: samples[i].foreground->0 })
        }),
{
    lemma_run_counts_new_detections(state, samples, i);
    lemma_detection_in_run(state, samples, i);
    let reached = after_run(state, samples.take(i));
    lemma_steady_step(reached, samples[i]);
    lemma_notice_where_counted(reached, samples[i]);
}

/// Where a step counts a distraction it asks for the notice.
#[verifier::rlimit(40)]
proof fn lemma_notice_where_counted(state: ManagerView, sample: Sample)
    requires
        state.wf(),
        !state.clock_behind(sample.now),
        sample.foreground is Some,
        state.blocked_at(sample.foreground->0, sample.now),
        state.last_distraction_app != sample.foreground,
        state.begun(sample).state.session is Some,
    ensures
        exists|at: int|
            0 <= at < state.polled(sample).effects.len() && #[trigger] state.polled(sample).effects[at]
                == (EffectView::ShowDistractionNotice { app_name: sample.foreground->0 }),
{
    let app = sample.foreground->0;
    let first = state.begun(sample);
    let followed = first.state.followed(app, sample.now);
    assert(followed.blocked_at(app, sample.now) == state.blocked_at(app, sample.now));
    assert(followed.counts_distraction(app, sample.now));
    let usage = match first.state.usage_record(app, sample.now, sample.event_id) {
        Some(record) => seq![EffectView::InsertUsageEvent(record)],
        None => Seq::empty(),
    };
    let noticed = followed.distraction_effects(app, sample.now);
    let second = first.state.attended(sample);
    assert(second.effects == usage + noticed);
    let at = first.effects.len() + usage.len();
    assert(state.polled(sample).effects[at as int] == noticed[0]);
}

/// Over a whole run within one session the notice is asked for only at
/// samples that are new detections: there once, with the name of the
/// process in focus.
pub proof fn lemma_run_notice_only_at_detection(
    state: ManagerView,
    samples: Seq<Sample>,
    i: int,
    j: int,
    k: int,
)
    requires
        steady_run(state, samples),
        0 <= i < samples.len(),
        0 <= j < after_run(state, samples.take(i)).polled(samples[i]).effects.len(),
        0 <= k < after_run(state, samples.take(i)).polled(samples[i]).effects.len(),
        after_run(state, samples.take(i)).polled(samples[i]).effects[j] is ShowDistractionNotice,
    ensures
        ({
            let step = after_run(state, samples.take(i)).polled(samples[i]);
            &&& detected_anew(state, samples, i)
            &&& step.effects[j] == (EffectView::ShowDistractionNotice {
                app_name: samples[i].foreground->0,
            })
            &&& step.effects[k] is ShowDistractionNotice ==> j == k
        }),
{
    lemma_run_counts_new_detections(state, samples, i);
    lemma_detection_in_run(state, samples, i);
    let reached = after_run(state, samples.take(i));
    lemma_one_notice_per_detection(reached, samples[i], j, k);
}

} // verus!
