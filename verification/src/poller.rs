//! One tick of the control loop: what the probes found goes to the session
//! manager, the metrics take note, and the caller is told what to store, to
//! show, to replicate and to log.

use crate::apprules::AppRules;
use crate::clock::Timestamp;
use crate::effects::{effect_views, Effect};
use crate::error::{clock_error_text, SynapseError};
use crate::machine::{ManagerView, Step};
use crate::manager::{slice_text, SessionManager};
use crate::metrics::Metrics;
use crate::session::FocusSession;
use crate::types::{EventId, SessionId};
use vstd::prelude::*;
use vstd::string::StringExecFns;

verus! {

/// What a tick hands to the caller.
#[derive(Debug)]
pub struct TickReport {
    /// The session that the tick ended, to be replicated.
    pub closed_session: Option<FocusSession>,
    /// The requests to carry out, in order.
    pub effects: Vec<Effect>,
    /// What went wrong, to be logged. None of it stops the loop.
    pub errors: Vec<SynapseError>,
    /// Whether the metrics summary is due.
    pub summary_due: bool,
}

/// The session manager and the metrics that the control loop drives.
pub struct Poller {
    pub manager: SessionManager,
    pub metrics: Metrics,
}

/// The text of the error for a failed listing of the running processes.
pub open spec fn listing_error_text(reason: Seq<char>) -> Seq<char> {
    "Failed to list running processes: "@ + reason
}

/// The text of the error for a failed look-up of the process in focus.
pub open spec fn focus_error_text(reason: Seq<char>) -> Seq<char> {
    "Failed to get foreground process: "@ + reason
}

/// The process in focus as the tick takes it: none where the probe failed.
pub open spec fn focus_taken(foreground: Result<Option<String>, String>) -> Option<Seq<char>> {
    match foreground {
        Ok(Some(app)) => Some(app@),
        _ => None,
    }
}

/// What the session manager makes of a tick. Without a list of the running
/// processes it only forgets the focus; with one it makes a step, which is
/// skipped where the clock ran backwards.
pub open spec fn tick_step(
    state: ManagerView,
    running: Result<Vec<String>, String>,
    foreground: Result<Option<String>, String>,
    now: Timestamp,
    session_id: SessionId,
    event_id: EventId,
) -> Step {
    match running {
        Err(_) => Step { state: state.unfocused(), effects: Seq::empty(), closed: None },
        Ok(names) => state.polled(
            crate::machine::Sample {
                running: names.deep_view(),
                foreground: focus_taken(foreground),
                now,
                session_id,
                event_id,
            },
        ),
    }
}

/// The errors that a tick reports, in order: a failed listing, a failed
/// look-up of the focus, a clock that ran backwards.
pub open spec fn tick_errors(
    state: ManagerView,
    running: Result<Vec<String>, String>,
    foreground: Result<Option<String>, String>,
    now: Timestamp,
) -> Seq<Seq<char>> {
    (match running {
        Err(reason) => seq!["Platform error: "@ + listing_error_text(reason@)],
        Ok(_) => Seq::empty(),
    }) + (match foreground {
        Err(reason) => seq!["Platform error: "@ + focus_error_text(reason@)],
        Ok(_) => Seq::empty(),
    }) + (if running is Ok && state.clock_behind(now) {
        seq!["Time error: "@ + clock_error_text()]
    } else {
        Seq::empty()
    })
}

/// The texts of `errors`, in order.
pub open spec fn error_texts(errors: Seq<SynapseError>) -> Seq<Seq<char>> {
    Seq::new(errors.len(), |i: int| errors[i].text())
}

/// Appends `error` to `errors`.
fn report(errors: &mut Vec<SynapseError>, error: SynapseError)
    ensures
        error_texts(final(errors)@) == error_texts(old(errors)@).push(error.text()),
{
    errors.push(error);
    assert(error_texts(errors@) =~= error_texts(old(errors)@).push(error.text()));
}

impl Poller {
    /// A poller under the rules `rules`, with `now` as the moment of the
    /// last summary.
    pub fn new(rules: AppRules, now: Timestamp) -> (poller: Poller)
        ensures
            poller.manager@ == ManagerView::initial(
                rules.whitelist.deep_view(),
                rules.blacklist.deep_view(),
            ),
            poller.metrics.total_checks == 0,
            poller.metrics.blocked_count == 0,
            poller.metrics.app_frequency@ == Map::<Seq<char>, u64>::empty(),
            poller.metrics.last_summary == now,
    {
        Poller { manager: SessionManager::new(rules), metrics: Metrics::new(now) }
    }

    /// One tick, with the identities to use for a session or a usage record
    /// that the tick gives rise to.
    ///
    /// `running` and `foreground` are what the two probes handed back.
    /// Where the look-up of the focus failed, the tick goes on as if no
    /// process were in focus. Where the listing of the processes failed, it
    /// only forgets the focus and leaves the session alone. Each failure is
    /// reported, and so is a clock that ran backwards, for which the step
    /// is skipped. Then the metrics take note of what the manager holds,
    /// and the report says whether their summary is due.
    pub fn tick_with_ids(
        &mut self,
        running: Result<Vec<String>, String>,
        foreground: Result<Option<String>, String>,
        now: Timestamp,
        session_id: SessionId,
        event_id: EventId,
    ) -> (report: TickReport)
        ensures
            ({
                let step = tick_step(old(self).manager@, running, foreground, now, session_id, event_id);
                &&& final(self).manager@ == step.state
                &&& effect_views(report.effects@) == step.effects
                &&& crate::manager::session_of(report.closed_session) == step.closed
            }),
            error_texts(report.errors@) == tick_errors(old(self).manager@, running, foreground, now),
            report.summary_due == !now.within(
                old(self).metrics.last_summary,
                crate::constants::SUMMARY_INTERVAL_SECS,
            ),
            final(self).metrics.last_summary == old(self).metrics.last_summary,
            final(self).metrics.total_checks == (if final(self).manager@.last_checked_process is Some {
                crate::metrics::bumped(old(self).metrics.total_checks)
            } else {
                old(self).metrics.total_checks
            }),
            final(self).metrics.blocked_count == (if final(self).manager@.last_checked_process is Some
                && final(self).manager@.last_blocked {
                crate::metrics::bumped(old(self).metrics.blocked_count)
            } else {
                old(self).metrics.blocked_count
            }),
            final(self).metrics.app_frequency@ == crate::metrics::counted_all(
                match final(self).manager@.last_checked_process {
                    Some(process) => crate::metrics::counted(old(self).metrics.app_frequency@, process),
                    None => old(self).metrics.app_frequency@,
                },
                match final(self).manager@.session {
                    Some(session) => session.work_apps,
                    None => Seq::empty(),
                },
            ),
    {
        let mut errors: Vec<SynapseError> = Vec::new();
        assert(error_texts(errors@) =~= Seq::empty());
        let mut effects: Vec<Effect> = Vec::new();
        assert(effect_views(effects@) =~= Seq::empty());
        let mut closed_session: Option<FocusSession> = None;
        let listed = match &running {
            Ok(names) => true,
            Err(reason) => {
                report(
                    &mut errors,
                    SynapseError::Platform(
                        String::from_str("Failed to list running processes: ").concat(reason.as_str()),
                    ),
                );
                false
            },
        };
        let in_focus: Option<&str> = match &foreground {
            Ok(Some(app)) => Some(app.as_str()),
            Ok(None) => None,
            Err(reason) => {
                report(
                    &mut errors,
                    SynapseError::Platform(
                        String::from_str("Failed to get foreground process: ").concat(reason.as_str()),
                    ),
                );
                None
            },
        };
        assert(slice_text(in_focus) == focus_taken(foreground));
        match &running {
            Ok(names) => {
                match self.manager.poll_with_ids(names, in_focus, now, session_id, event_id) {
                    Ok(outcome) => {
                        effects = outcome.effects;
                        closed_session = outcome.closed_session;
                    },
                    Err(error) => {
                        report(&mut errors, error);
                    },
                }
            },
            Err(_) => {
                self.manager.handle_no_foreground_process();
            },
        }
        self.metrics.update_from_session(&self.manager);
        let summary_due = self.metrics.should_log_summary(now);
        assert(error_texts(errors@) =~= tick_errors(old(self).manager@, running, foreground, now));
        TickReport { closed_session, effects, errors, summary_due }
    }

    /// One tick. A session that the tick starts and a usage record that it
    /// asks to store get newly drawn identities.
    pub fn tick(
        &mut self,
        running: Result<Vec<String>, String>,
        foreground: Result<Option<String>, String>,
        now: Timestamp,
    ) -> (report: TickReport)
        ensures
            exists|session_id: SessionId, event_id: EventId|
                {
                    let step = #[trigger] tick_step(
                        old(self).manager@,
                        running,
                        foreground,
                        now,
                        session_id,
                        event_id,
                    );
                    &&& old(self).manager@.session is None ==> crate::types::is_random_id(
                        session_id.0,
                    )
                    &&& old(self).manager@.tracker.current is Some ==> crate::types::is_random_id(
                        event_id.0,
                    )
                    &&& final(self).manager@ == step.state
                    &&& effect_views(report.effects@) == step.effects
                    &&& crate::manager::session_of(report.closed_session) == step.closed
                },
            error_texts(report.errors@) == tick_errors(old(self).manager@, running, foreground, now),
            report.summary_due == !now.within(
                old(self).metrics.last_summary,
                crate::constants::SUMMARY_INTERVAL_SECS,
            ),
            final(self).metrics.last_summary == old(self).metrics.last_summary,
            final(self).metrics.total_checks == (if final(self).manager@.last_checked_process is Some {
                crate::metrics::bumped(old(self).metrics.total_checks)
            } else {
                old(self).metrics.total_checks
            }),
            final(self).metrics.blocked_count == (if final(self).manager@.last_checked_process is Some
                && final(self).manager@.last_blocked {
                crate::metrics::bumped(old(self).metrics.blocked_count)
            } else {
                old(self).metrics.blocked_count
            }),
            final(self).metrics.app_frequency@ == crate::metrics::counted_all(
                match final(self).manager@.last_checked_process {
                    Some(process) => crate::metrics::counted(old(self).metrics.app_frequency@, process),
                    None => old(self).metrics.app_frequency@,
                },
                match final(self).manager@.session {
                    Some(session) => session.work_apps,
                    None => Seq::empty(),
                },
            ),
    {
        let session_id = if self.manager.session_id().is_none() {
            SessionId::generate()
        } else {
            SessionId(0)
        };
        let event_id = if self.manager.tracks_focus() {
            EventId::generate()
        } else {
            EventId(0)
        };
        self.tick_with_ids(running, foreground, now, session_id, event_id)
    }

    /// The last tick, after a request to shut down: the running usage
    /// interval is closed and recorded and the active session is ended. A
    /// clock that ran backwards is reported; then nothing is closed.
    pub fn finish(&mut self, now: Timestamp) -> (report: TickReport)
        ensures
            error_texts(report.errors@) == (if old(self).manager@.clock_behind(now) {
                seq!["Time error: "@ + clock_error_text()]
            } else {
                Seq::empty()
            }),
            exists|event_id: EventId|
                {
                    let step = #[trigger] old(self).manager@.shut_down(now, event_id);
                    &&& old(self).manager@.tracker.current is Some ==> crate::types::is_random_id(
                        event_id.0,
                    )
                    &&& final(self).manager@ == step.state
                    &&& effect_views(report.effects@) == step.effects
                    &&& crate::manager::session_of(report.closed_session) == step.closed
                },
            !report.summary_due,
            final(self).metrics == old(self).metrics,
    {
        let mut errors: Vec<SynapseError> = Vec::new();
        assert(error_texts(errors@) =~= Seq::empty());
        let mut effects: Vec<Effect> = Vec::new();
        assert(effect_views(effects@) =~= Seq::empty());
        let mut closed_session: Option<FocusSession> = None;
        match self.manager.shutdown(now) {
            Ok(outcome) => {
                effects = outcome.effects;
                closed_session = outcome.closed_session;
            },
            Err(error) => {
                report(&mut errors, error);
                assert(error_texts(errors@) =~= seq!["Time error: "@ + clock_error_text()]);
            },
        }
        TickReport { closed_session, effects, errors, summary_due: false }
    }
}

} // verus!
