//! Which process holds the input focus, since when, and the closed interval
//! that each change of focus leaves behind.

use crate::clock::Timestamp;
use crate::error::{clock_error_text, SynapseError};
use crate::names::str_eq;
use crate::types::EventId;
use vstd::prelude::*;
use vstd::string::StringExecFns;

verus! {

/// The span during which one process held the focus, in whole seconds since
/// the epoch.
#[derive(Debug)]
pub struct ClosedInterval {
    pub app: String,
    pub start_time: u64,
    pub end_time: u64,
    /// `end_time - start_time`.
    pub duration_secs: u64,
    /// The record that was opened for this interval, if one was noted.
    pub event_id: Option<EventId>,
}

/// What a [`ClosedInterval`] holds, with its name as a character sequence.
pub ghost struct IntervalView {
    pub app: Seq<char>,
    pub start_time: u64,
    pub end_time: u64,
    pub duration_secs: u64,
    pub event_id: Option<EventId>,
}

impl View for ClosedInterval {
    type V = IntervalView;

    open spec fn view(&self) -> IntervalView {
        IntervalView {
            app: self.app@,
            start_time: self.start_time,
            end_time: self.end_time,
            duration_secs: self.duration_secs,
            event_id: self.event_id,
        }
    }
}

/// The process in focus and the instant at which it gained the focus.
pub ghost struct Focus {
    pub app: Seq<char>,
    pub since: Timestamp,
}

/// The state of a tracker.
pub ghost struct TrackerView {
    /// The process in focus, if one is known.
    pub current: Option<Focus>,
    /// The record opened for the running interval, if one was noted.
    pub open_event: Option<EventId>,
}

impl TrackerView {
    /// A tracker that knows of no process in focus.
    pub open spec fn idle() -> TrackerView {
        TrackerView { current: None, open_event: None }
    }

    /// A tracker that has just seen `app` gain the focus at `now`.
    pub open spec fn focused(app: Seq<char>, now: Timestamp) -> TrackerView {
        TrackerView { current: Some(Focus { app, since: now }), open_event: None }
    }

    /// Seeing `app` in focus at `now` ends the running interval: another
    /// process was in focus.
    pub open spec fn changes_focus(self, app: Seq<char>) -> bool {
        self.current matches Some(focus) && focus.app != app
    }

    /// The clock reads `now`, which lies before the instant at which the
    /// running interval began.
    pub open spec fn clock_behind(self, now: Timestamp) -> bool {
        self.current matches Some(focus) && now.before(focus.since)
    }

    /// The running interval, closed at `now`.
    pub open spec fn interval_until(self, now: Timestamp) -> IntervalView
        recommends
            self.current is Some,
            !self.clock_behind(now),
    {
        IntervalView {
            app: self.current->0.app,
            start_time: self.current->0.since.secs,
            end_time: now.secs,
            duration_secs: (now.secs - self.current->0.since.secs) as u64,
            event_id: self.open_event,
        }
    }

    /// The interval that seeing `app` in focus at `now` closes, if any.
    pub open spec fn observed_interval(self, app: Seq<char>, now: Timestamp) -> Option<IntervalView> {
        if self.changes_focus(app) && !self.clock_behind(now) {
            Some(self.interval_until(now))
        } else {
            None
        }
    }

    /// The tracker after it has seen `app` in focus at `now`.
    pub open spec fn observed(self, app: Seq<char>, now: Timestamp) -> TrackerView {
        if self.current is None {
            TrackerView::focused(app, now)
        } else if !self.changes_focus(app) {
            self
        } else if self.clock_behind(now) {
            self
        } else {
            TrackerView::focused(app, now)
        }
    }
}

/// Follows the focus from one process to the next.
#[derive(Debug)]
pub struct UsageTracker {
    current_app: Option<String>,
    current_app_start: Option<Timestamp>,
    last_open_event_id: Option<EventId>,
}

impl View for UsageTracker {
    type V = TrackerView;

    closed spec fn view(&self) -> TrackerView {
        TrackerView {
            current: match (self.current_app, self.current_app_start) {
                (Some(app), Some(since)) => Some(Focus { app: app@, since }),
                _ => None,
            },
            open_event: self.last_open_event_id,
        }
    }
}

impl UsageTracker {
    #[verifier::type_invariant]
    spec fn valid(self) -> bool {
        &&& self.current_app is Some <==> self.current_app_start is Some
        &&& self.current_app is None ==> self.last_open_event_id is None
    }

    /// A tracker that knows of no process in focus.
    pub fn new() -> (tracker: UsageTracker)
        ensures
            tracker@ == TrackerView::idle(),
    {
        UsageTracker { current_app: None, current_app_start: None, last_open_event_id: None }
    }

    /// The process in focus, if one is known.
    pub fn current_app(&self) -> (app: Option<&String>)
        ensures
            app is Some <==> self@.current is Some,
            app matches Some(name) ==> name@ == self@.current->0.app,
    {
        proof {
            use_type_invariant(self);
        }
        match &self.current_app {
            Some(name) => Some(name),
            None => None,
        }
    }

    /// The instant at which the process in focus gained it.
    pub fn current_app_start(&self) -> (start: Option<Timestamp>)
        ensures
            start is Some <==> self@.current is Some,
            start matches Some(since) ==> since == self@.current->0.since,
    {
        proof {
            use_type_invariant(self);
        }
        self.current_app_start
    }

    /// The record opened for the running interval, if one was noted.
    pub fn last_open_event_id(&self) -> (id: Option<EventId>)
        ensures
            id == self@.open_event,
    {
        self.last_open_event_id
    }

    /// Notes the record that was opened for the running interval. Without a
    /// running interval there is nothing to note it for.
    pub fn note_open_event(&mut self, id: EventId)
        ensures
            final(self)@ == (if old(self)@.current is Some {
                TrackerView { open_event: Some(id), ..old(self)@ }
            } else {
                old(self)@
            }),
    {
        proof {
            use_type_invariant(&*self);
        }
        if self.current_app.is_some() {
            self.last_open_event_id = Some(id);
        }
    }

    /// Takes note that `process_name` is in focus at `now`.
    ///
    /// The first process seen starts an interval and a process seen again
    /// changes nothing. Another process closes the running interval at
    /// `now`, which is returned, and starts its own. Where `now` lies before
    /// the instant at which the running interval began, the interval is not
    /// closed: the call fails and the tracker stays as it was.
    pub fn observe(&mut self, process_name: &str, now: Timestamp) -> (closed: Result<
        Option<ClosedInterval>,
        SynapseError,
    >)
        ensures
            closed is Err <==> old(self)@.changes_focus(process_name@) && old(self)@.clock_behind(
                now,
            ),
            closed matches Err(error) ==> error matches SynapseError::Time(detail) && detail@
                == clock_error_text(),
            final(self)@ == old(self)@.observed(process_name@, now),
            closed matches Ok(interval) ==> match interval {
                Some(i) => Some(i@),
                None => None,
            } == old(self)@.observed_interval(process_name@, now),
    {
        proof {
            use_type_invariant(&*self);
        }
        let same = match &self.current_app {
            Some(app) => str_eq(app.as_str(), process_name),
            None => false,
        };
        if same {
            return Ok(None);
        }
        let start = match self.current_app_start {
            Some(since) => since,
            None => {
                *self = UsageTracker {
                    current_app: Some(String::from_str(process_name)),
                    current_app_start: Some(now),
                    last_open_event_id: None,
                };
                return Ok(None);
            },
        };
        if now.is_before(&start) {
            return Err(SynapseError::clock());
        }
        let mut previous = UsageTracker {
            current_app: Some(String::from_str(process_name)),
            current_app_start: Some(now),
            last_open_event_id: None,
        };
        core::mem::swap(self, &mut previous);
        let app = match previous.current_app {
            Some(app) => app,
            None => String::new(),
        };
        Ok(
            Some(
                ClosedInterval {
                    app,
                    start_time: start.secs,
                    end_time: now.secs,
                    duration_secs: now.secs - start.secs,
                    event_id: previous.last_open_event_id,
                },
            ),
        )
    }

    /// Closes the running interval at `now` and forgets the process in
    /// focus. Without a running interval nothing happens. Where `now` lies
    /// before the instant at which the interval began, the call fails and the
    /// tracker stays as it was.
    pub fn finalize(&mut self, now: Timestamp) -> (closed: Result<Option<ClosedInterval>, SynapseError>)
        ensures
            closed is Err <==> old(self)@.clock_behind(now),
            closed matches Err(error) ==> error matches SynapseError::Time(detail) && detail@
                == clock_error_text(),
            closed is Err ==> final(self)@ == old(self)@,
            closed is Ok ==> final(self)@ == TrackerView::idle(),
            closed matches Ok(interval) ==> match interval {
                Some(i) => old(self)@.current is Some && i@ == old(self)@.interval_until(now),
                None => old(self)@.current is None,
            },
    {
        proof {
            use_type_invariant(&*self);
        }
        let start = match self.current_app_start {
            Some(since) => since,
            None => {
                return Ok(None);
            },
        };
        if now.is_before(&start) {
            return Err(SynapseError::clock());
        }
        let mut previous = UsageTracker::new();
        core::mem::swap(self, &mut previous);
        let app = match previous.current_app {
            Some(app) => app,
            None => String::new(),
        };
        Ok(
            Some(
                ClosedInterval {
                    app,
                    start_time: start.secs,
                    end_time: now.secs,
                    duration_secs: now.secs - start.secs,
                    event_id: previous.last_open_event_id,
                },
            ),
        )
    }

    /// Forgets the process in focus without closing its interval.
    pub fn reset(&mut self)
        ensures
            final(self)@ == TrackerView::idle(),
    {
        *self = UsageTracker::new();
    }
}

/// Every interval that a tracker closes runs forward: its duration is the
/// distance from its start to its end, and so is never negative.
pub proof fn lemma_closed_interval_duration(tracker: TrackerView, app: Seq<char>, now: Timestamp)
    ensures
        tracker.observed_interval(app, now) matches Some(interval) ==> interval.start_time
            + interval.duration_secs == interval.end_time && interval.start_time
            <= interval.end_time,
        tracker.current is Some && !tracker.clock_behind(now) ==> tracker.interval_until(
            now,
        ).start_time + tracker.interval_until(now).duration_secs == tracker.interval_until(
            now,
        ).end_time,
{
}

} // verus!
