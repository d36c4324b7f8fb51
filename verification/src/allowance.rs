//! Temporary allowances: for a while after it is snoozed, a blocked
//! application counts as not blocked.

use crate::clock::Timestamp;
use crate::names::{fold, to_ascii_lowercase};
use vstd::hash_map::StringHashMap;
use vstd::prelude::*;

verus! {

/// Leave to use one application for `duration_secs` seconds from
/// `granted_at` on.
#[derive(Clone, Copy, Debug, PartialEq, Eq, Structural)]
pub struct TemporaryAllowance {
    pub granted_at: Timestamp,
    pub duration_secs: u64,
}

impl TemporaryAllowance {
    /// The allowance has not expired at `now`: `now` lies before the instant
    /// `duration_secs` seconds after `granted_at`.
    pub open spec fn covers(self, now: Timestamp) -> bool {
        now.within(self.granted_at, self.duration_secs)
    }

    /// Whether the allowance has not expired at `now`.
    pub fn is_active(&self, now: Timestamp) -> (active: bool)
        ensures
            active == self.covers(now),
    {
        now.is_within(&self.granted_at, self.duration_secs)
    }
}

/// The allowances in force, each under the folded name of its application.
pub type Allowances = Map<Seq<char>, TemporaryAllowance>;

/// An allowance for `app` is held and has not expired at `now`.
pub open spec fn allowed_at(held: Allowances, app: Seq<char>, now: Timestamp) -> bool {
    held.contains_key(fold(app)) && held[fold(app)].covers(now)
}

/// The allowances left after a check of `app` at `now`: an expired
/// allowance for `app` is dropped, everything else stays.
pub open spec fn after_check(held: Allowances, app: Seq<char>, now: Timestamp) -> Allowances {
    if held.contains_key(fold(app)) && !held[fold(app)].covers(now) {
        held.remove(fold(app))
    } else {
        held
    }
}

/// The allowances after `app` was snoozed at `now` for `duration_secs`
/// seconds: an earlier allowance for `app` is replaced.
pub open spec fn after_snooze(held: Allowances, app: Seq<char>, duration_secs: u64, now: Timestamp) -> Allowances {
    held.insert(fold(app), TemporaryAllowance { granted_at: now, duration_secs })
}

/// The allowances of a session manager.
pub struct SnoozeTable {
    entries: StringHashMap<TemporaryAllowance>,
}

impl View for SnoozeTable {
    type V = Allowances;

    closed spec fn view(&self) -> Allowances {
        self.entries@
    }
}

impl SnoozeTable {
    /// A table without allowances.
    pub fn new() -> (table: SnoozeTable)
        ensures
            table@ == Map::<Seq<char>, TemporaryAllowance>::empty(),
    {
        SnoozeTable { entries: StringHashMap::new() }
    }

    /// Grants `app` an allowance of `duration_secs` seconds from `now` on,
    /// in place of any it had.
    pub fn snooze(&mut self, app: &str, duration_secs: u64, now: Timestamp)
        ensures
            final(self)@ == after_snooze(old(self)@, app@, duration_secs, now),
    {
        let key = to_ascii_lowercase(app);
        self.entries.insert(key, TemporaryAllowance { granted_at: now, duration_secs });
    }

    /// Whether `app` holds an allowance that has not expired at `now`. An
    /// allowance of `app` that has expired is dropped.
    pub fn check(&mut self, app: &str, now: Timestamp) -> (active: bool)
        ensures
            active == allowed_at(old(self)@, app@, now),
            final(self)@ == after_check(old(self)@, app@, now),
    {
        let key = to_ascii_lowercase(app);
        let found = match self.entries.get(key.as_str()) {
            Some(allowance) => Some(*allowance),
            None => None,
        };
        match found {
            Some(allowance) => {
                if allowance.is_active(now) {
                    true
                } else {
                    self.entries.remove(key.as_str());
                    false
                }
            },
            None => false,
        }
    }

    /// Whether `app` holds an allowance that has not expired at `now`.
    pub fn is_allowed(&self, app: &str, now: Timestamp) -> (active: bool)
        ensures
            active == allowed_at(self@, app@, now),
    {
        let key = to_ascii_lowercase(app);
        match self.entries.get(key.as_str()) {
            Some(allowance) => allowance.is_active(now),
            None => false,
        }
    }
}

/// A snoozed application is allowed at every instant before the end of its
/// allowance and at none from then on, under any spelling of its name that
/// differs in the case of ASCII letters only.
pub proof fn lemma_snooze_window(
    held: Allowances,
    app: Seq<char>,
    spelling: Seq<char>,
    duration_secs: u64,
    now: Timestamp,
    check: Timestamp,
)
    requires
        fold(spelling) == fold(app),
    ensures
        allowed_at(after_snooze(held, app, duration_secs, now), spelling, check) == check.within(
            now,
            duration_secs,
        ),
{
}

/// A check never changes what a later check at the same instant or later
/// finds: the allowance it drops has expired.
pub proof fn lemma_check_keeps_answers(
    held: Allowances,
    app: Seq<char>,
    now: Timestamp,
    other: Seq<char>,
    later: Timestamp,
)
    requires
        later.at_or_after(now),
    ensures
        allowed_at(after_check(held, app, now), other, later) == allowed_at(held, other, later),
{
}

} // verus!
