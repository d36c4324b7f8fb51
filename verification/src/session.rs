//! One focus session: the interval during which work applications run, the
//! applications seen in it and the distractions counted in it.

use crate::apprules::AppRules;
use crate::clock::Timestamp;
use crate::names::{holds_exactly, lists_name};
use crate::types::{is_random_id, SessionId};
use vstd::prelude::*;

verus! {

/// What a session holds, with its names as character sequences.
pub ghost struct SessionView {
    pub id: SessionId,
    pub start_time: Timestamp,
    /// Unset while the session is active.
    pub end_time: Option<Timestamp>,
    /// The work applications seen, in the order in which they were first seen.
    pub work_apps: Seq<Seq<char>>,
    pub distraction_attempts: u32,
}

impl SessionView {
    /// No application is listed twice, and the session does not end before
    /// it starts.
    pub open spec fn wf(self) -> bool {
        &&& self.work_apps.no_duplicates()
        &&& self.end_time matches Some(end) ==> end.at_or_after(self.start_time)
    }

    /// The session has not ended.
    pub open spec fn active(self) -> bool {
        self.end_time is None
    }

    /// A session that starts at `start_time` with the applications `work_apps`.
    pub open spec fn started(id: SessionId, start_time: Timestamp, work_apps: Seq<Seq<char>>) -> SessionView {
        SessionView { id, start_time, end_time: None, work_apps, distraction_attempts: 0 }
    }

    /// The session with one more distraction counted, where the counter has
    /// room for it.
    pub open spec fn distracted(self) -> SessionView {
        SessionView {
            distraction_attempts: if self.distraction_attempts < u32::MAX {
                (self.distraction_attempts + 1) as u32
            } else {
                self.distraction_attempts
            },
            ..self
        }
    }

    /// The session ended at `end`.
    pub open spec fn ended(self, end: Timestamp) -> SessionView {
        SessionView { end_time: Some(end), ..self }
    }
}

/// `seen` followed by those names of `running` that are on the list `work`
/// and are not in it yet, each once, in the order in which `running` first
/// shows them.
pub open spec fn gathered(work: Seq<Seq<char>>, seen: Seq<Seq<char>>, running: Seq<Seq<char>>) -> Seq<
    Seq<char>,
>
    decreases running.len(),
{
    if running.len() == 0 {
        seen
    } else {
        let name = running[0];
        let next = if lists_name(work, name) && !seen.contains(name) {
            seen.push(name)
        } else {
            seen
        };
        gathered(work, next, running.drop_first())
    }
}

/// The names of `names`, each once, in the order of first appearance.
pub open spec fn distinct(names: Seq<Seq<char>>) -> Seq<Seq<char>>
    decreases names.len(),
{
    if names.len() == 0 {
        Seq::empty()
    } else {
        let rest = distinct(names.drop_last());
        if rest.contains(names.last()) {
            rest
        } else {
            rest.push(names.last())
        }
    }
}

/// Gathering keeps what was seen as a prefix, lists nothing twice, and adds
/// only work applications that are running.
pub proof fn lemma_gathered(work: Seq<Seq<char>>, seen: Seq<Seq<char>>, running: Seq<Seq<char>>)
    requires
        seen.no_duplicates(),
    ensures
        gathered(work, seen, running).no_duplicates(),
        seen.is_prefix_of(gathered(work, seen, running)),
        forall|n: Seq<char>| #[trigger]
            gathered(work, seen, running).contains(n) <==> seen.contains(n) || (running.contains(n)
                && lists_name(work, n)),
    decreases running.len(),
{
    if running.len() == 0 {
    } else {
        let name = running[0];
        let next = if lists_name(work, name) && !seen.contains(name) {
            seen.push(name)
        } else {
            seen
        };
        assert(next.no_duplicates());
        lemma_gathered(work, next, running.drop_first());
        let out = gathered(work, seen, running);
        assert(seen.is_prefix_of(next));
        assert forall|n: Seq<char>| #[trigger]
            out.contains(n) <==> seen.contains(n) || (running.contains(n) && lists_name(
                work,
                n,
            )) by {
            if running.contains(n) {
                let k = choose|k: int| 0 <= k < running.len() && running[k] == n;
                if k > 0 {
                    assert(running.drop_first()[k - 1] == n);
                }
            }
            if running.drop_first().contains(n) {
                let k = choose|k: int|
                    0 <= k < running.drop_first().len() && running.drop_first()[k] == n;
                assert(running[k + 1] == n);
            }
            if next.contains(n) && !seen.contains(n) {
                assert(n == name);
                assert(running[0] == n);
            }
            if seen.contains(n) {
                let k = choose|k: int| 0 <= k < seen.len() && seen[k] == n;
                assert(next[k] == n);
            }
            if n == name && lists_name(work, name) && !seen.contains(name) {
                assert(next[next.len() - 1] == n);
            }
        }
    }
}

/// Gathering the same running applications a second time adds nothing.
pub proof fn lemma_gathered_idempotent(
    work: Seq<Seq<char>>,
    seen: Seq<Seq<char>>,
    running: Seq<Seq<char>>,
)
    requires
        seen.no_duplicates(),
    ensures
        gathered(work, gathered(work, seen, running), running) == gathered(work, seen, running),
{
    let once = gathered(work, seen, running);
    lemma_gathered(work, seen, running);
    lemma_gathered_all_seen(work, once, running);
}

/// Gathering applications that are all seen already adds nothing.
pub proof fn lemma_gathered_all_seen(
    work: Seq<Seq<char>>,
    seen: Seq<Seq<char>>,
    running: Seq<Seq<char>>,
)
    requires
        forall|n: Seq<char>| running.contains(n) && lists_name(work, n) ==> seen.contains(n),
    ensures
        gathered(work, seen, running) == seen,
    decreases running.len(),
{
    if running.len() > 0 {
        assert(running.contains(running[0]));
        assert forall|n: Seq<char>|
            running.drop_first().contains(n) && lists_name(work, n) implies seen.contains(n) by {
            let k = choose|k: int|
                0 <= k < running.drop_first().len() && running.drop_first()[k] == n;
            assert(running[k + 1] == n);
        }
        lemma_gathered_all_seen(work, seen, running.drop_first());
    }
}

/// A focus session.
#[derive(Debug)]
pub struct FocusSession {
    id: SessionId,
    start_time: Timestamp,
    end_time: Option<Timestamp>,
    work_apps: Vec<String>,
    distraction_attempts: u32,
}

impl View for FocusSession {
    type V = SessionView;

    closed spec fn view(&self) -> SessionView {
        SessionView {
            id: self.id,
            start_time: self.start_time,
            end_time: self.end_time,
            work_apps: self.work_apps.deep_view(),
            distraction_attempts: self.distraction_attempts,
        }
    }
}

impl FocusSession {
    #[verifier::type_invariant]
    spec fn valid(self) -> bool {
        self@.wf()
    }

    /// A session that starts at `start_time` under a newly drawn identity.
    /// Of `work_apps` each name is kept once, where it first stands.
    pub fn new(start_time: Timestamp, work_apps: Vec<String>) -> (session: FocusSession)
        ensures
            session@ == SessionView::started(session@.id, start_time, distinct(work_apps.deep_view())),
            is_random_id(session@.id.0),
            session@.wf(),
    {
        Self::with_id(SessionId::generate(), start_time, work_apps)
    }

    /// A session that starts at `start_time` under the identity `id`.
    /// Of `work_apps` each name is kept once, where it first stands.
    pub fn with_id(id: SessionId, start_time: Timestamp, work_apps: Vec<String>) -> (session:
        FocusSession)
        ensures
            session@ == SessionView::started(id, start_time, distinct(work_apps.deep_view())),
            session@.wf(),
    {
        let apps = distinct_names(&work_apps);
        FocusSession { id, start_time, end_time: None, work_apps: apps, distraction_attempts: 0 }
    }

    /// A session with every part given, as it comes back from a store.
    /// There is none where `end_time` lies before `start_time`.
    pub fn restore(
        id: SessionId,
        start_time: Timestamp,
        end_time: Option<Timestamp>,
        work_apps: Vec<String>,
        distraction_attempts: u32,
    ) -> (restored: Option<FocusSession>)
        ensures
            restored is Some <==> (end_time matches Some(end) ==> end.at_or_after(start_time)),
            restored matches Some(session) ==> session@ == (SessionView {
                id,
                start_time,
                end_time,
                work_apps: distinct(work_apps.deep_view()),
                distraction_attempts,
            }) && session@.wf(),
    {
        let in_order = match &end_time {
            Some(end) => end.is_at_or_after(&start_time),
            None => true,
        };
        if in_order {
            let apps = distinct_names(&work_apps);
            Some(FocusSession { id, start_time, end_time, work_apps: apps, distraction_attempts })
        } else {
            None
        }
    }

    /// The identity of the session.
    pub fn id(&self) -> (id: SessionId)
        ensures
            id == self@.id,
    {
        self.id
    }

    /// When the session started.
    pub fn start_time(&self) -> (start: &Timestamp)
        ensures
            *start == self@.start_time,
    {
        &self.start_time
    }

    /// When the session ended, if it has.
    pub fn end_time(&self) -> (end: Option<&Timestamp>)
        ensures
            end is Some <==> self@.end_time is Some,
            end matches Some(t) ==> self@.end_time == Some(*t) && t.at_or_after(self@.start_time),
    {
        proof {
            use_type_invariant(self);
        }
        match &self.end_time {
            Some(t) => Some(t),
            None => None,
        }
    }

    /// The work applications seen, in the order in which they were first seen.
    pub fn work_apps(&self) -> (apps: &Vec<String>)
        ensures
            apps.deep_view() == self@.work_apps,
            apps.deep_view().no_duplicates(),
    {
        proof {
            use_type_invariant(self);
        }
        &self.work_apps
    }

    /// Whether the session has not ended.
    pub fn is_active(&self) -> (active: bool)
        ensures
            active == self@.active(),
            self@.wf(),
    {
        proof {
            use_type_invariant(self);
        }
        self.end_time.is_none()
    }

    /// The number of distractions counted.
    pub fn distraction_attempts(&self) -> (count: u32)
        ensures
            count == self@.distraction_attempts,
    {
        self.distraction_attempts
    }

    /// Counts one more distraction. A counter that has reached `u32::MAX`
    /// stays there.
    pub fn increment_distraction_attempts(&mut self)
        ensures
            final(self)@ == old(self)@.distracted(),
    {
        proof {
            use_type_invariant(&*self);
        }
        if self.distraction_attempts < u32::MAX {
            self.distraction_attempts = self.distraction_attempts + 1;
        }
    }

    /// Adds the running work applications that the session has not seen yet.
    pub fn absorb(&mut self, rules: &AppRules, running: &Vec<String>)
        ensures
            final(self)@ == (SessionView {
                work_apps: gathered(
                    rules.whitelist.deep_view(),
                    old(self)@.work_apps,
                    running.deep_view(),
                ),
                ..old(self)@
            }),
            final(self)@.wf(),
    {
        proof {
            use_type_invariant(&*self);
        }
        let ghost work = rules.whitelist.deep_view();
        let ghost all = running.deep_view();
        let ghost goal = gathered(work, self@.work_apps, all);
        let mut apps: Vec<String> = Vec::new();
        core::mem::swap(&mut self.work_apps, &mut apps);
        let mut i: usize = 0;
        assert(all.skip(0) =~= all);
        while i < running.len()
            invariant
                i <= running.len(),
                all == running.deep_view(),
                work == rules.whitelist.deep_view(),
                apps.deep_view().no_duplicates(),
                gathered(work, apps.deep_view(), all.skip(i as int)) == goal,
            decreases running.len() - i,
        {
            assert(all.skip(i as int)[0] == running[i as int]@);
            assert(all.skip(i as int).drop_first() =~= all.skip(i + 1));
            if rules.is_work_app(running[i].as_str()) && !holds_exactly(&apps, &running[i]) {
                let name = running[i].clone();
                assert(apps.deep_view().push(name@).no_duplicates());
                push_distinct(&mut apps, name);
            }
            i += 1;
        }
        self.work_apps = apps;
    }

    /// Puts the session under the identity `id`.
    pub fn set_id(&mut self, id: SessionId)
        ensures
            final(self)@ == (SessionView { id, ..old(self)@ }),
    {
        proof {
            use_type_invariant(&*self);
        }
        self.id = id;
    }

    /// Ends an active session at `now`, unless `now` lies before its start.
    /// Says whether the session was ended by this call.
    pub fn close(&mut self, now: Timestamp) -> (closed: bool)
        ensures
            closed == (old(self)@.active() && now.at_or_after(old(self)@.start_time)),
            closed ==> final(self)@ == old(self)@.ended(now),
            !closed ==> final(self)@ == old(self)@,
            final(self)@.wf(),
    {
        proof {
            use_type_invariant(&*self);
        }
        if self.end_time.is_none() && now.is_at_or_after(&self.start_time) {
            self.end_time = Some(now);
            true
        } else {
            false
        }
    }
}

impl Clone for FocusSession {
    fn clone(&self) -> (copy: FocusSession)
        ensures
            copy@ == self@,
    {
        proof {
            use_type_invariant(self);
        }
        let apps = self.work_apps.clone();
        assert(apps.deep_view() =~= self.work_apps.deep_view());
        FocusSession {
            id: self.id,
            start_time: self.start_time,
            end_time: self.end_time,
            work_apps: apps,
            distraction_attempts: self.distraction_attempts,
        }
    }
}

/// Appends `name`, which `names` does not hold yet.
fn push_distinct(names: &mut Vec<String>, name: String)
    requires
        old(names).deep_view().push(name@).no_duplicates(),
    ensures
        final(names).deep_view() == old(names).deep_view().push(name@),
        final(names).deep_view().no_duplicates(),
{
    names.push(name);
    assert(names.deep_view() =~= old(names).deep_view().push(name@));
}

/// The names of `names`, each once, in the order of first appearance.
pub fn distinct_names(names: &Vec<String>) -> (kept: Vec<String>)
    ensures
        kept.deep_view() == distinct(names.deep_view()),
        kept.deep_view().no_duplicates(),
{
    let ghost all = names.deep_view();
    let mut kept: Vec<String> = Vec::new();
    let mut i: usize = 0;
    assert(kept.deep_view() =~= distinct(all.take(0)));
    while i < names.len()
        invariant
            i <= names.len(),
            all == names.deep_view(),
            kept.deep_view() == distinct(all.take(i as int)),
            kept.deep_view().no_duplicates(),
        decreases names.len() - i,
    {
        assert(all.take(i + 1).drop_last() =~= all.take(i as int));
        assert(all.take(i + 1).last() == names[i as int]@);
        if !holds_exactly(&kept, &names[i]) {
            let name = names[i].clone();
            assert(kept.deep_view().push(name@).no_duplicates());
            push_distinct(&mut kept, name);
        }
        i += 1;
    }
    assert(all.take(i as int) =~= all);
    kept
}

} // verus!
