//! Counters of what the poll loop has seen, and the moment of the last
//! summary.

use crate::clock::Timestamp;
use crate::constants::SUMMARY_INTERVAL_SECS;
use crate::logger::{decimal, decimal_text};
use crate::manager::SessionManager;
use crate::names::str_eq;
use vstd::pervasive::VecAdditionalExecFns;
use vstd::prelude::*;
use vstd::string::StringExecFns;

verus! {

/// `count` plus one, or `count` where it is the largest number a counter holds.
pub open spec fn bumped(count: u64) -> u64 {
    if count < u64::MAX {
        (count + 1) as u64
    } else {
        count
    }
}

/// The counts after `name` was seen once more.
pub open spec fn counted(counts: Map<Seq<char>, u64>, name: Seq<char>) -> Map<Seq<char>, u64> {
    counts.insert(
        name,
        if counts.contains_key(name) {
            bumped(counts[name])
        } else {
            1
        },
    )
}

/// The counts after each name of `names` was seen once more, in order.
pub open spec fn counted_all(counts: Map<Seq<char>, u64>, names: Seq<Seq<char>>) -> Map<Seq<char>, u64>
    decreases names.len(),
{
    if names.len() == 0 {
        counts
    } else {
        counted(counted_all(counts, names.drop_last()), names.last())
    }
}

/// One application and how often it was seen.
#[derive(Debug)]
pub struct AppCount {
    pub name: String,
    pub count: u64,
}

/// The names of `entries`, in order.
pub open spec fn names_of(entries: Seq<AppCount>) -> Seq<Seq<char>> {
    Seq::new(entries.len(), |i: int| entries[i].name@)
}

/// How often each application was seen, in the order in which the
/// applications were first seen.
#[derive(Debug)]
pub struct AppFrequency {
    entries: Vec<AppCount>,
}

impl View for AppFrequency {
    type V = Map<Seq<char>, u64>;

    closed spec fn view(&self) -> Map<Seq<char>, u64> {
        Map::new(
            |name: Seq<char>| names_of(self.entries@).contains(name),
            |name: Seq<char>| self.entries@[names_of(self.entries@).index_of(name)].count,
        )
    }
}

/// The position of `name` in `entries`, or their number where it is not
/// among them.
fn position(entries: &Vec<AppCount>, name: &str) -> (at: usize)
    ensures
        at <= entries.len(),
        at < entries.len() ==> names_of(entries@)[at as int] == name@,
        at == entries.len() ==> !names_of(entries@).contains(name@),
{
    let mut i: usize = 0;
    while i < entries.len()
        invariant
            i <= entries.len(),
            forall|k: int| 0 <= k < i ==> names_of(entries@)[k] != name@,
        decreases entries.len() - i,
    {
        if str_eq(entries[i].name.as_str(), name) {
            return i;
        }
        i += 1;
    }
    i
}

/// `top` ranks the applications of `counts`: it holds the `limit` seen
/// most often, or all where there are fewer, each once with its count, the
/// one seen most often first.
pub open spec fn is_ranking(counts: Map<Seq<char>, u64>, top: Seq<AppCount>, limit: nat) -> bool {
    &&& counts.dom().finite()
    &&& top.len() == (if limit <= counts.dom().len() {
        limit
    } else {
        counts.dom().len()
    })
    &&& forall|k: int|
        0 <= k < top.len() ==> counts.contains_key(#[trigger] top[k].name@) && counts[top[k].name@]
            == top[k].count
    &&& forall|a: int, b: int|
        0 <= a < b < top.len() ==> (#[trigger] top[a]).name@ != (#[trigger] top[b]).name@
            && top[a].count >= top[b].count
    &&& forall|name: Seq<char>, k: int|
        counts.contains_key(name) && 0 <= k < top.len() && !names_of(top).contains(name) ==> (
        #[trigger] top[k]).count >= #[trigger] counts[name]
}

/// The number of flags of `flags` that are set.
pub open spec fn count_set(flags: Seq<bool>) -> nat
    decreases flags.len(),
{
    if flags.len() == 0 {
        0
    } else {
        count_set(flags.drop_last()) + (if flags.last() {
            1nat
        } else {
            0nat
        })
    }
}

/// Where fewer flags are set than there are flags, one is not set.
proof fn lemma_some_flag_clear(flags: Seq<bool>)
    requires
        count_set(flags) < flags.len(),
    ensures
        exists|i: int| 0 <= i < flags.len() && !flags[i],
    decreases flags.len(),
{
    if flags.len() > 0 {
        if flags.last() {
            lemma_some_flag_clear(flags.drop_last());
            let i = choose|i: int| 0 <= i < flags.drop_last().len() && !flags.drop_last()[i];
            assert(!flags[i]);
        } else {
            assert(!flags[flags.len() - 1]);
        }
    }
}

/// No more flags are set than there are flags.
proof fn lemma_count_set_bound(flags: Seq<bool>)
    ensures
        count_set(flags) <= flags.len(),
    decreases flags.len(),
{
    if flags.len() > 0 {
        lemma_count_set_bound(flags.drop_last());
    }
}

/// Setting a flag that is clear raises the count by one.
proof fn lemma_set_flag(flags: Seq<bool>, at: int)
    requires
        0 <= at < flags.len(),
        !flags[at],
    ensures
        count_set(flags.update(at, true)) == count_set(flags) + 1,
    decreases flags.len(),
{
    let after = flags.update(at, true);
    if at == flags.len() - 1 {
        assert(after.drop_last() =~= flags.drop_last());
    } else {
        lemma_set_flag(flags.drop_last(), at);
        assert(after.drop_last() =~= flags.drop_last().update(at, true));
    }
}

/// The position of an entry that is not taken yet and whose count no other
/// such entry exceeds.
fn best_left(entries: &Vec<AppCount>, taken: &Vec<bool>) -> (best: usize)
    requires
        taken.len() == entries.len(),
        exists|i: int| 0 <= i < taken.len() && !taken[i],
    ensures
        best < entries.len(),
        !taken[best as int],
        forall|i: int|
            0 <= i < entries.len() && !taken[i] ==> entries[best as int].count >= entries[i].count,
{
    let n = entries.len();
    let mut best: usize = n;
    let mut i: usize = 0;
    while i < n
        invariant
            i <= n,
            n == entries.len(),
            taken.len() == n,
            best <= n,
            best == n ==> forall|k: int| 0 <= k < i ==> taken[k],
            best < n ==> !taken[best as int] && forall|k: int|
                0 <= k < i && !taken[k] ==> entries[best as int].count >= entries[k].count,
        decreases n - i,
    {
        if !taken[i] && (best == n || entries[i].count > entries[best].count) {
            best = i;
        }
        i += 1;
    }
    best
}

impl AppFrequency {
    #[verifier::type_invariant]
    spec fn valid(self) -> bool {
        names_of(self.entries@).no_duplicates()
    }

    /// Counts of nothing.
    pub fn new() -> (counts: AppFrequency)
        ensures
            counts@ == Map::<Seq<char>, u64>::empty(),
    {
        let counts = AppFrequency { entries: Vec::new() };
        assert(counts@ =~= Map::<Seq<char>, u64>::empty());
        counts
    }

    /// How often `name` was seen, if it was.
    pub fn get(&self, name: &str) -> (count: Option<&u64>)
        ensures
            count is Some <==> self@.contains_key(name@),
            count matches Some(seen) ==> *seen == self@[name@],
    {
        proof {
            use_type_invariant(self);
        }
        let at = position(&self.entries, name);
        if at < self.entries.len() {
            proof {
                let names = names_of(self.entries@);
                assert(names.contains(name@));
                assert(names.index_of(name@) == at);
            }
            Some(&self.entries[at].count)
        } else {
            None
        }
    }

    /// The number of applications seen.
    pub fn len(&self) -> (n: usize)
        ensures
            self@.dom().finite(),
            n == self@.dom().len(),
    {
        proof {
            use_type_invariant(self);
            let names = names_of(self.entries@);
            names.unique_seq_to_set();
            assert(self@.dom() =~= names.to_set());
        }
        self.entries.len()
    }

    /// The applications seen most often, at most `limit` of them, the one
    /// seen most often first. Which of two applications seen equally often
    /// comes first, or is kept where only one fits, is not stated.
    pub fn top(&self, limit: usize) -> (top: Vec<AppCount>)
        ensures
            is_ranking(self@, top@, limit as nat),
    {
        proof {
            use_type_invariant(self);
        }
        let n = self.entries.len();
        let ghost names = names_of(self.entries@);
        let mut taken: Vec<bool> = Vec::new();
        while taken.len() < n
            invariant
                taken.len() <= n,
                forall|i: int| 0 <= i < taken.len() ==> !taken[i],
                count_set(taken@) == 0,
            decreases n - taken.len(),
        {
            let ghost before = taken@;
            taken.push(false);
            assert(taken@.drop_last() =~= before);
        }
        let mut top: Vec<AppCount> = Vec::new();
        let ghost mut picked: Seq<int> = Seq::empty();
        while top.len() < limit && top.len() < n
            invariant
                n == self.entries.len(),
                taken.len() == n,
                names == names_of(self.entries@),
                names.no_duplicates(),
                picked.len() == top.len(),
                top.len() <= n,
                top.len() <= limit,
                count_set(taken@) == top.len(),
                forall|k: int|
                    0 <= k < picked.len() ==> 0 <= #[trigger] picked[k] < n && taken[picked[k]]
                        && top[k].name@ == names[picked[k]] && top[k].count
                        == self.entries[picked[k]].count,
                forall|i: int|
                    0 <= i < n && #[trigger] taken[i] ==> exists|k: int|
                        0 <= k < picked.len() && picked[k] == i,
                forall|a: int, b: int|
                    0 <= a < b < top.len() ==> (#[trigger] top[a]).count >= (#[trigger] top[b]).count,
                forall|i: int, k: int|
                    0 <= i < n && !taken[i] && 0 <= k < top.len() ==> (#[trigger] top[k]).count
                        >= (#[trigger] self.entries[i]).count,
                forall|a: int, b: int|
                    0 <= a < b < picked.len() ==> #[trigger] picked[a] != #[trigger] picked[b],
            decreases n - top.len(),
        {
            proof {
                lemma_some_flag_clear(taken@);
            }
            let best = best_left(&self.entries, &taken);
            let ghost flags = taken@;
            let ghost chosen = picked;
            let ghost so_far = top@;
            proof {
                lemma_set_flag(flags, best as int);
            }
            taken.set(best, true);
            top.push(
                AppCount { name: self.entries[best].name.clone(), count: self.entries[best].count },
            );
            proof {
                picked = chosen.push(best as int);
                assert forall|i: int| 0 <= i < n && #[trigger] taken[i] implies exists|k: int|
                    0 <= k < picked.len() && picked[k] == i by {
                    if i == best {
                        assert(picked[chosen.len() as int] == i);
                    } else {
                        assert(flags[i]);
                        let k = choose|k: int| 0 <= k < chosen.len() && chosen[k] == i;
                        assert(picked[k] == i);
                    }
                }
                assert forall|k: int| 0 <= k < picked.len() implies 0 <= #[trigger] picked[k] < n
                    && taken[picked[k]] && top[k].name@ == names[picked[k]] && top[k].count
                    == self.entries[picked[k]].count by {
                    if k < chosen.len() {
                        assert(picked[k] == chosen[k]);
                        assert(top[k] == so_far[k]);
                    }
                }
                assert forall|a: int, b: int| 0 <= a < b < top.len() implies (#[trigger] top[a]).count
                    >= (#[trigger] top[b]).count by {
                    if b < so_far.len() {
                        assert(top[a] == so_far[a] && top[b] == so_far[b]);
                    } else {
                        assert(top[a] == so_far[a]);
                        assert(!flags[best as int]);
                    }
                }
                assert forall|a: int, b: int| 0 <= a < b < picked.len() implies #[trigger] picked[a]
                    != #[trigger] picked[b] by {
                    if b == chosen.len() {
                        assert(picked[a] == chosen[a]);
                        assert(flags[chosen[a]]);
                    } else {
                        assert(picked[a] == chosen[a] && picked[b] == chosen[b]);
                    }
                }
                assert forall|i: int, k: int| 0 <= i < n && !taken[i] && 0 <= k < top.len() implies (
                #[trigger] top[k]).count >= (#[trigger] self.entries[i]).count by {
                    assert(!flags[i]);
                    if k < so_far.len() {
                        assert(top[k] == so_far[k]);
                    }
                }
            }
        }
        proof {
            lemma_count_set_bound(taken@);
            names.unique_seq_to_set();
            assert(self@.dom() =~= names.to_set());
            assert(self@.dom().len() == n);
            assert forall|k: int| 0 <= k < top.len() implies self@.contains_key(
                #[trigger] top[k].name@,
            ) && self@[top[k].name@] == top[k].count by {
                let at = picked[k];
                assert(names[at] == top[k].name@);
                assert(names.contains(top[k].name@));
                assert(names.index_of(top[k].name@) == at);
            }
            assert forall|a: int, b: int| 0 <= a < b < top.len() implies (#[trigger] top[a]).name@ != (
            #[trigger] top[b]).name@ && top[a].count >= top[b].count by {
                assert(picked[a] != picked[b]);
                assert(names[picked[a]] != names[picked[b]]);
            }
            assert forall|name: Seq<char>, k: int|
                self@.contains_key(name) && 0 <= k < top.len() && !names_of(top@).contains(
                    name,
                ) implies (#[trigger] top[k]).count >= #[trigger] self@[name] by {
                let at = names.index_of(name);
                assert(names[at] == name);
                if taken[at] {
                    let j = choose|j: int| 0 <= j < picked.len() && picked[j] == at;
                    assert(names_of(top@)[j] == name);
                    assert(false);
                }
                assert(top[k].count >= self.entries[at].count);
            }
        }
        top
    }

    /// Counts `name` once more. A count that has reached `u64::MAX` stays
    /// there.
    pub fn bump(&mut self, name: &str)
        ensures
            final(self)@ == counted(old(self)@, name@),
    {
        proof {
            use_type_invariant(&*self);
        }
        let ghost before = self.entries@;
        let ghost names = names_of(before);
        let mut entries: Vec<AppCount> = Vec::new();
        assert(names_of(entries@) =~= Seq::<Seq<char>>::empty());
        core::mem::swap(&mut self.entries, &mut entries);
        let at = position(&entries, name);
        if at < entries.len() {
            let seen = entries[at].count;
            let next = if seen < u64::MAX {
                seen + 1
            } else {
                seen
            };
            entries.set(at, AppCount { name: String::from_str(name), count: next });
            assert(names_of(entries@) =~= names);
            self.entries = entries;
            proof {
                assert(names.contains(name@));
                assert forall|key: Seq<char>| names.contains(key) implies (#[trigger] self@[key])
                    == counted(old(self)@, name@)[key] by {
                    let k = names.index_of(key);
                    if key == name@ {
                        assert(k == at);
                    } else {
                        assert(k != at);
                    }
                }
                assert(self@ =~= counted(old(self)@, name@));
            }
        } else {
            entries.push(AppCount { name: String::from_str(name), count: 1 });
            assert(names_of(entries@) =~= names.push(name@));
            self.entries = entries;
            proof {
                let after = names.push(name@);
                assert forall|key: Seq<char>| after.contains(key) implies (#[trigger] self@[key])
                    == counted(old(self)@, name@)[key] by {
                    let k = after.index_of(key);
                    if key == name@ {
                        assert(after[names.len() as int] == name@);
                        assert(k == names.len());
                    } else {
                        assert(names.contains(key));
                        let j = names.index_of(key);
                        assert(after[j] == key);
                        assert(k == j);
                    }
                }
                assert forall|key: Seq<char>| after.contains(key) <==> names.contains(key) || key
                    == name@ by {
                    if names.contains(key) {
                        let j = names.index_of(key);
                        assert(after[j] == key);
                    }
                    if key == name@ {
                        assert(after[names.len() as int] == key);
                    }
                }
                assert(self@ =~= counted(old(self)@, name@));
            }
        }
    }
}

/// What the poll loop has seen.
#[derive(Debug)]
pub struct Metrics {
    /// The number of samples with a process in focus.
    pub total_checks: u64,
    /// The number of those in which the process was blocked.
    pub blocked_count: u64,
    /// How often each application was seen.
    pub app_frequency: AppFrequency,
    /// When the last summary was made.
    pub last_summary: Timestamp,
}

impl Metrics {
    /// Counters at zero, with `now` as the moment of the last summary.
    pub fn new(now: Timestamp) -> (metrics: Metrics)
        ensures
            metrics.total_checks == 0,
            metrics.blocked_count == 0,
            metrics.app_frequency@ == Map::<Seq<char>, u64>::empty(),
            metrics.last_summary == now,
    {
        Metrics {
            total_checks: 0,
            blocked_count: 0,
            app_frequency: AppFrequency::new(),
            last_summary: now,
        }
    }

    /// Counts one sample in which `process` had the focus. Each counter
    /// that has reached `u64::MAX` stays there.
    pub fn update(&mut self, process: &str, is_blocked: bool)
        ensures
            final(self).total_checks == bumped(old(self).total_checks),
            final(self).blocked_count == (if is_blocked {
                bumped(old(self).blocked_count)
            } else {
                old(self).blocked_count
            }),
            final(self).app_frequency@ == counted(old(self).app_frequency@, process@),
            final(self).last_summary == old(self).last_summary,
    {
        if self.total_checks < u64::MAX {
            self.total_checks = self.total_checks + 1;
        }
        if is_blocked && self.blocked_count < u64::MAX {
            self.blocked_count = self.blocked_count + 1;
        }
        self.app_frequency.bump(process);
    }

    /// Counts what the manager saw at its last sample: the process in
    /// focus, if there was one, and each application of the active session.
    pub fn update_from_session(&mut self, session_mgr: &SessionManager)
        ensures
            final(self).last_summary == old(self).last_summary,
            final(self).total_checks == (if session_mgr@.last_checked_process is Some {
                bumped(old(self).total_checks)
            } else {
                old(self).total_checks
            }),
            final(self).blocked_count == (if session_mgr@.last_checked_process is Some
                && session_mgr@.last_blocked {
                bumped(old(self).blocked_count)
            } else {
                old(self).blocked_count
            }),
            final(self).app_frequency@ == counted_all(
                match session_mgr@.last_checked_process {
                    Some(process) => counted(old(self).app_frequency@, process),
                    None => old(self).app_frequency@,
                },
                match session_mgr@.session {
                    Some(session) => session.work_apps,
                    None => Seq::empty(),
                },
            ),
    {
        match session_mgr.last_checked_process() {
            Some(process) => {
                self.update(process.as_str(), session_mgr.last_blocked());
            },
            None => {},
        }
        let ghost base = self.app_frequency@;
        let ghost checks = self.total_checks;
        let ghost blocked = self.blocked_count;
        match session_mgr.current_session() {
            Some(session) => {
                let apps = session.work_apps();
                let ghost all = apps.deep_view();
                let mut i: usize = 0;
                assert(all.take(0) =~= Seq::<Seq<char>>::empty());
                while i < apps.len()
                    invariant
                        i <= apps.len(),
                        all == apps.deep_view(),
                        self.total_checks == checks,
                        self.blocked_count == blocked,
                        self.last_summary == old(self).last_summary,
                        self.app_frequency@ == counted_all(base, all.take(i as int)),
                    decreases apps.len() - i,
                {
                    assert(all.take(i + 1).drop_last() =~= all.take(i as int));
                    assert(all.take(i + 1).last() == apps[i as int]@);
                    self.app_frequency.bump(apps[i].as_str());
                    i += 1;
                }
                assert(all.take(i as int) =~= all);
            },
            None => {},
        }
    }

    /// Whether a summary is due at `now`: at least
    /// [`SUMMARY_INTERVAL_SECS`] seconds have passed since the last one.
    pub fn should_log_summary(&self, now: Timestamp) -> (due: bool)
        ensures
            due == !now.within(self.last_summary, SUMMARY_INTERVAL_SECS),
    {
        !now.is_within(&self.last_summary, SUMMARY_INTERVAL_SECS)
    }

    /// The summary of the counters, with the five applications seen most
    /// often, and `now` noted as the moment of this summary.
    pub fn log_summary(&mut self, now: Timestamp) -> (summary: MetricsSummary)
        ensures
            summary.total_checks == old(self).total_checks,
            summary.blocked_count == old(self).blocked_count,
            is_ranking(old(self).app_frequency@, summary.top_apps@, 5),
            final(self).last_summary == now,
            final(self).total_checks == old(self).total_checks,
            final(self).blocked_count == old(self).blocked_count,
            final(self).app_frequency@ == old(self).app_frequency@,
    {
        let top_apps = self.app_frequency.top(5);
        self.last_summary = now;
        MetricsSummary {
            total_checks: self.total_checks,
            blocked_count: self.blocked_count,
            top_apps,
        }
    }

    /// Takes note that a summary was made at `now`.
    pub fn mark_summary(&mut self, now: Timestamp)
        ensures
            final(self).last_summary == now,
            final(self).total_checks == old(self).total_checks,
            final(self).blocked_count == old(self).blocked_count,
            final(self).app_frequency@ == old(self).app_frequency@,
    {
        self.last_summary = now;
    }
}

/// The counters at the moment of a summary.
#[derive(Debug)]
pub struct MetricsSummary {
    pub total_checks: u64,
    pub blocked_count: u64,
    /// The applications seen most often, the one seen most often first.
    pub top_apps: Vec<AppCount>,
}

/// The line of a summary for one application.
pub open spec fn app_line(entry: AppCount) -> Seq<char> {
    "    "@ + entry.name@ + " -> "@ + decimal_text(entry.count as nat) + " times"@
}

/// The lines of a summary: a heading, the two totals, the applications
/// seen most often, and a rule.
pub open spec fn summary_text(summary: MetricsSummary) -> Seq<Seq<char>> {
    seq![
        "\n----- Focus Summary -----"@,
        "Total Checks: "@ + decimal_text(summary.total_checks as nat),
        "Blocked Detections: "@ + decimal_text(summary.blocked_count as nat),
        "Most Frequent Apps: "@,
    ] + Seq::new(summary.top_apps.len() as nat, |i: int| app_line(summary.top_apps[i]))
        + seq!["-------------------------\n"@]
}

impl MetricsSummary {
    /// The lines of the summary, as they are printed.
    pub fn lines(&self) -> (lines: Vec<String>)
        ensures
            lines.deep_view() == summary_text(*self),
    {
        let mut lines: Vec<String> = Vec::new();
        lines.push(String::from_str("\n----- Focus Summary -----"));
        lines.push(String::from_str("Total Checks: ").concat(decimal(self.total_checks).as_str()));
        lines.push(
            String::from_str("Blocked Detections: ").concat(decimal(self.blocked_count).as_str()),
        );
        lines.push(String::from_str("Most Frequent Apps: "));
        let ghost head = lines.deep_view();
        let mut i: usize = 0;
        while i < self.top_apps.len()
            invariant
                i <= self.top_apps.len(),
                lines.deep_view() == head + Seq::new(i as nat, |k: int| app_line(self.top_apps[k])),
            decreases self.top_apps.len() - i,
        {
            let entry = &self.top_apps[i];
            let line = String::from_str("    ").concat(entry.name.as_str()).concat(" -> ").concat(
                decimal(entry.count).as_str(),
            ).concat(" times");
            let ghost before = lines.deep_view();
            lines.push(line);
            assert(lines.deep_view() =~= before.push(app_line(self.top_apps[i as int])));
            assert(lines.deep_view() =~= head + Seq::new(
                (i + 1) as nat,
                |k: int| app_line(self.top_apps[k]),
            ));
            i += 1;
        }
        let ghost before = lines.deep_view();
        lines.push(String::from_str("-------------------------\n"));
        assert(lines.deep_view() =~= before.push("-------------------------\n"@));
        assert(lines.deep_view() =~= summary_text(*self));
        lines
    }
}

} // verus!
