//! Last-write-wins reconciliation of two lists of session records, as a
//! mathematical model, and the laws that hold of it.

use crate::names::joined;
use crate::session::SessionView;
use vstd::prelude::*;

verus! {

/// The key under which two records count as the same session: the second in
/// which the session started and its applications, separated by commas.
pub open spec fn merge_key(session: SessionView) -> (u64, Seq<char>) {
    (session.start_time.secs, joined(session.work_apps, ","@))
}

/// The position of the first record of `held` with the key `key`, or the
/// length of `held` where there is none.
pub open spec fn slot_of(held: Seq<SessionView>, key: (u64, Seq<char>)) -> int
    decreases held.len(),
{
    if held.len() == 0 {
        0
    } else if merge_key(held[0]) == key {
        0
    } else {
        1 + slot_of(held.drop_first(), key)
    }
}

/// No two records of `held` have the same key.
pub open spec fn keys_distinct(held: Seq<SessionView>) -> bool {
    forall|i: int, j: int|
        0 <= i < j < held.len() ==> merge_key(#[trigger] held[i]) != merge_key(#[trigger] held[j])
}

/// The record that stays when `incoming` meets `present` under the same
/// key. A local record replaces what is there; a remote record replaces it
/// unless what is there started strictly later.
pub open spec fn settle(present: SessionView, incoming: SessionView, remote: bool) -> SessionView {
    if !remote || incoming.start_time.at_or_after(present.start_time) {
        incoming
    } else {
        present
    }
}

/// `held` after `incoming` has arrived: it meets the record of its key, or
/// is appended where there is none.
pub open spec fn upsert(held: Seq<SessionView>, incoming: SessionView, remote: bool) -> Seq<
    SessionView,
> {
    let slot = slot_of(held, merge_key(incoming));
    if slot < held.len() {
        held.update(slot, settle(held[slot], incoming, remote))
    } else {
        held.push(incoming)
    }
}

/// `held` after the records of `incoming` have arrived one by one.
pub open spec fn pass(held: Seq<SessionView>, incoming: Seq<SessionView>, remote: bool) -> Seq<
    SessionView,
>
    decreases incoming.len(),
{
    if incoming.len() == 0 {
        held
    } else {
        upsert(pass(held, incoming.drop_last(), remote), incoming.last(), remote)
    }
}

/// The reconciled list: the local records, then the remote ones, each
/// meeting the record of its key. The list holds one record for each key,
/// in the order in which the keys first appear.
pub open spec fn merged(local: Seq<SessionView>, remote: Seq<SessionView>) -> Seq<SessionView> {
    pass(pass(Seq::empty(), local, false), remote, true)
}

/// What `slot_of` finds: the first position with the key.
pub proof fn lemma_slot_of(held: Seq<SessionView>, key: (u64, Seq<char>))
    ensures
        0 <= slot_of(held, key) <= held.len(),
        slot_of(held, key) < held.len() ==> merge_key(held[slot_of(held, key)]) == key,
        forall|i: int| 0 <= i < slot_of(held, key) ==> merge_key(#[trigger] held[i]) != key,
    decreases held.len(),
{
    if held.len() > 0 && merge_key(held[0]) != key {
        lemma_slot_of(held.drop_first(), key);
        let rest = slot_of(held.drop_first(), key);
        assert forall|i: int| 0 <= i < 1 + rest implies merge_key(#[trigger] held[i]) != key by {
            if i > 0 {
                assert(held.drop_first()[i - 1] == held[i]);
            }
        }
        if rest < held.drop_first().len() {
            assert(held.drop_first()[rest] == held[rest + 1]);
        }
    }
}

/// The first position with the key is `i` where `held[i]` has the key and
/// no record before it has.
pub proof fn lemma_slot_found(held: Seq<SessionView>, key: (u64, Seq<char>), i: int)
    requires
        0 <= i <= held.len(),
        i < held.len() ==> merge_key(held[i]) == key,
        forall|k: int| 0 <= k < i ==> merge_key(#[trigger] held[k]) != key,
    ensures
        slot_of(held, key) == i,
{
    lemma_slot_of(held, key);
}

/// An arrival keeps the keys apart, keeps every key in its place, and
/// leaves the arrived record's key in the list.
pub proof fn lemma_upsert(held: Seq<SessionView>, incoming: SessionView, remote: bool)
    requires
        keys_distinct(held),
    ensures
        keys_distinct(upsert(held, incoming, remote)),
        held.len() <= upsert(held, incoming, remote).len() <= held.len() + 1,
        forall|i: int|
            0 <= i < held.len() ==> merge_key(#[trigger] upsert(held, incoming, remote)[i])
                == merge_key(held[i]),
        forall|key: (u64, Seq<char>)|
            slot_of(held, key) < held.len() ==> #[trigger] slot_of(
                upsert(held, incoming, remote),
                key,
            ) == slot_of(held, key),
        slot_of(upsert(held, incoming, remote), merge_key(incoming)) == slot_of(
            held,
            merge_key(incoming),
        ),
        slot_of(held, merge_key(incoming)) < upsert(held, incoming, remote).len(),
{
    let key = merge_key(incoming);
    let slot = slot_of(held, key);
    let next = upsert(held, incoming, remote);
    lemma_slot_of(held, key);
    assert forall|i: int| 0 <= i < held.len() implies merge_key(#[trigger] next[i]) == merge_key(
        held[i],
    ) by {}
    assert forall|i: int, j: int| 0 <= i < j < next.len() implies merge_key(#[trigger] next[i])
        != merge_key(#[trigger] next[j]) by {
        if j < held.len() {
            assert(merge_key(held[i]) != merge_key(held[j]));
        } else {
            assert(merge_key(held[i]) != key);
        }
    }
    assert forall|other: (u64, Seq<char>)| slot_of(held, other) < held.len() implies #[trigger] slot_of(
        next,
        other,
    ) == slot_of(held, other) by {
        lemma_slot_of(held, other);
        lemma_slot_found(next, other, slot_of(held, other));
    }
    lemma_slot_found(next, key, slot);
}

/// A pass keeps the keys apart.
pub proof fn lemma_pass_keys_distinct(held: Seq<SessionView>, incoming: Seq<SessionView>, remote: bool)
    requires
        keys_distinct(held),
    ensures
        keys_distinct(pass(held, incoming, remote)),
    decreases incoming.len(),
{
    if incoming.len() > 0 {
        lemma_pass_keys_distinct(held, incoming.drop_last(), remote);
        lemma_upsert(pass(held, incoming.drop_last(), remote), incoming.last(), remote);
    }
}

/// The reconciled list holds each key once.
pub proof fn lemma_merged_keys_distinct(local: Seq<SessionView>, remote: Seq<SessionView>)
    ensures
        keys_distinct(merged(local, remote)),
{
    lemma_pass_keys_distinct(Seq::empty(), local, false);
    lemma_pass_keys_distinct(pass(Seq::empty(), local, false), remote, true);
}

/// A local pass over records with distinct keys, starting from nothing,
/// gives back those records.
pub proof fn lemma_local_pass_of_distinct(held: Seq<SessionView>)
    requires
        keys_distinct(held),
    ensures
        pass(Seq::empty(), held, false) == held,
    decreases held.len(),
{
    if held.len() > 0 {
        let front = held.drop_last();
        lemma_local_pass_of_distinct(front);
        assert forall|k: int| 0 <= k < front.len() implies merge_key(#[trigger] front[k])
            != merge_key(held.last()) by {
            assert(front[k] == held[k]);
        }
        lemma_slot_found(front, merge_key(held.last()), front.len() as int);
        assert(front.push(held.last()) =~= held);
    } else {
        assert(pass(Seq::empty(), held, false) =~= held);
    }
}

/// The record `incoming[j]` has nothing to add to `held`: `held` has a
/// record of its key that started no earlier, and where the two started at
/// the same instant, that record of `held` arrives again at or after `j`.
pub open spec fn absorbed(held: Seq<SessionView>, incoming: Seq<SessionView>, j: int) -> bool {
    let slot = slot_of(held, merge_key(incoming[j]));
    &&& slot < held.len()
    &&& held[slot].start_time.at_or_after(incoming[j].start_time)
    &&& incoming[j].start_time.at_or_after(held[slot].start_time) ==> exists|later: int|
        j <= later < incoming.len() && #[trigger] incoming[later] == held[slot]
}

/// `held` holds each key once and every record of `incoming` is absorbed.
pub open spec fn settled_under(held: Seq<SessionView>, incoming: Seq<SessionView>) -> bool {
    &&& keys_distinct(held)
    &&& forall|j: int| 0 <= j < incoming.len() ==> #[trigger] absorbed(held, incoming, j)
}

/// After a remote pass every record that arrived is absorbed.
pub proof fn lemma_pass_settles(held: Seq<SessionView>, incoming: Seq<SessionView>)
    requires
        keys_distinct(held),
    ensures
        settled_under(pass(held, incoming, true), incoming),
    decreases incoming.len(),
{
    lemma_pass_keys_distinct(held, incoming, true);
    if incoming.len() > 0 {
        let front = incoming.drop_last();
        let last = incoming.last();
        let before = pass(held, front, true);
        let after = upsert(before, last, true);
        lemma_pass_settles(held, front);
        lemma_upsert(before, last, true);
        let slot = slot_of(before, merge_key(last));
        lemma_slot_of(before, merge_key(last));
        assert forall|j: int| 0 <= j < incoming.len() implies #[trigger] absorbed(
            after,
            incoming,
            j,
        ) by {
            if j < front.len() {
                assert(front[j] == incoming[j]);
                assert(absorbed(before, front, j));
                let at = slot_of(before, merge_key(incoming[j]));
                assert(0 <= at < before.len()) by {
                    lemma_slot_of(before, merge_key(incoming[j]));
                }
                assert(slot_of(after, merge_key(incoming[j])) == at);
                if incoming[j].start_time.at_or_after(after[at].start_time) {
                    if at == slot && last.start_time.at_or_after(before[at].start_time) {
                        assert(incoming[incoming.len() - 1] == after[at]);
                    } else {
                        assert(after[at] == before[at]);
                        let later = choose|later: int|
                            j <= later < front.len() && #[trigger] front[later] == before[at];
                        assert(incoming[later] == after[at]);
                    }
                }
            } else {
                if incoming[j].start_time.at_or_after(after[slot].start_time) {
                    assert(incoming[j] == after[slot]);
                }
            }
        }
    }
}

/// Two lists that agree on the key at every position agree on where a key
/// is found.
pub proof fn lemma_slot_of_same_keys(
    held: Seq<SessionView>,
    other: Seq<SessionView>,
    key: (u64, Seq<char>),
)
    requires
        held.len() == other.len(),
        forall|i: int| 0 <= i < held.len() ==> merge_key(#[trigger] held[i]) == merge_key(other[i]),
    ensures
        slot_of(held, key) == slot_of(other, key),
{
    lemma_slot_of(other, key);
    let slot = slot_of(other, key);
    assert forall|k: int| 0 <= k < slot implies merge_key(#[trigger] held[k]) != key by {
        assert(merge_key(other[k]) != key);
    }
    lemma_slot_found(held, key, slot);
}

/// While the records of `incoming` arrive a second time, a record of the
/// list differs from the settled one only by a record that started at the
/// same instant, and then the settled record is still to arrive.
proof fn lemma_second_pass(held: Seq<SessionView>, incoming: Seq<SessionView>, n: int)
    requires
        settled_under(held, incoming),
        0 <= n <= incoming.len(),
    ensures
        pass(held, incoming.take(n), true).len() == held.len(),
        forall|i: int|
            0 <= i < held.len() ==> merge_key(#[trigger] pass(held, incoming.take(n), true)[i])
                == merge_key(held[i]),
        forall|i: int|
            0 <= i < held.len() && #[trigger] pass(held, incoming.take(n), true)[i] != held[i] ==> {
                &&& pass(held, incoming.take(n), true)[i].start_time == held[i].start_time
                &&& exists|later: int|
                    n <= later < incoming.len() && #[trigger] incoming[later] == held[i]
            },
    decreases n,
{
    if n > 0 {
        lemma_second_pass(held, incoming, n - 1);
        assert(incoming.take(n).drop_last() =~= incoming.take(n - 1));
        assert(incoming.take(n).last() == incoming[n - 1]);
        let before = pass(held, incoming.take(n - 1), true);
        let arrived = incoming[n - 1];
        let after = upsert(before, arrived, true);
        assert(after == pass(held, incoming.take(n), true));
        lemma_slot_of_same_keys(before, held, merge_key(arrived));
        let slot = slot_of(held, merge_key(arrived));
        assert(absorbed(held, incoming, n - 1));
        lemma_slot_of(held, merge_key(arrived));
        assert forall|i: int| 0 <= i < held.len() && #[trigger] after[i] != held[i] implies {
            &&& after[i].start_time == held[i].start_time
            &&& exists|later: int| n <= later < incoming.len() && #[trigger] incoming[later] == held[i]
        } by {
            if i == slot && arrived.start_time.at_or_after(before[i].start_time) {
                assert(after[i] == arrived);
                let later = choose|later: int|
                    n - 1 <= later < incoming.len() && #[trigger] incoming[later] == held[slot];
                assert(later != n - 1);
                assert(incoming[later] == held[i]);
            } else {
                assert(after[i] == before[i]);
                let later = choose|later: int|
                    n - 1 <= later < incoming.len() && #[trigger] incoming[later] == held[i];
                if later == n - 1 {
                    assert(merge_key(held[i]) == merge_key(held[slot]));
                    assert(i == slot);
                }
                assert(incoming[later] == held[i]);
            }
        }
    } else {
        assert(incoming.take(0) =~= Seq::<SessionView>::empty());
    }
}

/// A list in which every record of `incoming` is absorbed is left as it is
/// by a remote pass of `incoming`.
pub proof fn lemma_settled_pass_changes_nothing(held: Seq<SessionView>, incoming: Seq<SessionView>)
    requires
        settled_under(held, incoming),
    ensures
        pass(held, incoming, true) == held,
{
    lemma_second_pass(held, incoming, incoming.len() as int);
    assert(incoming.take(incoming.len() as int) =~= incoming);
    assert(pass(held, incoming, true) =~= held);
}

/// Reconciling is idempotent: reconciling the result with the same remote
/// records once more gives the result again.
pub proof fn lemma_merge_idempotent(local: Seq<SessionView>, remote: Seq<SessionView>)
    ensures
        merged(merged(local, remote), remote) == merged(local, remote),
{
    let once = merged(local, remote);
    lemma_merged_keys_distinct(local, remote);
    lemma_local_pass_of_distinct(once);
    lemma_pass_keys_distinct(Seq::empty(), local, false);
    lemma_pass_settles(pass(Seq::empty(), local, false), remote);
    lemma_settled_pass_changes_nothing(once, remote);
}

/// On a collision of keys the later record wins: where a remote record
/// meets a local one of its key that started no later, the reconciled list
/// holds the remote record in the local one's place.
pub proof fn lemma_later_remote_record_wins(local: SessionView, remote: SessionView)
    requires
        merge_key(local) == merge_key(remote),
        remote.start_time.at_or_after(local.start_time),
    ensures
        merged(seq![local], seq![remote]) == seq![remote],
{
    let locals = seq![local];
    let remotes = seq![remote];
    assert(locals.drop_last() =~= Seq::<SessionView>::empty());
    assert(remotes.drop_last() =~= Seq::<SessionView>::empty());
    assert(pass(Seq::empty(), locals.drop_last(), false) =~= Seq::<SessionView>::empty());
    let held = pass(Seq::empty(), locals, false);
    assert(held =~= seq![local]);
    assert(pass(held, remotes.drop_last(), true) == held);
    lemma_slot_found(held, merge_key(remote), 0);
    assert(merged(locals, remotes) =~= seq![remote]);
}

/// A local record that started strictly later than the remote record of
/// its key stays.
pub proof fn lemma_newer_local_record_stays(local: SessionView, remote: SessionView)
    requires
        merge_key(local) == merge_key(remote),
        remote.start_time.before(local.start_time),
    ensures
        merged(seq![local], seq![remote]) == seq![local],
{
    let locals = seq![local];
    let remotes = seq![remote];
    assert(locals.drop_last() =~= Seq::<SessionView>::empty());
    assert(remotes.drop_last() =~= Seq::<SessionView>::empty());
    assert(pass(Seq::empty(), locals.drop_last(), false) =~= Seq::<SessionView>::empty());
    let held = pass(Seq::empty(), locals, false);
    assert(held =~= seq![local]);
    assert(pass(held, remotes.drop_last(), true) == held);
    lemma_slot_found(held, merge_key(remote), 0);
    assert(merged(locals, remotes) =~= seq![local]);
}

} // verus!
