//! Replication to the remote store: the client's settings, the judgement of
//! each answer of the store, the status record of the last attempt, and the
//! reconciliation of local and remote session records.

use crate::clock::Timestamp;
use crate::error::SupabaseError;
use crate::names::{join, joined, trim_end_matches, without_trailing};
use crate::reconcile::{lemma_slot_found, lemma_slot_of, merge_key, merged, pass, slot_of, upsert};
use crate::session::{FocusSession, SessionView};
use vstd::pervasive::VecAdditionalExecFns;
use vstd::prelude::*;
use vstd::string::StringExecFns;

verus! {

/// What the client of the remote store is set up with.
#[derive(Debug)]
pub struct SyncConfig {
    pub api_key: String,
    pub base_url: String,
}

impl SyncConfig {
    /// The settings made of the two values as the environment holds them.
    /// A missing key is reported before a missing address.
    pub fn from_values(api_key: Option<String>, base_url: Option<String>) -> (config: Result<
        SyncConfig,
        SupabaseError,
    >)
        ensures
            config is Ok <==> api_key is Some && base_url is Some,
            config matches Ok(made) ==> made.api_key == api_key->0 && made.base_url == base_url->0,
            config matches Err(error) ==> error matches SupabaseError::Config(detail) && detail@ == (
            if api_key is None {
                "SUPABASE_API_KEY not set"@
            } else {
                "SUPABASE_URL not set"@
            }),
    {
        let api_key = match api_key {
            Some(key) => key,
            None => {
                return Err(SupabaseError::Config(String::from_str("SUPABASE_API_KEY not set")));
            },
        };
        let base_url = match base_url {
            Some(url) => url,
            None => {
                return Err(SupabaseError::Config(String::from_str("SUPABASE_URL not set")));
            },
        };
        Ok(SyncConfig { api_key, base_url })
    }

    /// The address of `table`: the base address without slashes at its end,
    /// a slash, and the table's name.
    pub fn endpoint(&self, table: &str) -> (url: String)
        ensures
            url@ == without_trailing(self.base_url@, '/') + "/"@ + table@,
    {
        trim_end_matches(self.base_url.as_str(), '/').concat("/").concat(table)
    }
}

/// What came back from a request to the remote store.
#[derive(Debug)]
pub enum Reply {
    /// The store answered: the status code, the status as text, and the body.
    Answer { code: u16, status: String, body: String },
    /// No answer came; the text says why.
    Failure(String),
}

/// What a request was for.
#[derive(Clone, Copy, Debug, PartialEq, Eq, Structural)]
pub enum Exchange {
    /// Records were sent to the store.
    Push,
    /// Records were fetched from the store.
    Pull,
}

/// The status code stands for success.
pub open spec fn success_code(code: u16) -> bool {
    200 <= code < 300
}

/// The text that reports an answer with a failure status.
pub open spec fn failure_text(exchange: Exchange, status: Seq<char>, body: Seq<char>) -> Seq<char> {
    (match exchange {
        Exchange::Push => "Supabase sync failed: "@,
        Exchange::Pull => "Supabase pull failed: "@,
    }) + status + " - "@ + body
}

/// Judges the reply to a request: an answer with a status from 200 to 299
/// is a success, any other answer an error of the store, and no answer a
/// failure of the transport.
pub fn judge(exchange: Exchange, reply: Reply) -> (result: Result<(), SupabaseError>)
    ensures
        match reply {
            Reply::Answer { code, status, body } => if success_code(code) {
                result is Ok
            } else {
                result matches Err(SupabaseError::Api(detail)) && detail@ == failure_text(
                    exchange,
                    status@,
                    body@,
                )
            },
            Reply::Failure(reason) => result matches Err(SupabaseError::Http(detail)) && detail@
                == reason@,
        },
{
    match reply {
        Reply::Answer { code, status, body } => {
            if 200 <= code && code < 300 {
                Ok(())
            } else {
                let lead = match exchange {
                    Exchange::Push => String::from_str("Supabase sync failed: "),
                    Exchange::Pull => String::from_str("Supabase pull failed: "),
                };
                let text = lead.concat(status.as_str()).concat(" - ").concat(body.as_str());
                Err(SupabaseError::Api(text))
            }
        },
        Reply::Failure(reason) => Err(SupabaseError::Http(reason)),
    }
}

/// How the last attempt to reach the remote store went.
#[derive(Debug)]
pub struct SyncStatus {
    pub last_sync_time: Option<Timestamp>,
    /// `true` for a success, `false` for a failure.
    pub last_result: Option<bool>,
    pub last_error: Option<String>,
}

impl SyncStatus {
    /// The status before any attempt.
    pub fn new() -> (status: SyncStatus)
        ensures
            status.last_sync_time is None,
            status.last_result is None,
            status.last_error is None,
    {
        SyncStatus { last_sync_time: None, last_result: None, last_error: None }
    }

    /// Records an attempt made at `now`.
    pub fn update(&mut self, success: bool, error: Option<String>, now: Timestamp)
        ensures
            final(self).last_sync_time == Some(now),
            final(self).last_result == Some(success),
            final(self).last_error == error,
    {
        self.last_sync_time = Some(now);
        self.last_result = Some(success);
        self.last_error = error;
    }

    /// Judges the reply to a push made at `now` and records the attempt:
    /// a success without a text, a failure with the text of its error.
    pub fn record(&mut self, reply: Reply, now: Timestamp) -> (result: Result<(), SupabaseError>)
        ensures
            final(self).last_sync_time == Some(now),
            final(self).last_result == Some(result is Ok),
            match reply {
                Reply::Answer { code, status, body } => if success_code(code) {
                    result is Ok && final(self).last_error is None
                } else {
                    &&& result matches Err(SupabaseError::Api(detail)) && detail@ == failure_text(
                        Exchange::Push,
                        status@,
                        body@,
                    )
                    &&& final(self).last_error matches Some(text) && text@ == failure_text(
                        Exchange::Push,
                        status@,
                        body@,
                    )
                },
                Reply::Failure(reason) => {
                    &&& result matches Err(SupabaseError::Http(detail)) && detail@ == reason@
                    &&& final(self).last_error matches Some(text) && text@ == reason@
                },
            },
    {
        let result = judge(Exchange::Push, reply);
        let text = match &result {
            Ok(_) => None,
            Err(SupabaseError::Api(detail)) => Some(detail.clone()),
            Err(SupabaseError::Http(detail)) => Some(detail.clone()),
            Err(other) => Some(other.message()),
        };
        self.update(result.is_ok(), text, now);
        result
    }
}

/// The views of the sessions of `sessions`, in order.
pub open spec fn session_views(sessions: Seq<FocusSession>) -> Seq<SessionView> {
    Seq::new(sessions.len(), |i: int| sessions[i]@)
}

/// The position of the first session of `held` with the key of `secs` and
/// `apps`, or the length of `held` where there is none. `keys` holds the
/// joined applications of each session of `held`.
fn find_slot(held: &Vec<FocusSession>, keys: &Vec<String>, secs: u64, apps: &String) -> (slot: usize)
    requires
        keys.len() == held.len(),
        forall|k: int|
            0 <= k < held.len() ==> (#[trigger] keys[k])@ == joined(held[k]@.work_apps, ","@),
    ensures
        slot == slot_of(session_views(held@), (secs, apps@)),
        slot <= held.len(),
{
    let mut i: usize = 0;
    while i < held.len()
        invariant
            i <= held.len(),
            keys.len() == held.len(),
            forall|k: int|
                0 <= k < held.len() ==> (#[trigger] keys[k])@ == joined(held[k]@.work_apps, ","@),
            forall|k: int|
                0 <= k < i ==> merge_key(#[trigger] session_views(held@)[k]) != (secs, apps@),
        decreases held.len() - i,
    {
        if held[i].start_time().secs == secs && keys[i] == *apps {
            proof {
                lemma_slot_found(session_views(held@), (secs, apps@), i as int);
            }
            return i;
        }
        i += 1;
    }
    proof {
        lemma_slot_found(session_views(held@), (secs, apps@), i as int);
    }
    i
}

/// Lets `incoming` arrive in `held`.
fn arrive(held: &mut Vec<FocusSession>, keys: &mut Vec<String>, incoming: FocusSession, remote: bool)
    requires
        old(keys).len() == old(held).len(),
        forall|k: int|
            0 <= k < old(held).len() ==> (#[trigger] old(keys)[k])@ == joined(
                old(held)[k]@.work_apps,
                ","@,
            ),
    ensures
        final(keys).len() == final(held).len(),
        forall|k: int|
            0 <= k < final(held).len() ==> (#[trigger] final(keys)[k])@ == joined(
                final(held)[k]@.work_apps,
                ","@,
            ),
        session_views(final(held)@) == upsert(session_views(old(held)@), incoming@, remote),
{
    let apps = join(incoming.work_apps(), ",");
    let secs = incoming.start_time().secs;
    let slot = find_slot(held, keys, secs, &apps);
    let ghost before = session_views(held@);
    if slot < held.len() {
        if !remote || incoming.start_time().is_at_or_after(held[slot].start_time()) {
            held.set(slot, incoming);
            assert(session_views(held@) =~= before.update(slot as int, incoming@));
        }
        proof {
            lemma_slot_of(before, merge_key(incoming@));
            assert(session_views(held@) =~= upsert(before, incoming@, remote));
        }
    } else {
        held.push(incoming);
        keys.push(apps);
        assert(session_views(held@) =~= before.push(incoming@));
    }
}

/// Reconciles the local and the remote records of the sessions by last
/// write wins.
///
/// Two records are the same session when they started in the same second
/// with the same applications. A local record replaces an earlier local
/// one of its session. A remote record replaces the record of its session
/// unless that one started strictly later. The result holds one record for
/// each session, in the order in which the sessions first appear in
/// `local` followed by `remote`.
pub fn merge_sessions(local: Vec<FocusSession>, remote: Vec<FocusSession>) -> (result: Vec<
    FocusSession,
>)
    ensures
        session_views(result@) == merged(session_views(local@), session_views(remote@)),
{
    let mut held: Vec<FocusSession> = Vec::new();
    let mut keys: Vec<String> = Vec::new();
    let ghost locals = session_views(local@);
    let ghost remotes = session_views(remote@);
    assert(session_views(held@) =~= Seq::<SessionView>::empty());
    let mut i: usize = 0;
    assert(locals.take(0) =~= Seq::<SessionView>::empty());
    while i < local.len()
        invariant
            i <= local.len(),
            locals == session_views(local@),
            keys.len() == held.len(),
            forall|k: int|
                0 <= k < held.len() ==> (#[trigger] keys[k])@ == joined(held[k]@.work_apps, ","@),
            session_views(held@) == pass(Seq::empty(), locals.take(i as int), false),
        decreases local.len() - i,
    {
        assert(locals.take(i + 1).drop_last() =~= locals.take(i as int));
        assert(locals.take(i + 1).last() == local[i as int]@);
        arrive(&mut held, &mut keys, local[i].clone(), false);
        i += 1;
    }
    assert(locals.take(i as int) =~= locals);
    let ghost base = session_views(held@);
    let mut j: usize = 0;
    assert(remotes.take(0) =~= Seq::<SessionView>::empty());
    while j < remote.len()
        invariant
            j <= remote.len(),
            remotes == session_views(remote@),
            keys.len() == held.len(),
            forall|k: int|
                0 <= k < held.len() ==> (#[trigger] keys[k])@ == joined(held[k]@.work_apps, ","@),
            session_views(held@) == pass(base, remotes.take(j as int), true),
        decreases remote.len() - j,
    {
        assert(remotes.take(j + 1).drop_last() =~= remotes.take(j as int));
        assert(remotes.take(j + 1).last() == remote[j as int]@);
        arrive(&mut held, &mut keys, remote[j].clone(), true);
        j += 1;
    }
    assert(remotes.take(j as int) =~= remotes);
    held
}

/// The key under which `session` is reconciled: the second in which it
/// started and its applications, separated by commas.
pub fn session_key(session: &FocusSession) -> (key: (u64, String))
    ensures
        (key.0, key.1@) == merge_key(session@),
{
    (session.start_time().secs, join(session.work_apps(), ","))
}

} // verus!
