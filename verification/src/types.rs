//! Identifiers and the usage-interval record shared by the other modules.

use vstd::prelude::*;
use vstd::std_specs::convert::FromSpecImpl;

verus! {

/// Mask of the version and variant bits of a 128-bit identifier.
pub const RANDOM_ID_MASK: u128 = 0x0000_0000_0000_f000_c000_0000_0000_0000u128;

/// The version and variant bits of a randomly drawn identifier.
pub const RANDOM_ID_BITS: u128 = 0x0000_0000_0000_4000_8000_0000_0000_0000u128;

/// Whether `value` carries the version and variant bits of a randomly drawn
/// identifier. Such a value is never zero.
pub open spec fn is_random_id(value: u128) -> bool {
    value & RANDOM_ID_MASK == RANDOM_ID_BITS
}

/// `uuid::Uuid::new_v4`, read as a 128-bit number with `Uuid::as_u128`: 122
/// bits from the operating system's random source, with the version bits set
/// to 4 and the variant bits to `10`. Which number comes back is not stated.
/// The call panics if the operating system cannot supply random bytes.
#[verifier::external_body]
fn random_id() -> (value: u128)
    ensures
        is_random_id(value),
{
    uuid::Uuid::new_v4().as_u128()
}

/// 16 to the power `n`.
pub open spec fn pow16(n: nat) -> nat
    decreases n,
{
    if n == 0 {
        1
    } else {
        16 * pow16((n - 1) as nat)
    }
}

/// The hexadecimal digit `n` as a character, with small letters.
pub open spec fn hex_char(n: int) -> char {
    if n < 10 {
        (48 + n) as char
    } else {
        (87 + n) as char
    }
}

/// The number of hyphens before position `i` of an identifier's text.
pub open spec fn hyphens_before(i: int) -> int {
    (if i > 8 {
        1int
    } else {
        0int
    }) + (if i > 13 {
        1int
    } else {
        0int
    }) + (if i > 18 {
        1int
    } else {
        0int
    }) + (if i > 23 {
        1int
    } else {
        0int
    })
}

/// The text of the identifier `value`: its 32 hexadecimal digits, the
/// most significant first, in groups of 8, 4, 4, 4 and 12 digits with a
/// hyphen between each two groups.
pub open spec fn id_text(value: u128) -> Seq<char> {
    Seq::new(
        36,
        |i: int|
            if i == 8 || i == 13 || i == 18 || i == 23 {
                '-'
            } else {
                hex_char((value as int / pow16((31 - (i - hyphens_before(i))) as nat) as int) % 16)
            },
    )
}

/// What `uuid::Uuid::parse_str` makes of `text`: the identifier that the
/// text spells in one of the forms the crate reads, or none.
pub uninterp spec fn parsed_id(text: Seq<char>) -> Option<u128>;

/// `uuid::Uuid::from_u128` and the `Display` of the result: the text of
/// the identifier in small hexadecimal digits with hyphens. `parse_str`
/// reads every text written so back to the same identifier.
#[verifier::external_body]
fn hyphenated(value: u128) -> (text: String)
    ensures
        text@ == id_text(value),
        parsed_id(text@) == Some(value),
{
    uuid::Uuid::from_u128(value).to_string()
}

/// `uuid::Uuid::parse_str`, read as a 128-bit number with `Uuid::as_u128`:
/// the identifier that `text` spells, or none where it spells none.
#[verifier::external_body]
fn parse_id(text: &str) -> (value: Option<u128>)
    ensures
        value == parsed_id(text@),
{
    match uuid::Uuid::parse_str(text) {
        Ok(id) => Some(id.as_u128()),
        Err(_) => None,
    }
}

/// Identity of a focus session.
#[derive(Clone, Copy, Debug, PartialEq, Eq, Hash, Structural)]
pub struct SessionId(pub u128);

impl SessionId {
    /// Draws the identity for a session that is about to start.
    pub fn generate() -> (id: SessionId)
        ensures
            is_random_id(id.0),
            id.0 != 0,
    {
        let value = random_id();
        assert(is_random_id(value) ==> value != 0) by (bit_vector);
        SessionId(value)
    }
}

impl SessionId {
    /// The text under which the identity is stored.
    pub fn to_text(&self) -> (text: String)
        ensures
            text@ == id_text(self.0),
            parsed_id(text@) == Some(self.0),
    {
        hyphenated(self.0)
    }

    /// The identity that `text` spells, if it spells one.
    pub fn parse(text: &str) -> (id: Option<SessionId>)
        ensures
            id == (match parsed_id(text@) {
                Some(value) => Some(SessionId(value)),
                None => None,
            }),
    {
        match parse_id(text) {
            Some(value) => Some(SessionId(value)),
            None => None,
        }
    }
}

impl From<u128> for SessionId {
    fn from(id: u128) -> (s: SessionId) {
        SessionId(id)
    }
}

impl FromSpecImpl<u128> for SessionId {
    open spec fn obeys_from_spec() -> bool {
        true
    }

    open spec fn from_spec(id: u128) -> SessionId {
        SessionId(id)
    }
}

impl From<SessionId> for u128 {
    fn from(id: SessionId) -> (v: u128) {
        id.0
    }
}

impl FromSpecImpl<SessionId> for u128 {
    open spec fn obeys_from_spec() -> bool {
        true
    }

    open spec fn from_spec(id: SessionId) -> u128 {
        id.0
    }
}

/// Identity of a usage interval.
#[derive(Clone, Copy, Debug, PartialEq, Eq, Hash, Structural)]
pub struct EventId(pub u128);

impl EventId {
    /// Draws the identity for a usage interval that is about to be recorded.
    pub fn generate() -> (id: EventId)
        ensures
            is_random_id(id.0),
            id.0 != 0,
    {
        let value = random_id();
        assert(is_random_id(value) ==> value != 0) by (bit_vector);
        EventId(value)
    }
}

impl EventId {
    /// The text under which the identity is stored.
    pub fn to_text(&self) -> (text: String)
        ensures
            text@ == id_text(self.0),
            parsed_id(text@) == Some(self.0),
    {
        hyphenated(self.0)
    }

    /// The identity that `text` spells, if it spells one.
    pub fn parse(text: &str) -> (id: Option<EventId>)
        ensures
            id == (match parsed_id(text@) {
                Some(value) => Some(EventId(value)),
                None => None,
            }),
    {
        match parse_id(text) {
            Some(value) => Some(EventId(value)),
            None => None,
        }
    }
}

/// The status text of a usage interval: `"blocked"` or `"allowed"`.
pub open spec fn status_text(blocked: bool) -> Seq<char> {
    if blocked {
        "blocked"@
    } else {
        "allowed"@
    }
}

/// The span during which one process held the input focus.
#[derive(Debug)]
pub struct AppUsageEvent {
    pub id: EventId,
    pub process_name: String,
    /// `"allowed"` or `"blocked"`, as the rules stood when the interval closed.
    pub status: String,
    /// The session that was open when the interval closed, if any.
    pub session_id: Option<SessionId>,
    /// Seconds since the epoch at which the process gained the focus.
    pub start_time: u64,
    /// Seconds since the epoch at which it lost the focus.
    pub end_time: u64,
    /// `end_time - start_time`.
    pub duration_secs: u64,
}

/// What an [`AppUsageEvent`] holds, with its texts as character sequences.
pub ghost struct UsageEventView {
    pub id: EventId,
    pub process_name: Seq<char>,
    pub status: Seq<char>,
    pub session_id: Option<SessionId>,
    pub start_time: u64,
    pub end_time: u64,
    pub duration_secs: u64,
}

impl UsageEventView {
    /// The duration is the distance from start to end, which is then never
    /// negative.
    pub open spec fn consistent(self) -> bool {
        self.start_time + self.duration_secs == self.end_time
    }
}

impl View for AppUsageEvent {
    type V = UsageEventView;

    open spec fn view(&self) -> UsageEventView {
        UsageEventView {
            id: self.id,
            process_name: self.process_name@,
            status: self.status@,
            session_id: self.session_id,
            start_time: self.start_time,
            end_time: self.end_time,
            duration_secs: self.duration_secs,
        }
    }
}

impl Clone for AppUsageEvent {
    fn clone(&self) -> (copy: AppUsageEvent)
        ensures
            copy@ == self@,
    {
        AppUsageEvent {
            id: self.id,
            process_name: self.process_name.clone(),
            status: self.status.clone(),
            session_id: self.session_id,
            start_time: self.start_time,
            end_time: self.end_time,
            duration_secs: self.duration_secs,
        }
    }
}

} // verus!
