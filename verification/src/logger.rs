//! The lines that are written to the log.

use crate::error::SynapseError;
use vstd::prelude::*;
use vstd::string::StringExecFns;

verus! {

/// The character of the digit `d`.
pub open spec fn digit_char(d: int) -> char {
    ((48 + d) as u8) as char
}

/// `n` in decimal notation.
pub open spec fn decimal_text(n: nat) -> Seq<char>
    decreases n,
{
    if n < 10 {
        seq![digit_char(n as int)]
    } else {
        decimal_text(n / 10) + seq![digit_char((n % 10) as int)]
    }
}

/// The digit `d` as a string.
fn digit_str(d: u64) -> (text: &'static str)
    requires
        d < 10,
    ensures
        text@ == seq![digit_char(d as int)],
{
    proof {
        reveal_strlit("0");
        reveal_strlit("1");
        reveal_strlit("2");
        reveal_strlit("3");
        reveal_strlit("4");
        reveal_strlit("5");
        reveal_strlit("6");
        reveal_strlit("7");
        reveal_strlit("8");
        reveal_strlit("9");
    }
    let text = if d == 0 {
        "0"
    } else if d == 1 {
        "1"
    } else if d == 2 {
        "2"
    } else if d == 3 {
        "3"
    } else if d == 4 {
        "4"
    } else if d == 5 {
        "5"
    } else if d == 6 {
        "6"
    } else if d == 7 {
        "7"
    } else if d == 8 {
        "8"
    } else {
        "9"
    };
    assert(text@ =~= seq![digit_char(d as int)]);
    text
}

/// `n` in decimal notation.
pub fn decimal(n: u64) -> (text: String)
    ensures
        text@ == decimal_text(n as nat),
{
    let mut text = String::from_str(digit_str(n % 10));
    let mut rest: u64 = n / 10;
    while rest > 0
        invariant
            rest > 0 ==> decimal_text(n as nat) == decimal_text(rest as nat) + text@,
            rest == 0 ==> text@ == decimal_text(n as nat),
        decreases rest,
    {
        let digit = String::from_str(digit_str(rest % 10));
        assert(decimal_text(rest as nat) + text@ =~= (if rest < 10 {
            Seq::<char>::empty()
        } else {
            decimal_text((rest / 10) as nat)
        }) + (digit@ + text@));
        text = digit.concat(text.as_str());
        rest = rest / 10;
        assert(Seq::<char>::empty() + text@ =~= text@);
    }
    text
}

/// The word by which a log line says whether the process was blocked.
pub open spec fn status_word(blocked: bool) -> Seq<char> {
    if blocked {
        "BLOCKED"@
    } else {
        "ALLOWED"@
    }
}

/// The log line for a process seen in focus at the second `timestamp`.
pub open spec fn event_line_text(timestamp: u64, blocked: bool, process: Seq<char>) -> Seq<char> {
    "["@ + decimal_text(timestamp as nat) + "] "@ + status_word(blocked) + " -> "@ + process + "\n"@
}

/// The log line for a process seen in focus at the second `timestamp`:
/// the second in brackets, `BLOCKED` or `ALLOWED`, an arrow and the name.
pub fn event_line(timestamp: u64, blocked: bool, process: &str) -> (line: String)
    ensures
        line@ == event_line_text(timestamp, blocked, process@),
{
    let status = if blocked {
        "BLOCKED"
    } else {
        "ALLOWED"
    };
    String::from_str("[").concat(decimal(timestamp).as_str()).concat("] ").concat(status).concat(
        " -> ",
    ).concat(process).concat("\n")
}

/// The log line for an error.
pub fn error_line(error: &SynapseError) -> (line: String)
    ensures
        line@ == "[ERROR] "@ + error.text() + "\n"@,
{
    String::from_str("[ERROR] ").concat(error.message().as_str()).concat("\n")
}

/// The log line for an error that came up while doing `context`.
pub fn error_line_with_context(context: &str, error: &SynapseError) -> (line: String)
    ensures
        line@ == "[ERROR] "@ + context@ + ": "@ + error.text() + "\n"@,
{
    String::from_str("[ERROR] ").concat(context).concat(": ").concat(
        error.message().as_str(),
    ).concat("\n")
}

} // verus!
