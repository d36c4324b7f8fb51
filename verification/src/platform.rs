//! From the executable that holds the focus to the name under which the
//! application is installed.

use crate::desktop::{back_spaces, content_end, is_space, is_whitespace, trim, trimmed};
use crate::names::{
    chars_of, contains, copy_range, lowercase_of, occurs_in, str_eq, string_of, to_lowercase,
};
use vstd::prelude::*;

verus! {

/// An installed application: the name it is shown under and the name of
/// its executable.
#[derive(Debug)]
pub struct InstalledApp {
    pub display_name: String,
    pub exe_name: String,
}

/// What an [`InstalledApp`] holds, with its texts as character sequences.
pub ghost struct AppView {
    pub display_name: Seq<char>,
    pub exe_name: Seq<char>,
}

impl View for InstalledApp {
    type V = AppView;

    open spec fn view(&self) -> AppView {
        AppView { display_name: self.display_name@, exe_name: self.exe_name@ }
    }
}

impl Clone for InstalledApp {
    fn clone(&self) -> (copy: InstalledApp)
        ensures
            copy@ == self@,
    {
        InstalledApp { display_name: self.display_name.clone(), exe_name: self.exe_name.clone() }
    }
}

/// The views of `apps`, in order.
pub open spec fn app_views(apps: Seq<InstalledApp>) -> Seq<AppView> {
    Seq::new(apps.len(), |i: int| apps[i]@)
}

/// The executable names of `apps`, in order.
pub open spec fn exe_names(apps: Seq<InstalledApp>) -> Seq<Seq<char>> {
    Seq::new(apps.len(), |i: int| apps[i].exe_name@)
}

/// The executable names of `apps` in lowercase, in order.
pub open spec fn lowered_exe_names(apps: Seq<InstalledApp>) -> Seq<Seq<char>> {
    Seq::new(apps.len(), |i: int| lowercase_of(apps[i].exe_name@))
}

/// The last position of `exe` in `exes`, or -1 where it is not among them.
pub open spec fn last_with(exes: Seq<Seq<char>>, exe: Seq<char>) -> int
    decreases exes.len(),
{
    if exes.len() == 0 {
        -1
    } else if exes.last() == exe {
        exes.len() - 1
    } else {
        last_with(exes.drop_last(), exe)
    }
}

/// One of the two names stands in the other.
pub open spec fn related(exe: Seq<char>, raw: Seq<char>) -> bool {
    occurs_in(raw, exe) || occurs_in(exe, raw)
}

/// The first position in `exes` of a name related to `raw`, or the length
/// of `exes` where there is none.
pub open spec fn first_related(exes: Seq<Seq<char>>, raw: Seq<char>) -> int
    decreases exes.len(),
{
    if exes.len() == 0 {
        0
    } else if related(exes[0], raw) {
        0
    } else {
        1 + first_related(exes.drop_first(), raw)
    }
}

/// The position of the application that the executable `raw` resolves to,
/// or -1: the last application whose executable is named `raw`; where there
/// is none, the last application with the executable name of the first one
/// whose executable name is related to `raw`.
pub open spec fn resolved(exes: Seq<Seq<char>>, raw: Seq<char>) -> int {
    if last_with(exes, raw) >= 0 {
        last_with(exes, raw)
    } else if first_related(exes, raw) < exes.len() {
        last_with(exes, exes[first_related(exes, raw)])
    } else {
        -1
    }
}

/// What `last_with` finds.
pub proof fn lemma_last_with(exes: Seq<Seq<char>>, exe: Seq<char>)
    ensures
        -1 <= last_with(exes, exe) < exes.len(),
        last_with(exes, exe) >= 0 ==> exes[last_with(exes, exe)] == exe,
        forall|k: int| last_with(exes, exe) < k < exes.len() ==> exes[k] != exe,
    decreases exes.len(),
{
    if exes.len() > 0 && exes.last() != exe {
        lemma_last_with(exes.drop_last(), exe);
        assert forall|k: int| last_with(exes, exe) < k < exes.len() implies exes[k] != exe by {
            if k < exes.len() - 1 {
                assert(exes.drop_last()[k] == exes[k]);
            }
        }
        if last_with(exes, exe) >= 0 {
            assert(exes.drop_last()[last_with(exes, exe)] == exes[last_with(exes, exe)]);
        }
    }
}

/// What `first_related` finds.
pub proof fn lemma_first_related(exes: Seq<Seq<char>>, raw: Seq<char>)
    ensures
        0 <= first_related(exes, raw) <= exes.len(),
        first_related(exes, raw) < exes.len() ==> related(exes[first_related(exes, raw)], raw),
        forall|k: int| 0 <= k < first_related(exes, raw) ==> !related(#[trigger] exes[k], raw),
    decreases exes.len(),
{
    if exes.len() > 0 && !related(exes[0], raw) {
        lemma_first_related(exes.drop_first(), raw);
        let rest = first_related(exes.drop_first(), raw);
        assert forall|k: int| 0 <= k < 1 + rest implies !related(#[trigger] exes[k], raw) by {
            if k > 0 {
                assert(exes.drop_first()[k - 1] == exes[k]);
            }
        }
        if rest < exes.drop_first().len() {
            assert(exes.drop_first()[rest] == exes[rest + 1]);
        }
    }
}

/// The last position of `exe` among the executable names of `apps`.
fn find_last(apps: &Vec<InstalledApp>, exe: &str) -> (at: Option<usize>)
    ensures
        match at {
            Some(i) => i == last_with(exe_names(apps@), exe@),
            None => last_with(exe_names(apps@), exe@) == -1,
        },
{
    let ghost exes = exe_names(apps@);
    proof {
        lemma_last_with(exes, exe@);
    }
    let mut i: usize = apps.len();
    while i > 0
        invariant
            i <= apps.len(),
            exes == exe_names(apps@),
            forall|k: int| i <= k < apps.len() ==> exes[k] != exe@,
        decreases i,
    {
        i -= 1;
        if str_eq(apps[i].exe_name.as_str(), exe) {
            proof {
                assert(exes[i as int] == exe@);
                lemma_last_with(exes, exe@);
                let last = last_with(exes, exe@);
                if last < i {
                    assert(exes[i as int] != exe@);
                }
                if last > i {
                    assert(exes[last] != exe@);
                }
            }
            return Some(i);
        }
    }
    proof {
        lemma_last_with(exes, exe@);
        let last = last_with(exes, exe@);
        if last >= 0 {
            assert(exes[last] != exe@);
        }
    }
    None
}

/// The position that a name resolves to is that of an application, or -1.
pub proof fn lemma_resolved_in_range(exes: Seq<Seq<char>>, raw: Seq<char>)
    ensures
        -1 <= resolved(exes, raw) < exes.len(),
{
    lemma_last_with(exes, raw);
    lemma_first_related(exes, raw);
    if first_related(exes, raw) < exes.len() {
        lemma_last_with(exes, exes[first_related(exes, raw)]);
    }
}

/// The name under which the application with the executable `raw` is
/// installed, among `apps`, whose executable names are in lowercase.
///
/// An application whose executable is named `raw` is preferred. Without
/// one, the first application whose executable name stands in `raw`, or
/// `raw` in it, decides. Of several applications with one executable name
/// the last counts.
pub fn resolve_display_name(apps: &Vec<InstalledApp>, raw: &str) -> (name: Option<String>)
    ensures
        name is Some <==> resolved(exe_names(apps@), raw@) >= 0,
        name matches Some(display) ==> display@ == apps[resolved(
            exe_names(apps@),
            raw@,
        )].display_name@,
{
    let ghost exes = exe_names(apps@);
    proof {
        lemma_last_with(exes, raw@);
        lemma_first_related(exes, raw@);
    }
    match find_last(apps, raw) {
        Some(i) => {
            return Some(apps[i].display_name.clone());
        },
        None => {},
    }
    let mut i: usize = 0;
    while i < apps.len()
        invariant
            i <= apps.len(),
            exes == exe_names(apps@),
            last_with(exes, raw@) == -1,
            forall|k: int| 0 <= k < i ==> !related(#[trigger] exes[k], raw@),
        decreases apps.len() - i,
    {
        let exe = apps[i].exe_name.as_str();
        if contains(exe, raw) || contains(raw, exe) {
            proof {
                assert(related(exes[i as int], raw@));
                lemma_first_related(exes, raw@);
                let first = first_related(exes, raw@);
                if first < i {
                    assert(!related(exes[first], raw@));
                }
                assert(first == i);
                lemma_last_with(exes, exes[i as int]);
                lemma_last_with(exes, raw@);
            }
            match find_last(apps, exe) {
                Some(j) => {
                    return Some(apps[j].display_name.clone());
                },
                None => {
                    return None;
                },
            }
        }
        i += 1;
    }
    proof {
        lemma_first_related(exes, raw@);
        lemma_last_with(exes, raw@);
        let first = first_related(exes, raw@);
        if first < exes.len() {
            assert(!related(exes[first], raw@));
        }
    }
    None
}

/// The name under which the application in focus is installed.
///
/// `raw` is the name of the executable that holds the focus, if one was
/// found, and `installed` the applications with the names of their
/// executables, which are compared in lowercase.
pub fn get_foreground_process_name(installed: &Vec<InstalledApp>, raw: Option<&str>) -> (name:
    Option<String>)
    ensures
        match raw {
            None => name is None,
            Some(exe) => {
                &&& name is Some <==> resolved(lowered_exe_names(installed@), exe@) >= 0
                &&& name matches Some(display) ==> display@ == installed[resolved(
                    lowered_exe_names(installed@),
                    exe@,
                )].display_name@
            },
        },
{
    let exe = match raw {
        Some(exe) => exe,
        None => {
            return None;
        },
    };
    let mut lowered: Vec<InstalledApp> = Vec::new();
    let mut i: usize = 0;
    while i < installed.len()
        invariant
            i <= installed.len(),
            lowered.len() == i,
            forall|k: int|
                0 <= k < i ==> (#[trigger] lowered[k]).exe_name@ == lowercase_of(
                    installed[k].exe_name@,
                ) && lowered[k].display_name@ == installed[k].display_name@,
        decreases installed.len() - i,
    {
        lowered.push(
            InstalledApp {
                display_name: installed[i].display_name.clone(),
                exe_name: to_lowercase(installed[i].exe_name.as_str()),
            },
        );
        i += 1;
    }
    proof {
        assert(exe_names(lowered@) =~= lowered_exe_names(installed@));
        lemma_resolved_in_range(exe_names(lowered@), exe@);
    }
    resolve_display_name(&lowered, exe)
}

/// The start of the word that ends at `end`: the position after the last
/// white space before `end`, or 0.
pub open spec fn word_start(s: Seq<char>, end: int) -> int
    decreases end,
{
    if 0 < end <= s.len() && !is_space(s[end - 1]) {
        word_start(s, end - 1)
    } else {
        end
    }
}

/// The last word of `s`, where words are separated by white space.
pub open spec fn last_word_of(s: Seq<char>) -> Option<Seq<char>> {
    let end = content_end(s, 0, s.len() as int);
    if end <= 0 {
        None
    } else {
        Some(s.subrange(word_start(s, end), end))
    }
}

/// The last word of `output`, where words are separated by white space.
pub fn last_word(output: &str) -> (word: Option<String>)
    ensures
        match word {
            Some(found) => last_word_of(output@) == Some(found@),
            None => last_word_of(output@) is None,
        },
{
    let chars = chars_of(output);
    let end = back_spaces(&chars, 0, chars.len());
    if end == 0 {
        return None;
    }
    let mut start: usize = end;
    while start > 0 && !is_whitespace(chars[start - 1])
        invariant
            start <= end <= chars.len(),
            word_start(chars@, start as int) == word_start(chars@, end as int),
        decreases start,
    {
        start -= 1;
    }
    Some(string_of(&copy_range(&chars, start, end)))
}

/// The window in focus as the window system reports it in `output`: the
/// last word, unless there is none or it is the null window `0x0`.
pub fn active_window(output: &str) -> (window: Option<String>)
    ensures
        match window {
            Some(id) => last_word_of(output@) == Some(id@) && id@ != "0x0"@,
            None => last_word_of(output@) is None || last_word_of(output@) == Some("0x0"@),
        },
{
    match last_word(output) {
        Some(id) => {
            if str_eq(id.as_str(), "0x0") {
                None
            } else {
                Some(id)
            }
        },
        None => None,
    }
}

/// `c` is one of the digits `0` to `9`.
pub open spec fn is_digit(c: char) -> bool {
    48 <= c as u32 <= 57
}

/// The number that the first `n` characters of `s` spell in decimal.
pub open spec fn digits_value(s: Seq<char>, n: int) -> int
    decreases n,
{
    if n <= 0 || n > s.len() {
        0
    } else {
        digits_value(s, n - 1) * 10 + (s[n - 1] as u32 - 48)
    }
}

/// Every character of `s` is a digit.
pub open spec fn all_digits(s: Seq<char>) -> bool {
    forall|i: int| 0 <= i < s.len() ==> is_digit(#[trigger] s[i])
}

/// The number that `word` spells: an optional `+`, then one digit or more,
/// where the number fits in 32 bits.
pub open spec fn number_of(word: Seq<char>) -> Option<u32> {
    let digits = if word.len() > 0 && word[0] == '+' {
        word.skip(1)
    } else {
        word
    };
    if digits.len() > 0 && all_digits(digits) && digits_value(digits, digits.len() as int)
        <= u32::MAX {
        Some(digits_value(digits, digits.len() as int) as u32)
    } else {
        None
    }
}

/// A number spelled with digits only is no smaller than the number that
/// fewer of its digits spell.
proof fn lemma_digits_value_grows(s: Seq<char>, k: int, n: int)
    requires
        0 <= k <= n <= s.len(),
        all_digits(s),
    ensures
        0 <= digits_value(s, k) <= digits_value(s, n),
    decreases n,
{
    if k < n {
        lemma_digits_value_grows(s, k, n - 1);
        assert(is_digit(s[n - 1]));
    } else if n > 0 {
        lemma_digits_value_grows(s, k - 1, n - 1);
        assert(is_digit(s[n - 1]));
    }
}

/// The process identifier that `word` spells, if it spells a number that
/// fits in 32 bits.
pub fn parse_pid(word: &str) -> (pid: Option<u32>)
    ensures
        pid == number_of(word@),
{
    let chars = chars_of(word);
    let first: usize = if chars.len() > 0 && chars[0] == '+' {
        1
    } else {
        0
    };
    let digits = copy_range(&chars, first, chars.len());
    let ghost spelled = if word@.len() > 0 && word@[0] == '+' {
        word@.skip(1)
    } else {
        word@
    };
    assert(digits@ =~= spelled);
    if digits.len() == 0 {
        return None;
    }
    let mut value: u64 = 0;
    let mut i: usize = 0;
    while i < digits.len()
        invariant
            i <= digits.len(),
            digits.len() > 0,
            digits@ == spelled,
            spelled == (if word@.len() > 0 && word@[0] == '+' {
                word@.skip(1)
            } else {
                word@
            }),
            forall|k: int| 0 <= k < i ==> is_digit(#[trigger] digits[k]),
            value == digits_value(digits@, i as int),
            value <= u32::MAX,
        decreases digits.len() - i,
    {
        let code = digits[i] as u32;
        if code < 48 || code > 57 {
            assert(!is_digit(spelled[i as int]));
            assert(!all_digits(spelled));
            return None;
        }
        let next: u64 = value * 10 + (code - 48) as u64;
        if next > 0xffff_ffff {
            proof {
                if all_digits(spelled) {
                    lemma_digits_value_grows(spelled, i + 1, spelled.len() as int);
                    assert(digits_value(spelled, i + 1) == next);
                }
            }
            return None;
        }
        value = next;
        i += 1;
    }
    assert(all_digits(spelled));
    Some(value as u32)
}

/// The name of a process as the probes compare it: what the system reports
/// for it, without the white space around it and in lowercase.
pub fn process_name(reported: &str) -> (name: String)
    ensures
        name@ == lowercase_of(trimmed(reported@)),
{
    let kept = string_of(&trim(&chars_of(reported)));
    to_lowercase(kept.as_str())
}

} // verus!
