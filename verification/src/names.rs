//! Process names and texts: ASCII case folding, the views used in contracts,
//! and the operations on strings that the rest of the crate is built on.

use vstd::prelude::*;
use vstd::std_specs::iter::IteratorSpec;
use vstd::string::StringExecFns;

verus! {

/// `c` with an ASCII capital letter replaced by its small letter; every other
/// character is left as it is.
pub open spec fn fold_char(c: char) -> char {
    if 'A' <= c && c <= 'Z' {
        ((c as u8) + 32) as char
    } else {
        c
    }
}

/// `s` with every character folded by [`fold_char`].
pub open spec fn fold(s: Seq<char>) -> Seq<char> {
    Seq::new(s.len(), |i: int| fold_char(s[i]))
}

/// Two names denote the same application when they differ at most in the
/// case of ASCII letters.
pub open spec fn same_name(a: Seq<char>, b: Seq<char>) -> bool {
    fold(a) == fold(b)
}

/// Some element of `names` is the same name as `name`.
pub open spec fn lists_name(names: Seq<Seq<char>>, name: Seq<char>) -> bool {
    exists|i: int| 0 <= i < names.len() && same_name(#[trigger] names[i], name)
}

/// The parts of `parts` written one after another with `sep` between each
/// two neighbours.
pub open spec fn joined(parts: Seq<Seq<char>>, sep: Seq<char>) -> Seq<char>
    decreases parts.len(),
{
    if parts.len() == 0 {
        Seq::empty()
    } else if parts.len() == 1 {
        parts[0]
    } else {
        joined(parts.drop_last(), sep) + sep + parts.last()
    }
}

/// `s` without the characters `c` at its end.
pub open spec fn without_trailing(s: Seq<char>, c: char) -> Seq<char>
    decreases s.len(),
{
    if s.len() > 0 && s.last() == c {
        without_trailing(s.drop_last(), c)
    } else {
        s
    }
}

/// `needle` stands somewhere in `hay` as a run of neighbouring characters.
pub open spec fn occurs_in(needle: Seq<char>, hay: Seq<char>) -> bool {
    exists|at: int|
        0 <= at && at + needle.len() <= hay.len() && #[trigger] hay.subrange(
            at,
            at + needle.len(),
        ) == needle
}

/// What `str::to_lowercase` returns for a string with the characters `s`:
/// the lowercase mapping of the Unicode character database, applied to the
/// whole string.
pub uninterp spec fn lowercase_of(s: Seq<char>) -> Seq<char>;

/// `str::to_lowercase`: the result is the Unicode lowercase form of `s`,
/// which this crate does not spell out and calls [`lowercase_of`].
#[verifier::external_body]
pub(crate) fn to_lowercase(s: &str) -> (lower: String)
    ensures
        lower@ == lowercase_of(s@),
{
    s.to_lowercase()
}

/// The elements of `parts` joined by `sep`.
pub fn join(parts: &Vec<String>, sep: &str) -> (text: String)
    ensures
        text@ == joined(parts.deep_view(), sep@),
{
    let ghost all = parts.deep_view();
    let mut text = String::new();
    let mut i: usize = 0;
    while i < parts.len()
        invariant
            i <= parts.len(),
            all == parts.deep_view(),
            text@ == joined(all.take(i as int), sep@),
        decreases parts.len() - i,
    {
        assert(all.take(i + 1).drop_last() =~= all.take(i as int));
        assert(all.take(i + 1).last() == parts[i as int]@);
        if i > 0 {
            text.append(sep);
        } else {
            assert(text@ + parts[i as int]@ =~= parts[i as int]@);
        }
        text.append(parts[i].as_str());
        i += 1;
    }
    assert(all.take(i as int) =~= all);
    text
}

/// Whether `name` is an element of `names`, character for character.
pub fn holds_exactly(names: &Vec<String>, name: &String) -> (found: bool)
    ensures
        found == names.deep_view().contains(name@),
{
    let mut i: usize = 0;
    while i < names.len()
        invariant
            i <= names.len(),
            forall|k: int| 0 <= k < i ==> names.deep_view()[k] != name@,
        decreases names.len() - i,
    {
        if names[i] == *name {
            assert(names.deep_view()[i as int] == name@);
            return true;
        }
        i += 1;
    }
    false
}

/// The characters of `s`.
pub fn chars_of(s: &str) -> (chars: Vec<char>)
    ensures
        chars@ == s@,
{
    let mut chars: Vec<char> = Vec::new();
    for c in it: s.chars()
        invariant
            chars@ == it.seq().take(it.index() as int),
            it.seq() == s@,
    {
        chars.push(c);
    }
    chars
}

/// `String::from_iter` over the characters of a vector: the string that
/// holds exactly those characters, in order.
#[verifier::external_body]
pub(crate) fn string_of(chars: &Vec<char>) -> (text: String)
    ensures
        text@ == chars@,
{
    String::from_iter(chars.iter())
}

/// The characters of `chars` from `from` up to `to`.
pub(crate) fn copy_range(chars: &Vec<char>, from: usize, to: usize) -> (part: Vec<char>)
    requires
        from <= to <= chars.len(),
    ensures
        part@ == chars@.subrange(from as int, to as int),
{
    let mut part: Vec<char> = Vec::new();
    let mut i: usize = from;
    while i < to
        invariant
            from <= i <= to <= chars.len(),
            part@ == chars@.subrange(from as int, i as int),
        decreases to - i,
    {
        part.push(chars[i]);
        assert(part@ =~= chars@.subrange(from as int, i + 1));
        i += 1;
    }
    assert(part@ =~= chars@.subrange(from as int, to as int));
    part
}

/// The code of `c` after folding.
fn fold_code(c: char) -> (code: u32)
    ensures
        code == fold_char(c) as u32,
{
    let code = c as u32;
    if 65 <= code && code <= 90 {
        code + 32
    } else {
        code
    }
}

/// Two characters are the same exactly when their codes are, folded or not.
proof fn lemma_codes(x: char, y: char)
    ensures
        (fold_char(x) == fold_char(y)) == (fold_char(x) as u32 == fold_char(y) as u32),
        (x == y) == (x as u32 == y as u32),
{
    vstd::utf8::char_u32_cast(fold_char(x), fold_char(x) as u32);
    vstd::utf8::char_u32_cast(fold_char(y), fold_char(y) as u32);
    vstd::utf8::char_u32_cast(x, x as u32);
    vstd::utf8::char_u32_cast(y, y as u32);
}

/// Whether the two strings are the same name: equal but for the case of
/// ASCII letters.
pub fn eq_ignore_ascii_case(a: &str, b: &str) -> (same: bool)
    ensures
        same == same_name(a@, b@),
{
    let mut left = a.chars();
    let mut right = b.chars();
    let ghost mut k: int = 0;
    loop
        invariant
            0 <= k <= a@.len(),
            k <= b@.len(),
            left.remaining() == a@.skip(k),
            right.remaining() == b@.skip(k),
            forall|i: int| 0 <= i < k ==> fold_char(a@[i]) == fold_char(b@[i]),
        decreases a@.len() - k,
    {
        let x = left.next();
        let y = right.next();
        match (x, y) {
            (Some(cx), Some(cy)) => {
                proof {
                    lemma_codes(cx, cy);
                }
                if fold_code(cx) != fold_code(cy) {
                    proof {
                        assert(fold(a@)[k] != fold(b@)[k]);
                    }
                    return false;
                }
                proof {
                    assert(a@.skip(k).drop_first() =~= a@.skip(k + 1));
                    assert(b@.skip(k).drop_first() =~= b@.skip(k + 1));
                    k = k + 1;
                }
            },
            (None, None) => {
                proof {
                    assert(fold(a@) =~= fold(b@));
                }
                return true;
            },
            _ => {
                proof {
                    assert(fold(a@).len() != fold(b@).len());
                }
                return false;
            },
        }
    }
}

/// Whether the two strings hold the same characters.
pub fn str_eq(a: &str, b: &str) -> (same: bool)
    ensures
        same == (a@ == b@),
{
    let mut left = a.chars();
    let mut right = b.chars();
    let ghost mut k: int = 0;
    loop
        invariant
            0 <= k <= a@.len(),
            k <= b@.len(),
            left.remaining() == a@.skip(k),
            right.remaining() == b@.skip(k),
            forall|i: int| 0 <= i < k ==> a@[i] == b@[i],
        decreases a@.len() - k,
    {
        let x = left.next();
        let y = right.next();
        match (x, y) {
            (Some(cx), Some(cy)) => {
                proof {
                    lemma_codes(cx, cy);
                }
                if cx as u32 != cy as u32 {
                    proof {
                        assert(a@[k] != b@[k]);
                    }
                    return false;
                }
                proof {
                    assert(a@.skip(k).drop_first() =~= a@.skip(k + 1));
                    assert(b@.skip(k).drop_first() =~= b@.skip(k + 1));
                    k = k + 1;
                }
            },
            (None, None) => {
                proof {
                    assert(a@ =~= b@);
                }
                return true;
            },
            _ => {
                proof {
                    assert(a@.len() != b@.len());
                }
                return false;
            },
        }
    }
}

/// Whether `needle` stands at position `at` of `hay`.
fn stands_at(hay: &Vec<char>, needle: &Vec<char>, at: usize) -> (found: bool)
    requires
        at + needle.len() <= hay.len(),
    ensures
        found == (hay@.subrange(at as int, at + needle.len()) == needle@),
{
    let mut i: usize = 0;
    while i < needle.len()
        invariant
            i <= needle.len(),
            at + needle.len() <= hay.len(),
            forall|k: int| 0 <= k < i ==> hay[at + k] == needle[k],
        decreases needle.len() - i,
    {
        proof {
            lemma_codes(hay[at + i], needle[i as int]);
        }
        if hay[at + i] as u32 != needle[i] as u32 {
            proof {
                assert(hay@.subrange(at as int, at + needle.len())[i as int] == hay[at + i]);
            }
            return false;
        }
        i += 1;
    }
    assert(hay@.subrange(at as int, at + needle.len()) =~= needle@);
    true
}

/// Whether `suffix` is the tail of `s`.
pub fn ends_with(s: &str, suffix: &str) -> (found: bool)
    ensures
        found == suffix@.is_suffix_of(s@),
{
    let text = chars_of(s);
    let tail = chars_of(suffix);
    if tail.len() > text.len() {
        return false;
    }
    stands_at(&text, &tail, text.len() - tail.len())
}

/// Whether `needle` stands somewhere in `hay`.
pub fn contains(hay: &str, needle: &str) -> (found: bool)
    ensures
        found == occurs_in(needle@, hay@),
{
    let text = chars_of(hay);
    let word = chars_of(needle);
    if word.len() > text.len() {
        return false;
    }
    let last = text.len() - word.len();
    let mut at: usize = 0;
    while at < last
        invariant
            at <= last,
            last + word.len() == text.len(),
            text@ == hay@,
            word@ == needle@,
            forall|k: int|
                0 <= k < at ==> #[trigger] hay@.subrange(k, k + needle@.len()) != needle@,
        decreases last - at,
    {
        if stands_at(&text, &word, at) {
            return true;
        }
        at += 1;
    }
    stands_at(&text, &word, last)
}

/// `s` without the run of `c` at its end.
pub fn trim_end_matches(s: &str, c: char) -> (trimmed: String)
    ensures
        trimmed@ == without_trailing(s@, c),
{
    let text = chars_of(s);
    let mut end: usize = text.len();
    assert(text@.take(end as int) =~= text@);
    while end > 0 && text[end - 1] as u32 == c as u32
        invariant
            end <= text.len(),
            without_trailing(text@.take(end as int), c) == without_trailing(text@, c),
        decreases end,
    {
        proof {
            lemma_codes(text[end - 1], c);
            assert(text@.take(end as int).drop_last() =~= text@.take(end - 1));
        }
        end -= 1;
    }
    proof {
        if end > 0 {
            lemma_codes(text[end - 1], c);
            assert(text@.take(end as int).last() == text[end - 1]);
        }
    }
    let kept = copy_range(&text, 0, end);
    assert(kept@ =~= text@.take(end as int));
    string_of(&kept)
}

/// The small ASCII letter with the number `index`, counted from `a`.
fn small_letter(index: u32) -> (c: char)
    requires
        index < 26,
    ensures
        c as u32 == 97 + index,
{
    let letters = [
        'a', 'b', 'c', 'd', 'e', 'f', 'g', 'h', 'i', 'j', 'k', 'l', 'm', 'n', 'o', 'p', 'q', 'r',
        's', 't', 'u', 'v', 'w', 'x', 'y', 'z',
    ];
    letters[index as usize]
}

/// A copy of `s` in which the ASCII letters `A` to `Z` are replaced by `a`
/// to `z` and nothing else is changed.
pub fn to_ascii_lowercase(s: &str) -> (lower: String)
    ensures
        lower@ == fold(s@),
{
    let text = chars_of(s);
    let mut folded: Vec<char> = Vec::new();
    let mut i: usize = 0;
    while i < text.len()
        invariant
            i <= text.len(),
            folded.len() == i,
            forall|k: int| 0 <= k < i ==> folded[k] == fold_char(text[k]),
        decreases text.len() - i,
    {
        let c = text[i];
        let code = c as u32;
        let next = if 65 <= code && code <= 90 {
            small_letter(code - 65)
        } else {
            c
        };
        proof {
            vstd::utf8::char_u32_cast(next, next as u32);
            vstd::utf8::char_u32_cast(fold_char(c), fold_char(c) as u32);
        }
        folded.push(next);
        i += 1;
    }
    assert(folded@ =~= fold(text@));
    string_of(&folded)
}

/// Folding twice is folding once.
pub proof fn lemma_fold_idempotent(s: Seq<char>)
    ensures
        fold(fold(s)) == fold(s),
{
    assert(fold(fold(s)) =~= fold(s));
}

/// A name is the same name as itself, and as its own folded form.
pub proof fn lemma_same_name_reflexive(s: Seq<char>)
    ensures
        same_name(s, s),
        same_name(fold(s), s),
{
    lemma_fold_idempotent(s);
}

} // verus!
