//! Desktop entries: the files from which the installed applications are
//! read, each with the name an application is shown under and the command
//! that starts it.

use crate::names::{chars_of, copy_range, str_eq, string_of};
use crate::platform::{app_views, AppView, InstalledApp};
use vstd::prelude::*;

verus! {

/// `c` is white space: a character with the Unicode property White_Space.
pub open spec fn is_space(c: char) -> bool {
    let code = c as u32;
    ||| 0x09 <= code <= 0x0d
    ||| code == 0x20
    ||| code == 0x85
    ||| code == 0xa0
    ||| code == 0x1680
    ||| 0x2000 <= code <= 0x200a
    ||| code == 0x2028
    ||| code == 0x2029
    ||| code == 0x202f
    ||| code == 0x205f
    ||| code == 0x3000
}

/// The first position at or after `from` that holds no white space, or the
/// length of `s`.
pub open spec fn spaces_end(s: Seq<char>, from: int) -> int
    decreases s.len() - from,
{
    if 0 <= from < s.len() && is_space(s[from]) {
        spaces_end(s, from + 1)
    } else {
        from
    }
}

/// The first position at or after `from` that holds white space, or the
/// length of `s`.
pub open spec fn token_end(s: Seq<char>, from: int) -> int
    decreases s.len() - from,
{
    if 0 <= from < s.len() && !is_space(s[from]) {
        token_end(s, from + 1)
    } else {
        from
    }
}

/// The end of `s[from..to]` without the white space at its end.
pub open spec fn content_end(s: Seq<char>, from: int, to: int) -> int
    decreases to - from,
{
    if from < to <= s.len() && is_space(s[to - 1]) {
        content_end(s, from, to - 1)
    } else {
        to
    }
}

/// The first position at or after `from` that holds `c`, or the length of `s`.
pub open spec fn position_of(s: Seq<char>, from: int, c: char) -> int
    decreases s.len() - from,
{
    if 0 <= from < s.len() && s[from] != c {
        position_of(s, from + 1, c)
    } else {
        from
    }
}

/// `s` without the white space at its start and at its end.
pub open spec fn trimmed(s: Seq<char>) -> Seq<char> {
    let start = spaces_end(s, 0);
    s.subrange(start, content_end(s, start, s.len() as int))
}

/// The key that introduces the name of an application.
pub open spec fn name_key() -> Seq<char> {
    seq!['N', 'a', 'm', 'e', '=']
}

/// The key that introduces the command of an application.
pub open spec fn exec_key() -> Seq<char> {
    seq!['E', 'x', 'e', 'c', '=']
}

/// What was read of a desktop entry so far.
pub ghost struct Fields {
    pub name: Option<Seq<char>>,
    pub command: Option<Seq<char>>,
}

/// What is known after `line` was read: a line that starts with `Name=`
/// gives the name, one that starts with `Exec=` the command, each without
/// the white space around it. A later line replaces an earlier one.
pub open spec fn noted(found: Fields, line: Seq<char>) -> Fields {
    if name_key().is_prefix_of(line) {
        Fields { name: Some(trimmed(line.skip(5))), ..found }
    } else if exec_key().is_prefix_of(line) {
        Fields { command: Some(trimmed(line.skip(5))), ..found }
    } else {
        found
    }
}

/// What is known after the lines of `s` from position `from` on were read.
/// Reading stops as soon as both the name and the command are known.
pub open spec fn scanned(s: Seq<char>, from: int, found: Fields) -> Fields
    decreases s.len() - from,
{
    if from < 0 || from >= s.len() || (found.name is Some && found.command is Some) {
        found
    } else {
        let end = position_of(s, from, '\n');
        if end < from || end > s.len() {
            found
        } else if end == s.len() {
            noted(found, s.subrange(from, end))
        } else {
            scanned(s, end + 1, noted(found, s.subrange(from, end)))
        }
    }
}

/// The first word of `s` at or after `from` that does not start with `%`,
/// as the positions of its start and its end; words are separated by white
/// space.
pub open spec fn command_span(s: Seq<char>, from: int) -> Option<(int, int)>
    decreases s.len() - from,
{
    let start = spaces_end(s, from);
    if from < 0 || start < from || start >= s.len() {
        None
    } else if s[start] != '%' {
        Some((start, token_end(s, start)))
    } else {
        let end = token_end(s, start);
        if start < end <= s.len() {
            command_span(s, end)
        } else {
            None
        }
    }
}

/// The length of `p[..n]` without the slashes and the components `.` at
/// its end.
pub open spec fn path_end(p: Seq<char>, n: int) -> int
    decreases n,
{
    if 0 < n <= p.len() && p[n - 1] == '/' {
        path_end(p, n - 1)
    } else if 2 <= n <= p.len() && p[n - 1] == '.' && p[n - 2] == '/' {
        path_end(p, n - 2)
    } else {
        n
    }
}

/// The position after the last slash of `p[..n]`, or 0 without one.
pub open spec fn component_start(p: Seq<char>, n: int) -> int
    decreases n,
{
    if 0 < n <= p.len() && p[n - 1] != '/' {
        component_start(p, n - 1)
    } else {
        n
    }
}

/// The file name of the path `p`: its last component, where the path ends
/// in one that is a name; otherwise, as for `/`, `.` and `a/..`, the path
/// itself.
pub open spec fn base_name(p: Seq<char>) -> Seq<char> {
    let end = path_end(p, p.len() as int);
    let last = p.subrange(component_start(p, end), end);
    if last.len() == 0 || last == seq!['.'] || last == seq!['.', '.'] {
        p
    } else {
        last
    }
}

/// The name of the executable that the command line `command` starts: the
/// file name of its first word that is no `%` placeholder.
pub open spec fn exe_name_of(command: Seq<char>) -> Option<Seq<char>> {
    match command_span(command, 0) {
        Some((start, end)) => Some(base_name(command.subrange(start, end))),
        None => None,
    }
}

/// The application that the desktop entry `content` describes, as its name
/// and the name of its executable.
pub open spec fn entry_of(content: Seq<char>) -> Option<(Seq<char>, Seq<char>)> {
    let found = scanned(content, 0, Fields { name: None, command: None });
    if found.name is Some && found.command is Some && exe_name_of(found.command->0) is Some {
        Some((found.name->0, exe_name_of(found.command->0)->0))
    } else {
        None
    }
}

/// Whether `c` is white space.
pub fn is_whitespace(c: char) -> (space: bool)
    ensures
        space == is_space(c),
{
    let code = c as u32;
    (0x09 <= code && code <= 0x0d) || code == 0x20 || code == 0x85 || code == 0xa0 || code
        == 0x1680 || (0x2000 <= code && code <= 0x200a) || code == 0x2028 || code == 0x2029
        || code == 0x202f || code == 0x205f || code == 0x3000
}

/// The first position at or after `from` that holds no white space.
fn skip_spaces(chars: &Vec<char>, from: usize) -> (end: usize)
    requires
        from <= chars.len(),
    ensures
        end == spaces_end(chars@, from as int),
        from <= end <= chars.len(),
        end < chars.len() ==> !is_space(chars[end as int]),
{
    let mut i: usize = from;
    while i < chars.len() && is_whitespace(chars[i])
        invariant
            from <= i <= chars.len(),
            spaces_end(chars@, i as int) == spaces_end(chars@, from as int),
        decreases chars.len() - i,
    {
        i += 1;
    }
    i
}

/// The first position at or after `from` that holds white space.
fn skip_token(chars: &Vec<char>, from: usize) -> (end: usize)
    requires
        from <= chars.len(),
    ensures
        end == token_end(chars@, from as int),
        from <= end <= chars.len(),
        from < chars.len() && !is_space(chars[from as int]) ==> from < end,
{
    let mut i: usize = from;
    while i < chars.len() && !is_whitespace(chars[i])
        invariant
            from <= i <= chars.len(),
            token_end(chars@, i as int) == token_end(chars@, from as int),
            from < chars.len() && !is_space(chars[from as int]) && i == from ==> !is_space(
                chars[i as int],
            ),
        decreases chars.len() - i,
    {
        i += 1;
    }
    i
}

/// The end of `chars[from..to]` without the white space at its end.
pub(crate) fn back_spaces(chars: &Vec<char>, from: usize, to: usize) -> (end: usize)
    requires
        from <= to <= chars.len(),
    ensures
        end == content_end(chars@, from as int, to as int),
        from <= end <= to,
{
    let mut i: usize = to;
    while i > from && is_whitespace(chars[i - 1])
        invariant
            from <= i <= to <= chars.len(),
            content_end(chars@, from as int, i as int) == content_end(
                chars@,
                from as int,
                to as int,
            ),
        decreases i,
    {
        i -= 1;
    }
    i
}

/// The first position at or after `from` that holds `c`.
fn find(chars: &Vec<char>, from: usize, c: char) -> (at: usize)
    requires
        from <= chars.len(),
    ensures
        at == position_of(chars@, from as int, c),
        from <= at <= chars.len(),
{
    let mut i: usize = from;
    while i < chars.len() && chars[i] != c
        invariant
            from <= i <= chars.len(),
            position_of(chars@, i as int, c) == position_of(chars@, from as int, c),
        decreases chars.len() - i,
    {
        i += 1;
    }
    i
}

/// `chars` without the white space at its start and at its end.
pub fn trim(chars: &Vec<char>) -> (kept: Vec<char>)
    ensures
        kept@ == trimmed(chars@),
{
    let start = skip_spaces(chars, 0);
    let end = back_spaces(chars, start, chars.len());
    copy_range(chars, start, end)
}

/// Whether `line` starts with the five characters of `key`.
fn starts_with_key(line: &Vec<char>, key: [char; 5]) -> (found: bool)
    ensures
        found == key@.is_prefix_of(line@),
{
    if line.len() < 5 {
        return false;
    }
    let found = line[0] == key[0] && line[1] == key[1] && line[2] == key[2] && line[3] == key[3]
        && line[4] == key[4];
    proof {
        if found {
            assert(line@.subrange(0, 5) =~= key@);
        } else {
            if key@.is_prefix_of(line@) {
                assert(line@.subrange(0, 5)[0] == key@[0]);
                assert(line@.subrange(0, 5)[1] == key@[1]);
                assert(line@.subrange(0, 5)[2] == key@[2]);
                assert(line@.subrange(0, 5)[3] == key@[3]);
                assert(line@.subrange(0, 5)[4] == key@[4]);
            }
        }
    }
    found
}

/// What the two optional texts hold.
pub open spec fn fields_of(name: Option<Vec<char>>, command: Option<Vec<char>>) -> Fields {
    Fields {
        name: match name {
            Some(text) => Some(text@),
            None => None,
        },
        command: match command {
            Some(text) => Some(text@),
            None => None,
        },
    }
}

/// Takes note of one line of a desktop entry.
fn note(line: &Vec<char>, name: Option<Vec<char>>, command: Option<Vec<char>>) -> (next: (
    Option<Vec<char>>,
    Option<Vec<char>>,
))
    ensures
        fields_of(next.0, next.1) == noted(fields_of(name, command), line@),
{
    let name_key_chars = ['N', 'a', 'm', 'e', '='];
    let exec_key_chars = ['E', 'x', 'e', 'c', '='];
    assert(name_key_chars@ =~= name_key());
    assert(exec_key_chars@ =~= exec_key());
    if starts_with_key(line, name_key_chars) {
        let rest = copy_range(line, 5, line.len());
        assert(rest@ =~= line@.skip(5));
        (Some(trim(&rest)), command)
    } else if starts_with_key(line, exec_key_chars) {
        let rest = copy_range(line, 5, line.len());
        assert(rest@ =~= line@.skip(5));
        (name, Some(trim(&rest)))
    } else {
        (name, command)
    }
}

/// The file name of the path `path`.
pub fn file_name(path: &Vec<char>) -> (name: Vec<char>)
    ensures
        name@ == base_name(path@),
{
    let mut end: usize = path.len();
    let mut more = true;
    while more
        invariant
            end <= path.len(),
            path_end(path@, end as int) == path_end(path@, path.len() as int),
            !more ==> path_end(path@, end as int) == end,
        decreases end + (if more {
            1nat
        } else {
            0nat
        }),
    {
        if end > 0 && path[end - 1] == '/' {
            end -= 1;
        } else if end >= 2 && path[end - 1] == '.' && path[end - 2] == '/' {
            end -= 2;
        } else {
            more = false;
        }
    }
    let mut start: usize = end;
    while start > 0 && path[start - 1] != '/'
        invariant
            start <= end <= path.len(),
            component_start(path@, start as int) == component_start(path@, end as int),
        decreases start,
    {
        start -= 1;
    }
    let last = copy_range(path, start, end);
    let is_name = !(last.len() == 0 || (last.len() == 1 && last[0] == '.') || (last.len() == 2
        && last[0] == '.' && last[1] == '.'));
    proof {
        if last.len() == 1 && last[0] == '.' {
            assert(last@ =~= seq!['.']);
        }
        if last.len() == 2 && last[0] == '.' && last[1] == '.' {
            assert(last@ =~= seq!['.', '.']);
        }
        if last@ == seq!['.'] {
            assert(last@.len() == 1 && last@[0] == '.');
        }
        if last@ == seq!['.', '.'] {
            assert(last@.len() == 2 && last@[0] == '.' && last@[1] == '.');
        }
    }
    if is_name {
        last
    } else {
        copy_range(path, 0, path.len())
    }
}

/// The name of the executable that the command line `command` starts.
pub fn exe_name(command: &Vec<char>) -> (name: Option<Vec<char>>)
    ensures
        match name {
            Some(found) => exe_name_of(command@) == Some(found@),
            None => exe_name_of(command@) is None,
        },
{
    let mut from: usize = 0;
    while from < command.len()
        invariant
            from <= command.len(),
            command_span(command@, from as int) == command_span(command@, 0),
        decreases command.len() - from,
    {
        let start = skip_spaces(command, from);
        if start >= command.len() {
            return None;
        }
        let end = skip_token(command, start);
        if command[start] != '%' {
            let word = copy_range(command, start, end);
            return Some(file_name(&word));
        }
        from = end;
    }
    None
}

/// The name of the executable that the command line `exec_line` starts:
/// the file name of its first word that is no `%` placeholder, if it has
/// such a word.
pub fn extract_exe_name(exec_line: &str) -> (name: Option<String>)
    ensures
        match name {
            Some(found) => exe_name_of(exec_line@) == Some(found@),
            None => exe_name_of(exec_line@) is None,
        },
{
    match exe_name(&chars_of(exec_line)) {
        Some(found) => Some(string_of(&found)),
        None => None,
    }
}

/// The application that the desktop entry `content` describes.
///
/// The entry is read line by line until both a line `Name=` and a line
/// `Exec=` were seen; the white space around their values is dropped.
/// There is no application without either, or where the command holds no
/// word but `%` placeholders.
pub fn parse_desktop_entry(content: &str) -> (app: Option<InstalledApp>)
    ensures
        match app {
            Some(found) => entry_of(content@) == Some((found.display_name@, found.exe_name@)),
            None => entry_of(content@) is None,
        },
{
    let chars = chars_of(content);
    let mut name: Option<Vec<char>> = None;
    let mut command: Option<Vec<char>> = None;
    let mut from: usize = 0;
    while from < chars.len() && !(name.is_some() && command.is_some())
        invariant
            from <= chars.len(),
            scanned(chars@, from as int, fields_of(name, command)) == scanned(
                chars@,
                0,
                Fields { name: None, command: None },
            ),
        decreases chars.len() - from,
    {
        let end = find(&chars, from, '\n');
        let line = copy_range(&chars, from, end);
        let next = note(&line, name, command);
        name = next.0;
        command = next.1;
        if end == chars.len() {
            from = end;
        } else {
            from = end + 1;
        }
    }
    match (name, command) {
        (Some(shown), Some(line)) => match exe_name(&line) {
            Some(exe) => Some(
                InstalledApp { display_name: string_of(&shown), exe_name: string_of(&exe) },
            ),
            None => None,
        },
        _ => None,
    }
}

/// The applications of `apps`, each once, where it first stands.
pub open spec fn without_repeats(apps: Seq<AppView>) -> Seq<AppView>
    decreases apps.len(),
{
    if apps.len() == 0 {
        Seq::empty()
    } else {
        let rest = without_repeats(apps.drop_last());
        if rest.contains(apps.last()) {
            rest
        } else {
            rest.push(apps.last())
        }
    }
}

/// `a` does not come after `b` in the order of texts: from position `i` on
/// the first character in which they differ is the smaller one in `a`, or
/// `a` ends first.
pub open spec fn text_le_from(a: Seq<char>, b: Seq<char>, i: int) -> bool
    decreases a.len() - i,
{
    if i < 0 || i >= a.len() {
        true
    } else if i >= b.len() {
        false
    } else if a[i] != b[i] {
        (a[i] as u32) < (b[i] as u32)
    } else {
        text_le_from(a, b, i + 1)
    }
}

/// `a` does not come after `b` in the order of texts, which compares
/// character by character.
pub open spec fn text_le(a: Seq<char>, b: Seq<char>) -> bool {
    text_le_from(a, b, 0)
}

/// The first position at or after `from` whose application comes after
/// `name`, or the length of `sorted`.
pub open spec fn slot_for(sorted: Seq<AppView>, name: Seq<char>, from: int) -> int
    decreases sorted.len() - from,
{
    if 0 <= from < sorted.len() && text_le(sorted[from].display_name, name) {
        slot_for(sorted, name, from + 1)
    } else {
        from
    }
}

/// The applications of `apps` in the order of their names; applications
/// with one name stay in the order in which `apps` has them.
pub open spec fn by_name(apps: Seq<AppView>) -> Seq<AppView>
    decreases apps.len(),
{
    if apps.len() == 0 {
        Seq::empty()
    } else {
        let rest = by_name(apps.drop_last());
        let slot = slot_for(rest, apps.last().display_name, 0);
        if 0 <= slot <= rest.len() {
            rest.insert(slot, apps.last())
        } else {
            rest
        }
    }
}

/// The list of installed applications made of what the desktop entries
/// gave: each application once, in the order of the names.
pub open spec fn installed_list(entries: Seq<AppView>) -> Seq<AppView> {
    by_name(without_repeats(entries))
}

/// Whether `a` does not come after `b` in the order of texts.
pub fn name_le(a: &str, b: &str) -> (le: bool)
    ensures
        le == text_le(a@, b@),
{
    let x = chars_of(a);
    let y = chars_of(b);
    let mut i: usize = 0;
    while i < x.len()
        invariant
            i <= x.len(),
            x@ == a@,
            y@ == b@,
            text_le_from(x@, y@, i as int) == text_le(a@, b@),
        decreases x.len() - i,
    {
        if i >= y.len() {
            return false;
        }
        if x[i] != y[i] {
            return (x[i] as u32) < (y[i] as u32);
        }
        i += 1;
    }
    true
}

/// Whether `apps` holds an application with the name and the executable
/// of `app`.
fn holds_app(apps: &Vec<InstalledApp>, app: &InstalledApp) -> (found: bool)
    ensures
        found == app_views(apps@).contains(app@),
{
    let mut i: usize = 0;
    while i < apps.len()
        invariant
            i <= apps.len(),
            forall|k: int| 0 <= k < i ==> app_views(apps@)[k] != app@,
        decreases apps.len() - i,
    {
        if str_eq(apps[i].display_name.as_str(), app.display_name.as_str()) && str_eq(
            apps[i].exe_name.as_str(),
            app.exe_name.as_str(),
        ) {
            assert(app_views(apps@)[i as int] == app@);
            return true;
        }
        i += 1;
    }
    false
}

/// The applications of `apps` in the order of their names; applications
/// with one name stay in the order in which `apps` has them.
pub fn sort_by_name(apps: &Vec<InstalledApp>) -> (sorted: Vec<InstalledApp>)
    ensures
        app_views(sorted@) == by_name(app_views(apps@)),
{
    let kept = apps;
    let ghost distinct = app_views(kept@);
    let mut sorted: Vec<InstalledApp> = Vec::new();
    let mut j: usize = 0;
    assert(app_views(sorted@) =~= by_name(distinct.take(0)));
    while j < kept.len()
        invariant
            j <= kept.len(),
            distinct == app_views(kept@),
            app_views(sorted@) == by_name(distinct.take(j as int)),
        decreases kept.len() - j,
    {
        assert(distinct.take(j + 1).drop_last() =~= distinct.take(j as int));
        assert(distinct.take(j + 1).last() == kept[j as int]@);
        let ghost before = app_views(sorted@);
        let mut slot: usize = 0;
        while slot < sorted.len() && name_le(
            sorted[slot].display_name.as_str(),
            kept[j].display_name.as_str(),
        )
            invariant
                slot <= sorted.len(),
                before == app_views(sorted@),
                j < kept.len(),
                slot_for(before, kept[j as int]@.display_name, slot as int) == slot_for(
                    before,
                    kept[j as int]@.display_name,
                    0,
                ),
            decreases sorted.len() - slot,
        {
            slot += 1;
        }
        sorted.insert(slot, kept[j].clone());
        assert(app_views(sorted@) =~= before.insert(slot as int, kept[j as int]@));
        j += 1;
    }
    assert(distinct.take(j as int) =~= distinct);
    sorted
}

/// The list of installed applications made of what the desktop entries
/// gave: each application once, where it first stands, then all in the
/// order of their names, applications with one name in the order given.
pub fn collect_installed(entries: &Vec<InstalledApp>) -> (apps: Vec<InstalledApp>)
    ensures
        app_views(apps@) == installed_list(app_views(entries@)),
{
    let ghost all = app_views(entries@);
    let mut kept: Vec<InstalledApp> = Vec::new();
    let mut i: usize = 0;
    assert(app_views(kept@) =~= without_repeats(all.take(0)));
    while i < entries.len()
        invariant
            i <= entries.len(),
            all == app_views(entries@),
            app_views(kept@) == without_repeats(all.take(i as int)),
        decreases entries.len() - i,
    {
        assert(all.take(i + 1).drop_last() =~= all.take(i as int));
        assert(all.take(i + 1).last() == entries[i as int]@);
        if !holds_app(&kept, &entries[i]) {
            let ghost before = app_views(kept@);
            kept.push(entries[i].clone());
            assert(app_views(kept@) =~= before.push(entries[i as int]@));
        }
        i += 1;
    }
    assert(all.take(i as int) =~= all);
    sort_by_name(&kept)
}

/// Of two texts one does not come after the other.
pub proof fn lemma_text_le_total(a: Seq<char>, b: Seq<char>, i: int)
    requires
        0 <= i,
    ensures
        text_le_from(a, b, i) || text_le_from(b, a, i),
    decreases a.len() - i,
{
    if i < a.len() && i < b.len() {
        if a[i] == b[i] {
            lemma_text_le_total(a, b, i + 1);
        } else {
            vstd::utf8::char_u32_cast(a[i], a[i] as u32);
            vstd::utf8::char_u32_cast(b[i], b[i] as u32);
        }
    }
}

/// The order of texts is transitive.
pub proof fn lemma_text_le_transitive(a: Seq<char>, b: Seq<char>, c: Seq<char>, i: int)
    requires
        0 <= i,
        text_le_from(a, b, i),
        text_le_from(b, c, i),
    ensures
        text_le_from(a, c, i),
    decreases a.len() - i,
{
    if i < a.len() && i < b.len() && i < c.len() && a[i] == b[i] && b[i] == c[i] {
        lemma_text_le_transitive(a, b, c, i + 1);
    }
}

/// No application of `apps` comes after a later one in the order of names.
pub open spec fn ordered(apps: Seq<AppView>) -> bool {
    forall|i: int, j: int|
        0 <= i < j < apps.len() ==> text_le(
            (#[trigger] apps[i]).display_name,
            (#[trigger] apps[j]).display_name,
        )
}

/// What `slot_for` finds: before it stand the applications that do not
/// come after `name`, and at it stands one that does.
pub proof fn lemma_slot_for(sorted: Seq<AppView>, name: Seq<char>, from: int)
    requires
        0 <= from <= sorted.len(),
    ensures
        from <= slot_for(sorted, name, from) <= sorted.len(),
        forall|k: int|
            from <= k < slot_for(sorted, name, from) ==> text_le(
                (#[trigger] sorted[k]).display_name,
                name,
            ),
        slot_for(sorted, name, from) < sorted.len() ==> !text_le(
            sorted[slot_for(sorted, name, from)].display_name,
            name,
        ),
    decreases sorted.len() - from,
{
    if from < sorted.len() && text_le(sorted[from].display_name, name) {
        lemma_slot_for(sorted, name, from + 1);
    }
}

/// Ordering by name gives an ordered list of the same applications.
pub proof fn lemma_by_name(apps: Seq<AppView>)
    ensures
        ordered(by_name(apps)),
        by_name(apps).len() == apps.len(),
        forall|app: AppView| #[trigger] by_name(apps).contains(app) <==> apps.contains(app),
        apps.no_duplicates() ==> by_name(apps).no_duplicates(),
    decreases apps.len(),
{
    if apps.len() > 0 {
        let front = apps.drop_last();
        let last = apps.last();
        let rest = by_name(front);
        lemma_by_name(front);
        lemma_slot_for(rest, last.display_name, 0);
        let slot = slot_for(rest, last.display_name, 0);
        let out = rest.insert(slot, last);
        assert(by_name(apps) == out);
        assert forall|i: int, j: int| 0 <= i < j < out.len() implies text_le(
            (#[trigger] out[i]).display_name,
            (#[trigger] out[j]).display_name,
        ) by {
            if j < slot {
                assert(out[i] == rest[i] && out[j] == rest[j]);
            } else if j == slot {
                assert(out[i] == rest[i]);
            } else if i < slot {
                assert(out[i] == rest[i] && out[j] == rest[j - 1]);
            } else if i == slot {
                assert(out[j] == rest[j - 1]);
                lemma_text_le_total(rest[slot].display_name, last.display_name, 0);
                if j - 1 > slot {
                    assert(text_le(rest[slot].display_name, rest[j - 1].display_name));
                    lemma_text_le_transitive(
                        last.display_name,
                        rest[slot].display_name,
                        rest[j - 1].display_name,
                        0,
                    );
                }
            } else {
                assert(out[i] == rest[i - 1] && out[j] == rest[j - 1]);
            }
        }
        assert forall|app: AppView| #[trigger] out.contains(app) <==> apps.contains(app) by {
            if out.contains(app) {
                let k = choose|k: int| 0 <= k < out.len() && out[k] == app;
                if k < slot {
                    assert(rest[k] == app);
                    assert(rest.contains(app));
                } else if k > slot {
                    assert(rest[k - 1] == app);
                    assert(rest.contains(app));
                }
                if rest.contains(app) {
                    assert(front.contains(app));
                    let m = choose|m: int| 0 <= m < front.len() && front[m] == app;
                    assert(apps[m] == app);
                } else {
                    assert(apps[apps.len() - 1] == app);
                }
            }
            if apps.contains(app) {
                let m = choose|m: int| 0 <= m < apps.len() && apps[m] == app;
                if m < front.len() {
                    assert(front[m] == app);
                    assert(rest.contains(app));
                    let k = choose|k: int| 0 <= k < rest.len() && rest[k] == app;
                    if k < slot {
                        assert(out[k] == app);
                    } else {
                        assert(out[k + 1] == app);
                    }
                } else {
                    assert(out[slot] == app);
                }
            }
        }
        if apps.no_duplicates() {
            assert(front.no_duplicates());
            assert(!front.contains(last)) by {
                if front.contains(last) {
                    let m = choose|m: int| 0 <= m < front.len() && front[m] == last;
                    assert(apps[m] == apps[apps.len() - 1]);
                }
            }
            assert(!rest.contains(last));
            assert forall|i: int, j: int| 0 <= i < j < out.len() implies out[i] != out[j] by {
                let a = if i < slot {
                    i
                } else {
                    i - 1
                };
                let b = if j < slot {
                    j
                } else {
                    j - 1
                };
                if i != slot && j != slot {
                    assert(out[i] == rest[a] && out[j] == rest[b]);
                } else if i == slot {
                    assert(out[j] == rest[b]);
                    assert(rest.contains(rest[b]));
                } else {
                    assert(out[i] == rest[a]);
                    assert(rest.contains(rest[a]));
                }
            }
        }
    }
}

/// Dropping repeats keeps each application once.
pub proof fn lemma_without_repeats(apps: Seq<AppView>)
    ensures
        without_repeats(apps).no_duplicates(),
        forall|app: AppView| #[trigger] without_repeats(apps).contains(app) <==> apps.contains(app),
    decreases apps.len(),
{
    if apps.len() > 0 {
        let front = apps.drop_last();
        let last = apps.last();
        lemma_without_repeats(front);
        let rest = without_repeats(front);
        let out = without_repeats(apps);
        assert forall|app: AppView| #[trigger] out.contains(app) <==> apps.contains(app) by {
            if out.contains(app) {
                let k = choose|k: int| 0 <= k < out.len() && out[k] == app;
                if k < rest.len() {
                    assert(rest[k] == app);
                    assert(rest.contains(app));
                    let m = choose|m: int| 0 <= m < front.len() && front[m] == app;
                    assert(apps[m] == app);
                } else {
                    assert(apps[apps.len() - 1] == app);
                }
            }
            if apps.contains(app) {
                let m = choose|m: int| 0 <= m < apps.len() && apps[m] == app;
                if m < front.len() {
                    assert(front[m] == app);
                    assert(rest.contains(app));
                    let k = choose|k: int| 0 <= k < rest.len() && rest[k] == app;
                    assert(out[k] == app);
                } else if rest.contains(app) {
                    let k = choose|k: int| 0 <= k < rest.len() && rest[k] == app;
                    assert(out[k] == app);
                } else {
                    assert(out[rest.len() as int] == app);
                }
            }
        }
    }
}

/// The list of installed applications is ordered by name and holds each
/// application that an entry gave, once.
pub proof fn lemma_installed_list(entries: Seq<AppView>)
    ensures
        ordered(installed_list(entries)),
        installed_list(entries).no_duplicates(),
        forall|app: AppView| #[trigger] installed_list(entries).contains(app) <==> entries.contains(app),
{
    lemma_without_repeats(entries);
    lemma_by_name(without_repeats(entries));
}

} // verus!
