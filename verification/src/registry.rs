//! Installed applications as the Windows registry lists them: from the
//! values of an uninstall entry to the application's name and the name of
//! its executable.

use crate::desktop::{by_name, sort_by_name, trim, trimmed};
use crate::names::{
    chars_of, copy_range, ends_with, lowercase_of, occurs_in, str_eq, string_of, to_lowercase,
};
use crate::platform::{app_views, AppView, InstalledApp};
use vstd::prelude::*;

verus! {

/// `c` separates the parts of a registry value: a comma, a space or a
/// double quote.
pub open spec fn splits(c: char) -> bool {
    c == ',' || c == ' ' || c == '"'
}

/// The first position at or after `from` that holds a separator, or the
/// length of `s`.
pub open spec fn part_end(s: Seq<char>, from: int) -> int
    decreases s.len() - from,
{
    if 0 <= from < s.len() && !splits(s[from]) {
        part_end(s, from + 1)
    } else {
        from
    }
}

/// `part` names an executable: in lowercase it ends in `.exe`.
pub open spec fn names_exe(part: Seq<char>) -> bool {
    ".exe"@.is_suffix_of(lowercase_of(part))
}

/// The first part of `s` at or after `from` that names an executable,
/// where `s` is split at every separator.
pub open spec fn exe_part(s: Seq<char>, from: int) -> Option<Seq<char>>
    decreases s.len() - from,
{
    if from < 0 || from > s.len() {
        None
    } else {
        let end = part_end(s, from);
        if end < from || end > s.len() {
            None
        } else if names_exe(s.subrange(from, end)) {
            Some(s.subrange(from, end))
        } else if end == s.len() {
            None
        } else {
            exe_part(s, end + 1)
        }
    }
}

/// The applications of `apps` without those that have the name of the
/// application just before them.
pub open spec fn first_of_each_name(apps: Seq<AppView>) -> Seq<AppView>
    decreases apps.len(),
{
    if apps.len() == 0 {
        Seq::empty()
    } else {
        let rest = first_of_each_name(apps.drop_last());
        if apps.len() >= 2 && apps[apps.len() - 2].display_name == apps.last().display_name {
            rest
        } else {
            rest.push(apps.last())
        }
    }
}

/// `std::path::Path::file_name` of the path `part`, as text: the final
/// component of the path, if it has one. Which stretch of the path that is
/// follows the rules of the platform and is not stated; it is a stretch of
/// the path.
#[verifier::external_body]
fn path_file_name(part: &str) -> (name: Option<String>)
    ensures
        name matches Some(found) ==> occurs_in(found@, part@),
{
    match std::path::Path::new(part).file_name() {
        Some(found) => Some(found.to_string_lossy().into_owned()),
        None => None,
    }
}

/// The first part of `path` that names an executable, where `path` is
/// split at every comma, space and double quote.
pub fn first_exe_part(path: &str) -> (part: Option<String>)
    ensures
        match part {
            Some(found) => exe_part(path@, 0) == Some(found@),
            None => exe_part(path@, 0) is None,
        },
{
    let chars = chars_of(path);
    let mut from: usize = 0;
    while from <= chars.len()
        invariant
            from <= chars.len(),
            chars@ == path@,
            exe_part(chars@, from as int) == exe_part(chars@, 0),
        decreases chars.len() - from,
    {
        let mut end: usize = from;
        while end < chars.len() && !(chars[end] == ',' || chars[end] == ' ' || chars[end] == '"')
            invariant
                from <= end <= chars.len(),
                part_end(chars@, end as int) == part_end(chars@, from as int),
            decreases chars.len() - end,
        {
            end += 1;
        }
        let part = string_of(&copy_range(&chars, from, end));
        let lower = to_lowercase(part.as_str());
        if ends_with(lower.as_str(), ".exe") {
            return Some(part);
        }
        if end == chars.len() {
            return None;
        }
        from = end + 1;
    }
    None
}

/// The name of the executable that the registry value `path` points to:
/// the file name of its first part that names an executable. There is none
/// where no part names an executable or that part has no file name.
pub fn extract_exe_name_windows(path: &str) -> (name: Option<String>)
    ensures
        exe_part(path@, 0) is None ==> name is None,
        name matches Some(found) ==> exe_part(path@, 0) is Some && occurs_in(
            found@,
            exe_part(path@, 0)->0,
        ),
{
    match first_exe_part(path) {
        Some(part) => path_file_name(part.as_str()),
        None => None,
    }
}

/// The value that says where the executable of an entry is: its icon,
/// or else its uninstall command.
pub open spec fn exe_source(display_icon: Option<&str>, uninstall_string: Option<&str>) -> Option<
    Seq<char>,
> {
    match display_icon {
        Some(icon) => Some(icon@),
        None => match uninstall_string {
            Some(command) => Some(command@),
            None => None,
        },
    }
}

/// An uninstall entry is listed: it has a name that is not blank, is no
/// system component, and one of its parts names an executable.
pub open spec fn listed(
    display_name: Option<&str>,
    system_component: bool,
    display_icon: Option<&str>,
    uninstall_string: Option<&str>,
) -> bool {
    &&& display_name matches Some(name) && trimmed(name@).len() > 0
    &&& !system_component
    &&& exe_source(display_icon, uninstall_string) matches Some(source) && exe_part(source, 0)
        is Some
}

/// The application that an uninstall entry of the registry describes.
///
/// An entry without a name, with a blank name or marked as a system
/// component describes none. The executable is looked for in the icon of
/// the entry, or in its uninstall command where it has no icon. The name
/// is taken without the white space around it.
pub fn registry_app(
    display_name: Option<&str>,
    system_component: bool,
    display_icon: Option<&str>,
    uninstall_string: Option<&str>,
) -> (app: Option<InstalledApp>)
    ensures
        !listed(display_name, system_component, display_icon, uninstall_string) ==> app is None,
        app matches Some(found) ==> {
            &&& found.display_name@ == trimmed(display_name->0@)
            &&& occurs_in(
                found.exe_name@,
                exe_part(exe_source(display_icon, uninstall_string)->0, 0)->0,
            )
        },
{
    let name = match display_name {
        Some(name) => name,
        None => {
            return None;
        },
    };
    if system_component {
        return None;
    }
    let shown = trim(&chars_of(name));
    if shown.len() == 0 {
        return None;
    }
    let source = match display_icon {
        Some(icon) => icon,
        None => match uninstall_string {
            Some(command) => command,
            None => {
                return None;
            },
        },
    };
    match extract_exe_name_windows(source) {
        Some(exe_name) => Some(InstalledApp { display_name: string_of(&shown), exe_name }),
        None => None,
    }
}

/// The list of installed applications made of what the registry entries
/// gave: in the order of the names, and of several applications with one
/// name the first.
pub fn collect_installed_windows(found: &Vec<InstalledApp>) -> (apps: Vec<InstalledApp>)
    ensures
        app_views(apps@) == first_of_each_name(by_name(app_views(found@))),
{
    let sorted = sort_by_name(found);
    let ghost all = app_views(sorted@);
    let mut apps: Vec<InstalledApp> = Vec::new();
    let mut i: usize = 0;
    assert(app_views(apps@) =~= first_of_each_name(all.take(0)));
    while i < sorted.len()
        invariant
            i <= sorted.len(),
            all == app_views(sorted@),
            app_views(apps@) == first_of_each_name(all.take(i as int)),
        decreases sorted.len() - i,
    {
        let ghost before = app_views(apps@);
        let ghost upto = all.take(i + 1);
        assert(upto.drop_last() =~= all.take(i as int));
        assert(upto.last() == sorted[i as int]@);
        let repeats = i > 0 && str_eq(
            sorted[i - 1].display_name.as_str(),
            sorted[i].display_name.as_str(),
        );
        proof {
            if i > 0 {
                assert(upto[upto.len() - 2] == sorted[i - 1]@);
            }
        }
        if !repeats {
            apps.push(sorted[i].clone());
            assert(app_views(apps@) =~= before.push(sorted[i as int]@));
        }
        i += 1;
    }
    assert(all.take(i as int) =~= all);
    apps
}

} // verus!
