//! A plain deny list of process names.

use crate::apprules::list_holds;
use crate::names::lists_name;
use vstd::prelude::*;
use vstd::string::StringExecFns;

verus! {

/// The names of blocked applications.
#[derive(Debug)]
pub struct Blacklist {
    blocked: Vec<String>,
}

impl View for Blacklist {
    type V = Seq<Seq<char>>;

    closed spec fn view(&self) -> Seq<Seq<char>> {
        self.blocked.deep_view()
    }
}

/// The deny list that is used where none is stored.
pub open spec fn default_blocked() -> Seq<Seq<char>> {
    seq!["chrome.exe"@, "discord.exe"@, "vlc.exe"@]
}

impl Blacklist {
    /// The deny list made of the stored names, each in lowercase, or the
    /// default list where none is stored.
    pub fn new(stored: Option<Vec<String>>) -> (list: Blacklist)
        ensures
            list@ == (match stored {
                Some(names) => crate::apprules::lowered(names.deep_view()),
                None => default_blocked(),
            }),
    {
        match stored {
            Some(names) => Blacklist { blocked: crate::apprules::AppRules::expand_names(names) },
            None => {
                let mut blocked: Vec<String> = Vec::new();
                blocked.push(String::from_str("chrome.exe"));
                blocked.push(String::from_str("discord.exe"));
                blocked.push(String::from_str("vlc.exe"));
                assert(blocked.deep_view() =~= default_blocked());
                Blacklist { blocked }
            },
        }
    }

    /// Whether `process_name` is on the list, whatever the case of its
    /// ASCII letters.
    pub fn is_blocked(&self, process_name: &str) -> (found: bool)
        ensures
            found == lists_name(self@, process_name@),
    {
        list_holds(&self.blocked, process_name)
    }

    /// The names on the list.
    pub fn list(&self) -> (names: &[String])
        ensures
            names.deep_view() == self@,
    {
        let names = self.blocked.as_slice();
        assert(names.deep_view() =~= self.blocked.deep_view());
        names
    }
}

} // verus!
