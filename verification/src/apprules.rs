//! The allow and deny lists by which a process name is classified as a work
//! application, a blocked application, or neither.

use crate::names::{
    ends_with, eq_ignore_ascii_case, fold, lemma_fold_idempotent, lemma_same_name_reflexive,
    lists_name, lowercase_of, same_name, to_lowercase,
};
use vstd::prelude::*;
use vstd::string::StringExecFns;

verus! {

/// The operating system whose naming of executables the rules follow.
#[derive(Clone, Copy, Debug, PartialEq, Eq, Structural)]
pub enum Platform {
    /// Executables carry the suffix `.exe`; a rule matches with and without it.
    Windows,
    /// Executables are named as the rule names them.
    Linux,
}

/// The rule file as it is stored: two lists of process names.
#[derive(Debug)]
pub struct AppRulesFile {
    pub whitelist: Vec<String>,
    pub blacklist: Vec<String>,
}

/// The rules in force: lowercase names of work and of blocked applications.
#[derive(Debug)]
pub struct AppRules {
    pub whitelist: Vec<String>,
    pub blacklist: Vec<String>,
}

/// Every name of `names` in lowercase, in the same order.
pub open spec fn lowered(names: Seq<Seq<char>>) -> Seq<Seq<char>> {
    Seq::new(names.len(), |i: int| lowercase_of(names[i]))
}

/// The entries that stand for one lowercase name on `platform`: the name, and
/// on Windows also the name with `.exe` appended unless it ends so already.
pub open spec fn variants(name: Seq<char>, platform: Platform) -> Seq<Seq<char>> {
    if platform == Platform::Windows && !".exe"@.is_suffix_of(name) {
        seq![name, name + ".exe"@]
    } else {
        seq![name]
    }
}

/// The variants of each name of `names`, in order.
pub open spec fn with_variants(names: Seq<Seq<char>>, platform: Platform) -> Seq<Seq<char>>
    decreases names.len(),
{
    if names.len() == 0 {
        Seq::empty()
    } else {
        with_variants(names.drop_last(), platform) + variants(names.last(), platform)
    }
}

/// On Linux a list is its own expansion.
pub proof fn lemma_with_variants_linux(names: Seq<Seq<char>>)
    ensures
        with_variants(names, Platform::Linux) == names,
    decreases names.len(),
{
    if names.len() == 0 {
        assert(with_variants(names, Platform::Linux) =~= names);
    } else {
        lemma_with_variants_linux(names.drop_last());
        assert(names.drop_last() + seq![names.last()] =~= names);
    }
}

/// Classification is blind to the case of ASCII letters: two spellings of a
/// name that differ in it only are on the same lists.
pub proof fn lemma_classification_ignores_case(
    names: Seq<Seq<char>>,
    spelling: Seq<char>,
    other: Seq<char>,
)
    requires
        same_name(spelling, other),
    ensures
        lists_name(names, spelling) == lists_name(names, other),
{
    if lists_name(names, spelling) {
        let i = choose|i: int| 0 <= i < names.len() && same_name(#[trigger] names[i], spelling);
        assert(same_name(names[i], other));
    }
    if lists_name(names, other) {
        let i = choose|i: int| 0 <= i < names.len() && same_name(#[trigger] names[i], other);
        assert(same_name(names[i], spelling));
    }
}

/// Under empty lists every name is neutral: neither a work application nor
/// blocked. A name that a list holds is on it under every spelling.
pub proof fn lemma_membership(names: Seq<Seq<char>>, name: Seq<char>, i: int)
    ensures
        !lists_name(Seq::empty(), name),
        0 <= i < names.len() ==> lists_name(names, names[i]) && lists_name(names, fold(names[i])),
{
    if 0 <= i < names.len() {
        lemma_same_name_reflexive(names[i]);
        lemma_fold_idempotent(names[i]);
        assert(same_name(names[i], fold(names[i])));
    }
}

impl AppRules {
    /// `name` is a work application under these rules.
    pub open spec fn allows(&self, name: Seq<char>) -> bool {
        lists_name(self.whitelist.deep_view(), name)
    }

    /// `name` is on the deny list of these rules.
    pub open spec fn blocks(&self, name: Seq<char>) -> bool {
        lists_name(self.blacklist.deep_view(), name)
    }

    /// Rules made of the two lists, each name in lowercase.
    pub fn test_with_rules(whitelist: Vec<String>, blacklist: Vec<String>) -> (rules: AppRules)
        ensures
            rules.whitelist.deep_view() == lowered(whitelist.deep_view()),
            rules.blacklist.deep_view() == lowered(blacklist.deep_view()),
    {
        proof {
            lemma_with_variants_linux(lowered(whitelist.deep_view()));
            lemma_with_variants_linux(lowered(blacklist.deep_view()));
        }
        Self::for_platform(whitelist, blacklist, Platform::Linux)
    }

    /// Rules made of the two lists as `platform` names executables.
    pub fn for_platform(whitelist: Vec<String>, blacklist: Vec<String>, platform: Platform) -> (rules:
        AppRules)
        ensures
            rules.whitelist.deep_view() == with_variants(lowered(whitelist.deep_view()), platform),
            rules.blacklist.deep_view() == with_variants(lowered(blacklist.deep_view()), platform),
    {
        AppRules {
            whitelist: Self::expand_names_for(whitelist, platform),
            blacklist: Self::expand_names_for(blacklist, platform),
        }
    }

    /// Rules made of a stored rule file.
    pub fn from_file(file: AppRulesFile, platform: Platform) -> (rules: AppRules)
        ensures
            rules.whitelist.deep_view() == with_variants(
                lowered(file.whitelist.deep_view()),
                platform,
            ),
            rules.blacklist.deep_view() == with_variants(
                lowered(file.blacklist.deep_view()),
                platform,
            ),
    {
        Self::for_platform(file.whitelist, file.blacklist, platform)
    }

    /// Every name in lowercase, in the same order.
    pub fn expand_names(names: Vec<String>) -> (expanded: Vec<String>)
        ensures
            expanded.deep_view() == lowered(names.deep_view()),
    {
        let mut expanded: Vec<String> = Vec::new();
        let mut i: usize = 0;
        while i < names.len()
            invariant
                i <= names.len(),
                expanded.len() == i,
                forall|k: int| 0 <= k < i ==> (#[trigger] expanded[k])@ == lowercase_of(names[k]@),
            decreases names.len() - i,
        {
            let lower = to_lowercase(names[i].as_str());
            expanded.push(lower);
            i += 1;
        }
        assert(expanded.deep_view() =~= lowered(names.deep_view()));
        expanded
    }

    /// Every name in lowercase, each followed by its other spelling on `platform`.
    pub fn expand_names_for(names: Vec<String>, platform: Platform) -> (expanded: Vec<String>)
        ensures
            expanded.deep_view() == with_variants(lowered(names.deep_view()), platform),
    {
        Self::with_platform_variants(Self::expand_names(names), platform)
    }

    /// The names of `lowercase`, each followed by its other spelling on
    /// `platform` where it has one.
    pub fn with_platform_variants(lowercase: Vec<String>, platform: Platform) -> (expanded: Vec<
        String,
    >)
        ensures
            expanded.deep_view() == with_variants(lowercase.deep_view(), platform),
    {
        let ghost all = lowercase.deep_view();
        let mut expanded: Vec<String> = Vec::new();
        let mut i: usize = 0;
        while i < lowercase.len()
            invariant
                i <= lowercase.len(),
                all == lowercase.deep_view(),
                expanded.deep_view() == with_variants(all.take(i as int), platform),
            decreases lowercase.len() - i,
        {
            let ghost before = expanded.deep_view();
            let name = lowercase[i].clone();
            assert(name@ == all[i as int]);
            assert(all.take(i + 1).drop_last() =~= all.take(i as int));
            assert(all.take(i + 1).last() == all[i as int]);
            if platform == Platform::Windows && !ends_with(name.as_str(), ".exe") {
                let suffixed = name.clone().concat(".exe");
                expanded.push(name);
                expanded.push(suffixed);
                assert(expanded.deep_view() =~= before + seq![all[i as int], all[i as int] + ".exe"@]);
            } else {
                expanded.push(name);
                assert(expanded.deep_view() =~= before + seq![all[i as int]]);
            }
            i += 1;
        }
        assert(all.take(i as int) =~= all);
        expanded
    }

    /// Whether `process_name` is on the allow list, whatever the case of its
    /// ASCII letters.
    pub fn is_work_app(&self, process_name: &str) -> (found: bool)
        ensures
            found == self.allows(process_name@),
    {
        list_holds(&self.whitelist, process_name)
    }

    /// Whether `process_name` is on the deny list, whatever the case of its
    /// ASCII letters.
    pub fn is_blocked(&self, process_name: &str) -> (found: bool)
        ensures
            found == self.blocks(process_name@),
    {
        list_holds(&self.blacklist, process_name)
    }

    /// Replaces both lists at once by the lowercase forms of the given ones.
    pub fn reload(&mut self, new_work: Vec<String>, new_block: Vec<String>, platform: Platform)
        ensures
            final(self).whitelist.deep_view() == with_variants(
                lowered(new_work.deep_view()),
                platform,
            ),
            final(self).blacklist.deep_view() == with_variants(
                lowered(new_block.deep_view()),
                platform,
            ),
    {
        *self = Self::for_platform(new_work, new_block, platform);
    }
}

impl Clone for AppRules {
    fn clone(&self) -> (copy: AppRules)
        ensures
            copy.whitelist.deep_view() == self.whitelist.deep_view(),
            copy.blacklist.deep_view() == self.blacklist.deep_view(),
    {
        let whitelist = self.whitelist.clone();
        let blacklist = self.blacklist.clone();
        assert(whitelist.deep_view() =~= self.whitelist.deep_view());
        assert(blacklist.deep_view() =~= self.blacklist.deep_view());
        AppRules { whitelist, blacklist }
    }
}

/// Whether some element of `names` is the same name as `name`.
pub fn list_holds(names: &Vec<String>, name: &str) -> (found: bool)
    ensures
        found == lists_name(names.deep_view(), name@),
{
    let mut i: usize = 0;
    while i < names.len()
        invariant
            i <= names.len(),
            forall|k: int| 0 <= k < i ==> !same_name(#[trigger] names.deep_view()[k], name@),
        decreases names.len() - i,
    {
        if eq_ignore_ascii_case(names[i].as_str(), name) {
            assert(same_name(names.deep_view()[i as int], name@));
            return true;
        }
        i += 1;
    }
    false
}

} // verus!
