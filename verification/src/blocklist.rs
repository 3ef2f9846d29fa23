//! The request blocklist: bundled URL patterns, the user's changes to them,
//! and matching a URL against the result.

use vstd::prelude::*;
use crate::text::{chars_of, views};
use crate::glob::{greedy_glob, glob_matches, lemma_greedy_glob_is_wildcard_match, glob_run, stars_from};
use crate::lists::{merged, merge_lists, lemma_merge_nothing_changes_nothing};
use crate::json::{string_array_or_empty, string_list_from_json, strings_or_empty};
use crate::constants::DEFAULT_BLOCKLIST;

verus! {

/// A user's changes to the bundled blocklist: patterns to add, and bundled
/// patterns to leave out. Each list holds no entry twice (`wf`).
pub struct UserBlocklist {
    pub blocked: Vec<String>,
    pub disabled_defaults: Vec<String>,
}

impl UserBlocklist {
    /// Neither list holds an entry twice.
    pub open spec fn wf(&self) -> bool {
        views(self.blocked@).no_duplicates() && views(self.disabled_defaults@).no_duplicates()
    }
}

impl Default for UserBlocklist {
    /// No changes.
    fn default() -> (r: Self)
        ensures
            r.blocked@.len() == 0,
            r.disabled_defaults@.len() == 0,
            r.wf(),
    {
        UserBlocklist { blocked: Vec::new(), disabled_defaults: Vec::new() }
    }
}

/// The bundled patterns that the user did not disable, then the user's own.
pub fn merge(defaults: Vec<String>, user: &UserBlocklist) -> (r: Vec<String>)
    requires
        user.wf(),
    ensures
        views(r@) == merged(views(defaults@), views(user.disabled_defaults@), views(user.blocked@)),
{
    merge_lists(defaults, &user.disabled_defaults, &user.blocked)
}

/// The user's blocklist as read, or no changes when it could not be read.
pub fn parse(parsed: Result<UserBlocklist, serde_json::Error>) -> (r: UserBlocklist)
    ensures
        match parsed {
            Ok(user) => r == user,
            Err(_) => r.blocked@.len() == 0 && r.disabled_defaults@.len() == 0,
        },
{
    match parsed {
        Ok(user) => user,
        Err(_) => UserBlocklist::default(),
    }
}

/// The bundled blocklist patterns.
pub fn defaults() -> (r: Vec<String>)
    ensures
        views(r@) == string_array_or_empty(DEFAULT_BLOCKLIST@),
{
    strings_or_empty(string_list_from_json(DEFAULT_BLOCKLIST))
}

/// A user file that could not be read (no changes) leaves the bundled
/// patterns exactly as they are.
pub proof fn lemma_no_changes_keeps_defaults(defaults: Seq<Seq<char>>, user: UserBlocklist)
    requires
        user.blocked@.len() == 0,
        user.disabled_defaults@.len() == 0,
    ensures
        merged(defaults, views(user.disabled_defaults@), views(user.blocked@)) == defaults,
{
    assert(views(user.disabled_defaults@) =~= Seq::<Seq<char>>::empty());
    assert(views(user.blocked@) =~= Seq::<Seq<char>>::empty());
    lemma_merge_nothing_changes_nothing(defaults);
}

/// The patterns that requests are checked against: none when blocking is
/// turned off, else the bundled ones merged with the user's changes.
pub fn active_patterns(enabled: bool, user: &UserBlocklist) -> (r: Vec<String>)
    requires
        user.wf(),
    ensures
        enabled ==> views(r@) == merged(string_array_or_empty(DEFAULT_BLOCKLIST@), views(user.disabled_defaults@), views(user.blocked@)),
        !enabled ==> r@.len() == 0,
{
    if !enabled {
        return Vec::new();
    }
    merge(defaults(), user)
}

// WebView2 takes glob strings directly; CEF needs the matching done here.
/// Matches `text` against the wildcard `pattern`; `*` stands for any run of
/// characters, every other character for itself.
pub fn glob_match(pattern: &str, text: &str) -> (r: bool)
    ensures
        r == glob_matches(pattern@, text@),
{
    proof {
        lemma_greedy_glob_is_wildcard_match(pattern@, text@);
    }
    let p = chars_of(pattern);
    let t = chars_of(text);
    let mut pi: usize = 0;
    let mut ti: usize = 0;
    let mut star: usize = usize::MAX;
    let mut backtrack: usize = 0;
    while ti < t.len()
        invariant
            p@ == pattern@,
            t@ == text@,
            pi <= p.len(),
            backtrack <= ti <= t.len(),
            star == usize::MAX || star < pi,
            greedy_glob(pattern@, text@) == glob_matches(pattern@, text@),
            glob_run(p@, t@, pi as int, ti as int, if star == usize::MAX { None } else { Some(star as int) }, backtrack as int)
                == greedy_glob(pattern@, text@),
        decreases
            (if star == usize::MAX { t.len() + 1 } else { t.len() - backtrack }),
            t.len() - ti + p.len() - pi,
    {
        if pi < p.len() && p[pi] == '*' {
            star = pi;
            backtrack = ti;
            pi += 1;
        } else if pi < p.len() && p[pi] == t[ti] {
            pi += 1;
            ti += 1;
        } else if star != usize::MAX {
            pi = star + 1;
            backtrack += 1;
            ti = backtrack;
        } else {
            return false;
        }
    }
    let ghost pi0 = pi as int;
    while pi < p.len() && p[pi] == '*'
        invariant
            p@ == pattern@,
            pi0 <= pi <= p.len(),
            stars_from(p@, pi0) == stars_from(p@, pi as int),
        decreases p.len() - pi,
    {
        pi += 1;
    }
    pi == p.len()
}

/// Whether any of `patterns` matches `url`.
pub fn is_blocked(patterns: &[String], url: &str) -> (r: bool)
    ensures
        r == exists|i: int| 0 <= i < patterns@.len() && glob_matches(#[trigger] patterns@[i]@, url@),
{
    let mut i: usize = 0;
    while i < patterns.len()
        invariant
            i <= patterns@.len(),
            forall|k: int| 0 <= k < i ==> !glob_matches(#[trigger] patterns@[k]@, url@),
        decreases patterns.len() - i,
    {
        if glob_match(patterns[i].as_str(), url) {
            return true;
        }
        i += 1;
    }
    false
}

} // verus!
