//! Browser switches: the bundled defaults, the user's changes to them, and the
//! per-platform clean-up (`unix` for CEF, `windows` for WebView2).

use vstd::prelude::*;
use crate::text::views;
use crate::lists::{merged, merge_lists};
use crate::json::{string_list_from_json, strings_or_empty};
use crate::json::string_array_or_empty;
use crate::constants::DEFAULT_FLAGS;

pub mod unix;
pub mod windows;

verus! {

/// A user's changes to the bundled switches: switches to add, and bundled
/// switches to leave out. Each list holds no entry twice (`wf`).
pub struct UserFlags {
    pub flags: Vec<String>,
    pub disabled_defaults: Vec<String>,
}

impl UserFlags {
    /// Neither list holds an entry twice.
    pub open spec fn wf(&self) -> bool {
        views(self.flags@).no_duplicates() && views(self.disabled_defaults@).no_duplicates()
    }
}

impl Default for UserFlags {
    /// No changes.
    fn default() -> (r: Self)
        ensures
            r.flags@.len() == 0,
            r.disabled_defaults@.len() == 0,
            r.wf(),
    {
        UserFlags { flags: Vec::new(), disabled_defaults: Vec::new() }
    }
}

/// The user's switches as read, or no changes when they could not be read.
pub fn parse(parsed: Result<UserFlags, serde_json::Error>) -> (r: UserFlags)
    ensures
        match parsed {
            Ok(user) => r == user,
            Err(_) => r.flags@.len() == 0 && r.disabled_defaults@.len() == 0,
        },
{
    match parsed {
        Ok(user) => user,
        Err(_) => UserFlags::default(),
    }
}

/// The bundled switches that the user did not disable, then the user's own.
pub fn merge(defaults: Vec<String>, user: &UserFlags) -> (r: Vec<String>)
    requires
        user.wf(),
    ensures
        views(r@) == merged(views(defaults@), views(user.disabled_defaults@), views(user.flags@)),
{
    merge_lists(defaults, &user.disabled_defaults, &user.flags)
}

/// The bundled switches.
pub fn defaults() -> (r: Vec<String>)
    ensures
        views(r@) == string_array_or_empty(DEFAULT_FLAGS@),
{
    strings_or_empty(string_list_from_json(DEFAULT_FLAGS))
}

} // verus!
