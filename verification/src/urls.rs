//! Navigation targets.

use vstd::prelude::*;
use crate::text::{find_seq, trim, chars_of, find, slice, trim_str};

verus! {

/// The home page of the game.
pub open spec fn home_url() -> Seq<char> {
    "https://krunker.io/"@
}

/// The id of the lobby that `url` names: the trimmed text after the first
/// `game=`; empty when there is none.
pub open spec fn lobby_id(url: Seq<char>) -> Seq<char> {
    match find_seq(url, "game="@) {
        Some(i) => trim(url.skip(i + "game="@.len())),
        None => Seq::empty(),
    }
}

/// Where to go to join another lobby than the one that `url` names.
pub open spec fn next_lobby_url(url: Seq<char>) -> Seq<char> {
    if lobby_id(url).len() > 0 {
        "https://krunker.io/?exclude="@ + lobby_id(url)
    } else {
        home_url()
    }
}

/// The URL that rejoins the matchmaking pool, leaving out the lobby that
/// `current_url` is in (when it names one).
pub fn new_lobby_url(current_url: &str) -> (r: String)
    ensures
        r@ == next_lobby_url(current_url@),
{
    let cs = chars_of(current_url);
    let pat = chars_of("game=");
    match find(&cs, &pat) {
        Some(i) => {
            assert(i + pat@.len() <= cs@.len());
            assert(cs@.len() == cs.len());
            let after = slice(current_url, i + pat.len(), cs.len());
            let id = trim_str(after);
            proof {
                assert(after@ =~= current_url@.skip(i + "game="@.len()));
            }
            if id.unicode_len() > 0 {
                let mut out = String::from_str("https://krunker.io/?exclude=");
                out.append(id);
                out
            } else {
                String::from_str("https://krunker.io/")
            }
        },
        None => String::from_str("https://krunker.io/"),
    }
}

} // verus!
