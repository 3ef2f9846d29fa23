//! Which host the game's lobby connection goes to.

use vstd::prelude::*;
use crate::text::{second_piece, before_char, contains_seq, second_piece_str, before_char_str, contains_str};

verus! {

/// The host of a lobby socket URL: for a URL that mentions `lobby-`, the text
/// after `://` up to the first `/`, without a `:port`.
pub open spec fn lobby_host_of(url: Seq<char>) -> Option<Seq<char>> {
    if !contains_seq(url, "lobby-"@) {
        None
    } else {
        match second_piece(url, "://"@) {
            Some(p) => Some(before_char(before_char(p, '/'), ':')),
            None => None,
        }
    }
}

/// The host to resolve for a new web socket, when it is a lobby's.
pub fn lobby_host(url: &str) -> (r: Option<&str>)
    ensures
        match r {
            Some(h) => lobby_host_of(url@) == Some(h@),
            None => lobby_host_of(url@) is None,
        },
{
    if !contains_str(url, "lobby-") {
        return None;
    }
    match second_piece_str(url, "://") {
        Some(p) => Some(before_char_str(before_char_str(p, '/'), ':')),
        None => None,
    }
}

} // verus!
