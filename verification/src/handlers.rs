//! Decisions of the browser's request and keyboard handlers.

use vstd::prelude::*;
use crate::text::{
    second_piece, before_char, second_piece_str, before_char_str, chars_of, str_eq, slice, lacks,
    contains_seq, occurs_at, lemma_find_seq_is, lemma_occurs_char, lemma_find_char_none,
};

verus! {

/// The swap key of a request URL: the text after `krunker.io/` (up to a
/// further `krunker.io/`), without its query.
pub open spec fn swap_key_of(url: Seq<char>) -> Option<Seq<char>> {
    match second_piece(url, "krunker.io/"@) {
        Some(p) => Some(before_char(p, '?')),
        None => None,
    }
}

/// The resource path that a request URL asks for, as swaps are keyed.
pub fn swap_key(url: &str) -> (r: Option<&str>)
    ensures
        match r {
            Some(k) => swap_key_of(url@) == Some(k@),
            None => swap_key_of(url@) is None,
        },
{
    match second_piece_str(url, "krunker.io/") {
        Some(p) => Some(before_char_str(p, '?')),
        None => None,
    }
}

/// In a URL written as a scheme without `k`, `krunker.io/`, a key without
/// `?` and then optionally `?` and a query, with no further `krunker.io/`,
/// the swap key is that key.
pub proof fn lemma_swap_key_is(scheme: Seq<char>, key: Seq<char>, query: Seq<char>)
    requires
        lacks(scheme, 'k'),
        lacks(key, '?'),
        !contains_seq(key + "?"@ + query, "krunker.io/"@),
        !contains_seq(key, "krunker.io/"@),
    ensures
        swap_key_of(scheme + "krunker.io/"@ + key + "?"@ + query) == Some(key),
        swap_key_of(scheme + "krunker.io/"@ + key) == Some(key),
{
    reveal_strlit("krunker.io/");
    reveal_strlit("?");
    let pat = "krunker.io/"@;
    let n = scheme.len() as int;
    let u1 = scheme + pat + key + "?"@ + query;
    let u2 = scheme + pat + key;
    assert(u1.subrange(n, n + 11) =~= pat);
    assert(u2.subrange(n, n + 11) =~= pat);
    assert forall|j: int| 0 <= j < n implies !#[trigger] occurs_at(u1, pat, j) by {
        assert(u1.subrange(j, j + 11)[0] == u1[j]);
        assert(u1[j] == scheme[j]);
    }
    assert forall|j: int| 0 <= j < n implies !#[trigger] occurs_at(u2, pat, j) by {
        assert(u2.subrange(j, j + 11)[0] == u2[j]);
        assert(u2[j] == scheme[j]);
    }
    lemma_find_seq_is(u1, pat, n);
    lemma_find_seq_is(u2, pat, n);
    assert(u1.skip(n + 11) =~= key + "?"@ + query);
    assert(u2.skip(n + 11) =~= key);
    let r1 = key + "?"@ + query;
    let kl = key.len() as int;
    lemma_occurs_char(r1, '?', kl);
    assert forall|j: int| 0 <= j < kl implies !#[trigger] occurs_at(r1, seq!['?'], j) by {
        lemma_occurs_char(r1, '?', j);
        assert(r1[j] == key[j]);
    }
    lemma_find_seq_is(r1, seq!['?'], kl);
    assert(r1.take(kl) =~= key);
    lemma_find_char_none(key, '?');
}

/// A URL without `krunker.io/` has no swap key.
pub proof fn lemma_no_swap_key(url: Seq<char>)
    requires
        !contains_seq(url, "krunker.io/"@),
    ensures
        swap_key_of(url) is None,
{
}

/// The text after the last `.` of `path`, or all of it when it has none
/// (the first piece of `str::rsplit` on `.`).
pub open spec fn extension(path: Seq<char>) -> Seq<char>
    decreases path.len(),
{
    if path.len() == 0 {
        path
    } else if path.last() == '.' {
        Seq::empty()
    } else {
        extension(path.drop_last()).push(path.last())
    }
}

/// The content type served for a file extension.
pub open spec fn mime_of(ext: Seq<char>) -> Seq<char> {
    if ext == "js"@ || ext == "mjs"@ {
        "text/javascript"@
    } else if ext == "css"@ {
        "text/css"@
    } else if ext == "html"@ || ext == "htm"@ {
        "text/html"@
    } else if ext == "json"@ {
        "application/json"@
    } else if ext == "png"@ {
        "image/png"@
    } else if ext == "jpg"@ || ext == "jpeg"@ {
        "image/jpeg"@
    } else if ext == "gif"@ {
        "image/gif"@
    } else if ext == "svg"@ {
        "image/svg+xml"@
    } else if ext == "webp"@ {
        "image/webp"@
    } else if ext == "wasm"@ {
        "application/wasm"@
    } else if ext == "mp3"@ {
        "audio/mpeg"@
    } else if ext == "ogg"@ {
        "audio/ogg"@
    } else if ext == "wav"@ {
        "audio/wav"@
    } else {
        "application/octet-stream"@
    }
}

proof fn lemma_extension(path: Seq<char>, k: int)
    requires
        -1 <= k < path.len(),
        k >= 0 ==> path[k] == '.',
        forall|m: int| k < m < path.len() ==> #[trigger] path[m] != '.',
    ensures
        extension(path) == path.skip(k + 1),
    decreases path.len(),
{
    if path.len() == 0 {
    } else if k == path.len() - 1 {
        assert(path.skip(k + 1) =~= Seq::<char>::empty());
    } else {
        assert(path.last() != '.');
        lemma_extension(path.drop_last(), k);
        assert(path.drop_last().skip(k + 1).push(path.last()) =~= path.skip(k + 1));
    }
}

/// The content types served, by file extension.
pub open spec fn content_types() -> Seq<(Seq<char>, Seq<char>)> {
    seq![
        ("js"@, "text/javascript"@),
        ("mjs"@, "text/javascript"@),
        ("css"@, "text/css"@),
        ("html"@, "text/html"@),
        ("htm"@, "text/html"@),
        ("json"@, "application/json"@),
        ("png"@, "image/png"@),
        ("jpg"@, "image/jpeg"@),
        ("jpeg"@, "image/jpeg"@),
        ("gif"@, "image/gif"@),
        ("svg"@, "image/svg+xml"@),
        ("webp"@, "image/webp"@),
        ("wasm"@, "application/wasm"@),
        ("mp3"@, "audio/mpeg"@),
        ("ogg"@, "audio/ogg"@),
        ("wav"@, "audio/wav"@),
    ]
}

/// A file whose name ends in `.` and an extension of the table is served
/// with that extension's content type, whatever comes before it.
pub proof fn lemma_mime_by_table(stem: Seq<char>, i: int)
    requires
        0 <= i < content_types().len(),
    ensures
        mime_of(extension(stem + "."@ + content_types()[i].0)) == content_types()[i].1,
        mime_of(extension(content_types()[i].0)) == content_types()[i].1,
{
    reveal_strlit(".");
    reveal_strlit("js");
    reveal_strlit("mjs");
    reveal_strlit("css");
    reveal_strlit("html");
    reveal_strlit("htm");
    reveal_strlit("json");
    reveal_strlit("png");
    reveal_strlit("jpg");
    reveal_strlit("jpeg");
    reveal_strlit("gif");
    reveal_strlit("svg");
    reveal_strlit("webp");
    reveal_strlit("wasm");
    reveal_strlit("mp3");
    reveal_strlit("ogg");
    reveal_strlit("wav");
    let ext = content_types()[i].0;
    let path = stem + "."@ + ext;
    let k = stem.len() as int;
    assert forall|m: int| k < m < path.len() implies #[trigger] path[m] != '.' by {
        assert(path[m] == ext[m - k - 1]);
    }
    lemma_extension(path, k);
    assert(path.skip(k + 1) =~= ext);
    lemma_extension(ext, -1);
    assert(ext.skip(0) =~= ext);
    if i == 0 {
        assert(ext =~= seq!['j', 's']);
        assert(ext[0] == 'j' && ext[1] == 's');
        assert(mime_of(ext) == content_types()[0].1);
    } else if i == 1 {
        assert(ext =~= seq!['m', 'j', 's']);
        assert(ext[0] == 'm' && ext[1] == 'j');
        assert(mime_of(ext) == content_types()[1].1);
    } else if i == 2 {
        assert(ext =~= seq!['c', 's', 's']);
        assert(ext[0] == 'c' && ext[1] == 's');
        assert(mime_of(ext) == content_types()[2].1);
    } else if i == 3 {
        assert(ext =~= seq!['h', 't', 'm', 'l']);
        assert(ext[0] == 'h' && ext[1] == 't');
        assert(mime_of(ext) == content_types()[3].1);
    } else if i == 4 {
        assert(ext =~= seq!['h', 't', 'm']);
        assert(ext[0] == 'h' && ext[1] == 't');
        assert(mime_of(ext) == content_types()[4].1);
    } else if i == 5 {
        assert(ext =~= seq!['j', 's', 'o', 'n']);
        assert(ext[0] == 'j' && ext[1] == 's');
        assert(mime_of(ext) == content_types()[5].1);
    } else if i == 6 {
        assert(ext =~= seq!['p', 'n', 'g']);
        assert(ext[0] == 'p' && ext[1] == 'n');
        assert(mime_of(ext) == content_types()[6].1);
    } else if i == 7 {
        assert(ext =~= seq!['j', 'p', 'g']);
        assert(ext[0] == 'j' && ext[1] == 'p');
        assert(mime_of(ext) == content_types()[7].1);
    } else if i == 8 {
        assert(ext =~= seq!['j', 'p', 'e', 'g']);
        assert(ext[0] == 'j' && ext[1] == 'p');
        assert(mime_of(ext) == content_types()[8].1);
    } else if i == 9 {
        assert(ext =~= seq!['g', 'i', 'f']);
        assert(ext[0] == 'g' && ext[1] == 'i');
        assert(mime_of(ext) == content_types()[9].1);
    } else if i == 10 {
        assert(ext =~= seq!['s', 'v', 'g']);
        assert(ext[0] == 's' && ext[1] == 'v');
        assert(mime_of(ext) == content_types()[10].1);
    } else if i == 11 {
        assert(ext =~= seq!['w', 'e', 'b', 'p']);
        assert(ext[0] == 'w' && ext[1] == 'e');
        assert(mime_of(ext) == content_types()[11].1);
    } else if i == 12 {
        assert(ext =~= seq!['w', 'a', 's', 'm']);
        assert(ext[0] == 'w' && ext[1] == 'a');
        assert(mime_of(ext) == content_types()[12].1);
    } else if i == 13 {
        assert(ext =~= seq!['m', 'p', '3']);
        assert(ext[0] == 'm' && ext[1] == 'p');
        assert(mime_of(ext) == content_types()[13].1);
    } else if i == 14 {
        assert(ext =~= seq!['o', 'g', 'g']);
        assert(ext[0] == 'o' && ext[1] == 'g');
        assert(mime_of(ext) == content_types()[14].1);
    } else if i == 15 {
        assert(ext =~= seq!['w', 'a', 'v']);
        assert(ext[0] == 'w' && ext[1] == 'a');
        assert(mime_of(ext) == content_types()[15].1);
    }
}

/// A file whose extension is not in the table is served as
/// `application/octet-stream`.
pub proof fn lemma_mime_otherwise(stem: Seq<char>, ext: Seq<char>)
    requires
        forall|m: int| 0 <= m < ext.len() ==> ext[m] != '.',
        forall|i: int| 0 <= i < content_types().len() ==> content_types()[i].0 != ext,
    ensures
        mime_of(extension(stem + "."@ + ext)) == "application/octet-stream"@,
{
    reveal_strlit(".");
    let path = stem + "."@ + ext;
    let k = stem.len() as int;
    assert forall|m: int| k < m < path.len() implies #[trigger] path[m] != '.' by {
        assert(path[m] == ext[m - k - 1]);
    }
    lemma_extension(path, k);
    assert(path.skip(k + 1) =~= ext);
    assert(content_types()[0].0 != ext);
    assert(content_types()[1].0 != ext);
    assert(content_types()[2].0 != ext);
    assert(content_types()[3].0 != ext);
    assert(content_types()[4].0 != ext);
    assert(content_types()[5].0 != ext);
    assert(content_types()[6].0 != ext);
    assert(content_types()[7].0 != ext);
    assert(content_types()[8].0 != ext);
    assert(content_types()[9].0 != ext);
    assert(content_types()[10].0 != ext);
    assert(content_types()[11].0 != ext);
    assert(content_types()[12].0 != ext);
    assert(content_types()[13].0 != ext);
    assert(content_types()[14].0 != ext);
    assert(content_types()[15].0 != ext);
}

fn extension_str(path: &str) -> (r: &str)
    ensures
        r@ == extension(path@),
{
    let cs = chars_of(path);
    let mut i: usize = cs.len();
    while i > 0 && cs[i - 1] != '.'
        invariant
            cs@ == path@,
            i <= cs@.len(),
            forall|m: int| i <= m < cs@.len() ==> #[trigger] path@[m] != '.',
        decreases i,
    {
        i -= 1;
    }
    proof {
        lemma_extension(path@, i - 1);
    }
    slice(path, i, cs.len())
}

/// The content type to serve for a swapped file.
pub fn mime_for(path: &str) -> (r: &'static str)
    ensures
        r@ == mime_of(extension(path@)),
{
    let ext = extension_str(path);
    if str_eq(ext, "js") || str_eq(ext, "mjs") {
        "text/javascript"
    } else if str_eq(ext, "css") {
        "text/css"
    } else if str_eq(ext, "html") || str_eq(ext, "htm") {
        "text/html"
    } else if str_eq(ext, "json") {
        "application/json"
    } else if str_eq(ext, "png") {
        "image/png"
    } else if str_eq(ext, "jpg") || str_eq(ext, "jpeg") {
        "image/jpeg"
    } else if str_eq(ext, "gif") {
        "image/gif"
    } else if str_eq(ext, "svg") {
        "image/svg+xml"
    } else if str_eq(ext, "webp") {
        "image/webp"
    } else if str_eq(ext, "wasm") {
        "application/wasm"
    } else if str_eq(ext, "mp3") {
        "audio/mpeg"
    } else if str_eq(ext, "ogg") {
        "audio/ogg"
    } else if str_eq(ext, "wav") {
        "audio/wav"
    } else {
        "application/octet-stream"
    }
}

/// Windows virtual key codes, which the browser reports on every platform.
pub const VK_F4: i32 = 0x73;
pub const VK_F5: i32 = 0x74;
pub const VK_F6: i32 = 0x75;
pub const VK_F11: i32 = 0x7A;
pub const VK_F12: i32 = 0x7B;

/// What a key press in the game window does.
#[derive(Copy, Clone, Debug, PartialEq, Eq)]
pub enum KeyAction {
    /// F4, F6: join another lobby.
    NewLobby,
    /// F5: reload the page.
    Reload,
    /// F11: toggle fullscreen.
    ToggleFullscreen,
    /// F12: open the developer tools.
    DevTools,
    /// Any other key: left to the page.
    Unhandled,
}

/// The action for a key press, by its virtual key code.
pub open spec fn key_action_of(code: i32) -> KeyAction {
    if code == VK_F4 || code == VK_F6 {
        KeyAction::NewLobby
    } else if code == VK_F5 {
        KeyAction::Reload
    } else if code == VK_F11 {
        KeyAction::ToggleFullscreen
    } else if code == VK_F12 {
        KeyAction::DevTools
    } else {
        KeyAction::Unhandled
    }
}

/// The action for a key press, by its virtual key code.
pub fn key_action(code: i32) -> (r: KeyAction)
    ensures
        r == key_action_of(code),
{
    if code == VK_F4 || code == VK_F6 {
        KeyAction::NewLobby
    } else if code == VK_F5 {
        KeyAction::Reload
    } else if code == VK_F11 {
        KeyAction::ToggleFullscreen
    } else if code == VK_F12 {
        KeyAction::DevTools
    } else {
        KeyAction::Unhandled
    }
}

} // verus!
