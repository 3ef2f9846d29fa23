//! Resource swapper: files under the swap folder replace the game's own
//! resources, keyed by their path below the folder, written with `/`.

use vstd::prelude::*;
use vstd::utf8::{valid_utf8, decode_utf8};
use crate::text::join;

verus! {

/// One replacement: the resource's path and the bytes to serve for it.
pub type Swap = (String, Vec<u8>);

/// One component of a file system path, as `std::path::Component` gives it;
/// a prefix or a normal component carries its encoded bytes
/// (`OsStr::as_encoded_bytes`).
pub enum PathPart {
    Prefix(Vec<u8>),
    RootDir,
    CurDir,
    ParentDir,
    Normal(Vec<u8>),
}

/// A path component as plain values.
pub enum PartView {
    Prefix(Seq<u8>),
    RootDir,
    CurDir,
    ParentDir,
    Normal(Seq<u8>),
}

impl View for PathPart {
    type V = PartView;

    open spec fn view(&self) -> PartView {
        match self {
            PathPart::Prefix(b) => PartView::Prefix(b@),
            PathPart::RootDir => PartView::RootDir,
            PathPart::CurDir => PartView::CurDir,
            PathPart::ParentDir => PartView::ParentDir,
            PathPart::Normal(b) => PartView::Normal(b@),
        }
    }
}

/// The views of a list of path components.
pub open spec fn parts_view(parts: Seq<PathPart>) -> Seq<PartView> {
    parts.map_values(|p: PathPart| p@)
}

/// A normal component whose bytes are valid UTF-8.
pub open spec fn is_text_part(p: PartView) -> bool {
    p matches PartView::Normal(b) && valid_utf8(b)
}

/// The text of a component (for a text component).
pub open spec fn part_text(p: PartView) -> Seq<char> {
    match p {
        PartView::Normal(b) => decode_utf8(b),
        _ => Seq::empty(),
    }
}

/// The path of `path` below `root`, written with `/`: when `root`'s
/// components begin `path`'s and what follows is one or more normal
/// components, all valid UTF-8.
pub open spec fn relative_url(root: Seq<PartView>, path: Seq<PartView>) -> Option<Seq<char>> {
    let rest = path.skip(root.len() as int);
    if root.len() <= path.len() && path.take(root.len() as int) == root && rest.len() > 0
        && forall|k: int| 0 <= k < rest.len() ==> is_text_part(#[trigger] rest[k]) {
        Some(join(rest.map_values(|p: PartView| part_text(p)), seq!['/']))
    } else {
        None
    }
}

/// `std::str::from_utf8`, the text kept as an owned `String`: the text when
/// the bytes are valid UTF-8, else nothing.
#[verifier::external_body]
fn utf8_text(bytes: &[u8]) -> (r: Option<String>)
    ensures
        (r is Some) == valid_utf8(bytes@),
        r matches Some(s) ==> s@ == decode_utf8(bytes@),
{
    match std::str::from_utf8(bytes) {
        Ok(s) => Some(s.to_string()),
        Err(_) => None,
    }
}

fn same_bytes(a: &Vec<u8>, b: &Vec<u8>) -> (r: bool)
    ensures
        r == (a@ == b@),
{
    if a.len() != b.len() {
        return false;
    }
    let mut i: usize = 0;
    while i < a.len()
        invariant
            a@.len() == b@.len(),
            i <= a@.len(),
            forall|k: int| 0 <= k < i ==> a@[k] == b@[k],
        decreases a.len() - i,
    {
        if a[i] != b[i] {
            return false;
        }
        i += 1;
    }
    assert(a@ =~= b@);
    true
}

fn same_part(a: &PathPart, b: &PathPart) -> (r: bool)
    ensures
        r == (a@ == b@),
{
    match (a, b) {
        (PathPart::Prefix(x), PathPart::Prefix(y)) => same_bytes(x, y),
        (PathPart::RootDir, PathPart::RootDir) => true,
        (PathPart::CurDir, PathPart::CurDir) => true,
        (PathPart::ParentDir, PathPart::ParentDir) => true,
        (PathPart::Normal(x), PathPart::Normal(y)) => same_bytes(x, y),
        _ => false,
    }
}

/// The resource path of the file at `path` below the swap folder `root`
/// (both as their components), written with `/`; nothing when `path` is not
/// below `root`, is `root` itself, or has a component that is not plain
/// UTF-8 text.
pub fn relative_url_path(root: &Vec<PathPart>, path: &Vec<PathPart>) -> (r: Option<String>)
    ensures
        match r {
            Some(s) => relative_url(parts_view(root@), parts_view(path@)) == Some(s@),
            None => relative_url(parts_view(root@), parts_view(path@)) is None,
        },
{
    let ghost rv = parts_view(root@);
    let ghost pv = parts_view(path@);
    if root.len() > path.len() {
        return None;
    }
    let mut i: usize = 0;
    while i < root.len()
        invariant
            root@.len() <= path@.len(),
            i <= root@.len(),
            rv == parts_view(root@),
            pv == parts_view(path@),
            forall|k: int| 0 <= k < i ==> #[trigger] rv[k] == pv[k],
        decreases root.len() - i,
    {
        if !same_part(&root[i], &path[i]) {
            proof {
                assert(pv.take(rv.len() as int)[i as int] != rv[i as int]);
            }
            return None;
        }
        i += 1;
    }
    proof {
        assert(pv.take(rv.len() as int) =~= rv);
    }
    if path.len() == root.len() {
        return None;
    }
    let ghost rest = pv.skip(rv.len() as int);
    let ghost texts = rest.map_values(|p: PartView| part_text(p));
    let mut out = String::new();
    let mut j: usize = root.len();
    while j < path.len()
        invariant
            root@.len() < path@.len(),
            root@.len() <= j <= path@.len(),
            rv == parts_view(root@),
            pv == parts_view(path@),
            rest == pv.skip(rv.len() as int),
            texts == rest.map_values(|p: PartView| part_text(p)),
            forall|k: int| 0 <= k < j - root@.len() ==> is_text_part(#[trigger] rest[k]),
            out@ == join(texts.take(j - root@.len()), seq!['/']),
        decreases path.len() - j,
    {
        let n = j - root.len();
        let text = match &path[j] {
            PathPart::Normal(bytes) => utf8_text(bytes.as_slice()),
            _ => None,
        };
        match text {
            Some(t) => {
                proof {
                    assert(rest[n as int] == pv[j as int]);
                    assert(texts.take(n + 1) =~= texts.take(n as int).push(texts[n as int]));
                    crate::text::lemma_join_push(texts.take(n as int), texts[n as int], seq!['/']);
                    reveal_strlit("/");
                    assert("/"@ =~= seq!['/']);
                }
                if j > root.len() {
                    out.append("/");
                }
                out.append(t.as_str());
            },
            None => {
                proof {
                    assert(rest[n as int] == pv[j as int]);
                    assert(!is_text_part(rest[n as int]));
                }
                return None;
            },
        }
        j += 1;
    }
    proof {
        assert(texts.take(rest.len() as int) =~= texts);
    }
    Some(out)
}

/// The two request filters under which WebView2 serves a swapped resource:
/// on `krunker.io` and on any of its subdomains.
pub fn swap_filter_patterns(relative_path: &str) -> (r: (String, String))
    ensures
        r.0@ == "*://krunker.io/"@ + relative_path@ + "*"@,
        r.1@ == "*://*.krunker.io/"@ + relative_path@ + "*"@,
{
    let mut main = String::from_str("*://krunker.io/");
    main.append(relative_path);
    main.append("*");
    let mut sub = String::from_str("*://*.krunker.io/");
    sub.append(relative_path);
    sub.append("*");
    (main, sub)
}

} // verus!
