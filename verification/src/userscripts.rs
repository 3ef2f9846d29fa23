//! User scripts: deferring those whose metadata does not ask to run at
//! document start, and wrapping every script in a function expression that
//! calls itself, unless it already is one.

use vstd::prelude::*;
use crate::text::{
    find_seq, has_prefix, contains_seq, leading_ws, all_ws, is_ws, ws_end, lemma_leading_ws_is, lemma_ws_end,
    lemma_ws_end_is, lemma_leading_ws_end, chars_of, find, occurs_at_exec, skip_ws, slice,
    contains_str, first_occurrence, lemma_find_seq_is,
};

verus! {

/// The line that opens a user-script metadata block.
pub open spec fn metadata_open() -> Seq<char> {
    "// ==UserScript=="@
}

/// The line that closes a user-script metadata block.
pub open spec fn metadata_close() -> Seq<char> {
    "// ==/UserScript=="@
}

/// The metadata block at the start of a script: after any leading
/// whitespace, the opening line, then everything up to and including the
/// first closing line after it; the block runs from the start of the script.
pub open spec fn metadata_block(s: Seq<char>) -> Option<Seq<char>> {
    let w = leading_ws(s) as int;
    let body = w + metadata_open().len();
    if has_prefix(s.skip(w), metadata_open()) {
        match find_seq(s.skip(body), metadata_close()) {
            Some(k) => Some(s.take(body + k + metadata_close().len())),
            None => None,
        }
    } else {
        None
    }
}

/// `'` or `"`.
pub open spec fn is_quote(c: char) -> bool {
    c == '\'' || c == '"'
}

/// An optional `;` followed by whitespace only.
pub open spec fn semicolon_then_ws(u: Seq<char>) -> bool {
    all_ws(u) || (u.len() > 0 && u[0] == ';' && all_ws(u.drop_first()))
}

/// Whitespace, optionally followed by a quoted `use strict` directive with
/// an optional `;` and more whitespace.
pub open spec fn preamble(u: Seq<char>) -> bool {
    ||| all_ws(u)
    ||| exists|a: int|
        0 <= a && a + 12 <= u.len() && all_ws(u.take(a)) && is_quote(#[trigger] u[a])
            && u.subrange(a + 1, a + 11) == "use strict"@ && is_quote(u[a + 11])
            && semicolon_then_ws(u.skip(a + 12))
}

/// Whitespace, an optional `;`, whitespace.
pub open spec fn ws_semicolon_ws(u: Seq<char>) -> bool {
    exists|a: int| 0 <= a <= u.len() && all_ws(#[trigger] u.take(a)) && semicolon_then_ws(u.skip(a))
}

/// `)`, whitespace, `(`, whitespace, `)`, whitespace, an optional `;`,
/// whitespace.
pub open spec fn call_tail(u: Seq<char>) -> bool {
    exists|k: int, m: int|
        1 <= k < m < u.len() && u[0] == ')' && all_ws(u.subrange(1, k)) && #[trigger] u[k] == '('
            && all_ws(u.subrange(k + 1, m)) && #[trigger] u[m] == ')' && ws_semicolon_ws(u.skip(m + 1))
}

/// The whole script is a parenthesised expression that is called with no
/// arguments: a preamble, `(`, anything, then a call tail.
pub open spec fn iife_shaped(s: Seq<char>) -> bool {
    exists|i: int, j: int|
        0 <= i < j < s.len() && preamble(s.take(i)) && #[trigger] s[i] == '(' && call_tail(#[trigger] s.skip(j))
}

/// The metadata asks for the script to run at document start.
pub open spec fn runs_at_document_start(block: Seq<char>) -> bool {
    find_seq(block, "// @run-at document-start"@) is Some
}

/// `s` run once the document has loaded.
pub open spec fn deferred(s: Seq<char>) -> Seq<char> {
    "document.addEventListener('DOMContentLoaded', function() {\n"@ + s + "\n});"@
}

/// `s` deferred when it has a metadata block that does not ask to run at
/// document start.
pub open spec fn after_metadata(s: Seq<char>) -> Seq<char> {
    match metadata_block(s) {
        Some(block) => if runs_at_document_start(block) { s } else { deferred(s) },
        None => s,
    }
}

/// `s` inside a function expression that calls itself.
pub open spec fn wrapped(s: Seq<char>) -> Seq<char> {
    "(function() {\n"@ + s + "\n})();"@
}

/// The script as the page gets it.
pub open spec fn prepared_script(s: Seq<char>) -> Seq<char> {
    let t = after_metadata(s);
    if iife_shaped(t) { t } else { wrapped(t) }
}

/// Where the opening `(` of a called-function script stands: after the
/// leading whitespace and, when one is there, a quoted `use strict` directive
/// with its optional `;` and the whitespace after it.
pub open spec fn preamble_open(s: Seq<char>) -> Option<int> {
    let w = ws_end(s, 0);
    if w < s.len() && s[w] == '(' {
        Some(w)
    } else if w + 12 <= s.len() && is_quote(s[w]) && s.subrange(w + 1, w + 11) == "use strict"@
        && is_quote(s[w + 11]) {
        let p = w + 12;
        let q = if p < s.len() && s[p] == ';' { p + 1 } else { p };
        let i = ws_end(s, q);
        if i < s.len() && s[i] == '(' { Some(i) } else { None }
    } else {
        None
    }
}

/// From `p` on: whitespace, an optional `;`, whitespace, then the end.
pub open spec fn ends_after(s: Seq<char>, p: int) -> bool {
    let a = ws_end(s, p);
    a == s.len() || (s[a] == ';' && ws_end(s, a + 1) == s.len())
}

/// A call tail starts at `j`, read from the left: `)`, whitespace, `(`,
/// whitespace, `)`, then `ends_after`.
pub open spec fn tail_at(s: Seq<char>, j: int) -> bool {
    let k = ws_end(s, j + 1);
    let m = ws_end(s, k + 1);
    &&& 0 <= j < s.len() && s[j] == ')'
    &&& k < s.len() && s[k] == '('
    &&& m < s.len() && s[m] == ')'
    &&& ends_after(s, m + 1)
}

/// The opening `(` after a preamble is the one `preamble_open` finds: no
/// other index has a preamble before it and `(` on it.
pub proof fn lemma_preamble_open(s: Seq<char>, i: int)
    ensures
        (0 <= i < s.len() && preamble(s.take(i)) && s[i] == '(') <==> preamble_open(s) == Some(i),
{
    reveal_strlit("use strict");
    let w = ws_end(s, 0);
    lemma_ws_end(s, 0);
    let u = s.take(i);
    if 0 <= i < s.len() && preamble(u) && s[i] == '(' {
        if all_ws(u) {
            assert forall|k: int| 0 <= k < i implies is_ws(#[trigger] s[k]) by {
                assert(is_ws(u[k]));
            }
            lemma_ws_end_is(s, 0, i);
        } else {
            let a = choose|a: int|
                0 <= a && a + 12 <= u.len() && all_ws(u.take(a)) && is_quote(#[trigger] u[a])
                    && u.subrange(a + 1, a + 11) == "use strict"@ && is_quote(u[a + 11])
                    && semicolon_then_ws(u.skip(a + 12));
            assert forall|k: int| 0 <= k < a implies is_ws(#[trigger] s[k]) by {
                assert(is_ws(u.take(a)[k]));
            }
            assert(s[a] == u[a]);
            lemma_ws_end_is(s, 0, a);
            assert(s.subrange(a + 1, a + 11) =~= u.subrange(a + 1, a + 11));
            assert(s[a + 11] == u[a + 11]);
            let p = a + 12;
            let v = u.skip(p);
            if all_ws(v) {
                assert forall|k: int| p <= k < i implies is_ws(#[trigger] s[k]) by {
                    assert(is_ws(v[k - p]));
                }
                if p < i {
                    assert(is_ws(s[p]));
                }
                lemma_ws_end_is(s, p, i);
            } else {
                assert(v[0] == ';');
                assert(s[p] == ';');
                assert forall|k: int| p + 1 <= k < i implies is_ws(#[trigger] s[k]) by {
                    assert(is_ws(v.drop_first()[k - p - 1]));
                }
                lemma_ws_end_is(s, p + 1, i);
            }
        }
    }
    if preamble_open(s) == Some(i) {
        if w < s.len() && s[w] == '(' {
            assert(all_ws(u));
        } else {
            let p = w + 12;
            let q = if p < s.len() && s[p] == ';' { p + 1 } else { p };
            lemma_ws_end(s, q);
            assert(u.subrange(w + 1, w + 11) =~= s.subrange(w + 1, w + 11));
            assert(u.take(w) =~= s.take(w));
            assert(all_ws(u.take(w)));
            let v = u.skip(p);
            if q == p + 1 {
                assert(v[0] == ';');
                assert(all_ws(v.drop_first()));
            } else {
                assert(all_ws(v));
            }
            assert(semicolon_then_ws(v));
            assert(is_quote(u[w]));
        }
    }
}

/// `ws_semicolon_ws` of what follows `p` is `ends_after(s, p)`.
pub proof fn lemma_ends_after(s: Seq<char>, p: int)
    requires
        0 <= p <= s.len(),
    ensures
        ws_semicolon_ws(s.skip(p)) <==> ends_after(s, p),
{
    let v = s.skip(p);
    let a = ws_end(s, p);
    lemma_ws_end(s, p);
    if ws_semicolon_ws(v) {
        let b = choose|b: int| 0 <= b <= v.len() && all_ws(#[trigger] v.take(b)) && semicolon_then_ws(v.skip(b));
        assert forall|k: int| p <= k < p + b implies is_ws(#[trigger] s[k]) by {
            assert(is_ws(v.take(b)[k - p]));
        }
        let t = v.skip(b);
        if all_ws(t) {
            assert forall|k: int| p <= k < s.len() implies is_ws(#[trigger] s[k]) by {
                if k >= p + b {
                    assert(is_ws(t[k - p - b]));
                }
            }
            lemma_ws_end_is(s, p, s.len() as int);
        } else {
            assert(s[p + b] == ';');
            lemma_ws_end_is(s, p, p + b);
            assert forall|k: int| p + b + 1 <= k < s.len() implies is_ws(#[trigger] s[k]) by {
                assert(is_ws(t.drop_first()[k - p - b - 1]));
            }
            lemma_ws_end_is(s, p + b + 1, s.len() as int);
        }
    }
    if ends_after(s, p) {
        let b = a - p;
        assert(all_ws(v.take(b)));
        let t = v.skip(b);
        if a < s.len() {
            lemma_ws_end(s, a + 1);
            assert(t[0] == ';');
            assert(all_ws(t.drop_first()));
        } else {
            assert(t.len() == 0);
        }
        assert(semicolon_then_ws(t));
    }
}

/// A call tail starts at `j` exactly when `tail_at(s, j)`.
pub proof fn lemma_tail_at(s: Seq<char>, j: int)
    requires
        0 <= j < s.len(),
    ensures
        call_tail(s.skip(j)) <==> tail_at(s, j),
{
    let u = s.skip(j);
    if call_tail(u) {
        let (k, m) = choose|k: int, m: int|
            1 <= k < m < u.len() && u[0] == ')' && all_ws(u.subrange(1, k)) && #[trigger] u[k] == '('
                && all_ws(u.subrange(k + 1, m)) && #[trigger] u[m] == ')' && ws_semicolon_ws(u.skip(m + 1));
        assert forall|x: int| j + 1 <= x < j + k implies is_ws(#[trigger] s[x]) by {
            assert(is_ws(u.subrange(1, k)[x - j - 1]));
        }
        lemma_ws_end_is(s, j + 1, j + k);
        assert forall|x: int| j + k + 1 <= x < j + m implies is_ws(#[trigger] s[x]) by {
            assert(is_ws(u.subrange(k + 1, m)[x - j - k - 1]));
        }
        lemma_ws_end_is(s, j + k + 1, j + m);
        assert(u.skip(m + 1) =~= s.skip(j + m + 1));
        lemma_ends_after(s, j + m + 1);
    }
    if tail_at(s, j) {
        let kk = ws_end(s, j + 1);
        lemma_ws_end(s, j + 1);
        let mm = ws_end(s, kk + 1);
        lemma_ws_end(s, kk + 1);
        let k = kk - j;
        let m = mm - j;
        assert(all_ws(u.subrange(1, k)));
        assert(all_ws(u.subrange(k + 1, m)));
        assert(u.skip(m + 1) =~= s.skip(mm + 1));
        lemma_ends_after(s, mm + 1);
        assert(u[k] == '(' && u[m] == ')');
    }
}

/// Where the metadata block ends, counted in characters from the start of
/// the script.
fn find_metadata_block(content: &str) -> (r: Option<usize>)
    ensures
        match r {
            Some(n) => n <= content@.len() && metadata_block(content@) == Some(content@.take(n as int)),
            None => metadata_block(content@) is None,
        },
{
    proof {
        reveal_strlit("// ==UserScript==");
        reveal_strlit("// ==/UserScript==");
    }
    let ghost s = content@;
    let cs = chars_of(content);
    let w = skip_ws(&cs, 0);
    proof {
        lemma_leading_ws_end(s);
    }
    let open = chars_of("// ==UserScript==");
    let close = chars_of("// ==/UserScript==");
    if !occurs_at_exec(&cs, &open, w) {
        proof {
            if has_prefix(s.skip(w as int), metadata_open()) {
                assert(s.subrange(w as int, w + open@.len()) =~= s.skip(w as int).take(open@.len() as int));
            }
        }
        return None;
    }
    assert(s.skip(w as int).take(open@.len() as int) =~= s.subrange(w as int, w + open@.len()));
    let n = cs.len();
    assert(w + open@.len() <= n);
    let body = w + open.len();
    let rest = slice(content, body, n);
    assert(rest@ =~= s.skip(body as int));
    let rc = chars_of(rest);
    match find(&rc, &close) {
        Some(k) => {
            assert(k + close@.len() <= rc@.len());
            Some(body + k + close.len())
        },
        None => None,
    }
}

/// Where the opening `(` after the preamble stands, if the script has one.
fn opening_paren(cs: &Vec<char>) -> (r: Option<usize>)
    ensures
        match r {
            Some(i) => preamble_open(cs@) == Some(i as int),
            None => preamble_open(cs@) is None,
        },
{
    proof {
        reveal_strlit("use strict");
    }
    let n = cs.len();
    let w = skip_ws(cs, 0);
    if w < n && cs[w] == '(' {
        return Some(w);
    }
    let us = chars_of("use strict");
    if !(n >= 12 && w <= n - 12 && (cs[w] == '\'' || cs[w] == '"') && occurs_at_exec(cs, &us, w + 1)
        && (cs[w + 11] == '\'' || cs[w + 11] == '"')) {
        return None;
    }
    let p = w + 12;
    let q = if p < n && cs[p] == ';' { p + 1 } else { p };
    let i = skip_ws(cs, q);
    if i < n && cs[i] == '(' {
        Some(i)
    } else {
        None
    }
}

/// Whether the script is a parenthesised expression called with no
/// arguments. The opening `(` is read from the left; then each later `)` is
/// tried as the start of the call tail.
fn is_iife(content: &str) -> (r: bool)
    ensures
        r == iife_shaped(content@),
{
    let ghost s = content@;
    let cs = chars_of(content);
    let n = cs.len();
    let open = match opening_paren(&cs) {
        Some(i) => i,
        None => {
            proof {
                if iife_shaped(s) {
                    let (i, j) = choose|i: int, j: int|
                        0 <= i < j < s.len() && preamble(s.take(i)) && #[trigger] s[i] == '('
                            && call_tail(#[trigger] s.skip(j));
                    lemma_preamble_open(s, i);
                }
            }
            return false;
        },
    };
    let mut j = open + 1;
    while j < n
        invariant
            s == content@,
            cs@ == s,
            n == s.len(),
            open < j,
            preamble_open(s) == Some(open as int),
            forall|x: int| open < x < j ==> !#[trigger] tail_at(s, x),
        decreases n - j,
    {
        if tail_at_exec(&cs, j) {
            proof {
                lemma_preamble_open(s, open as int);
                lemma_tail_at(s, j as int);
                assert(0 <= open < j < s.len() && preamble(s.take(open as int)) && s[open as int] == '('
                    && call_tail(s.skip(j as int)));
            }
            return true;
        }
        j += 1;
    }
    proof {
        if iife_shaped(s) {
            let (i, jj) = choose|i: int, j: int|
                0 <= i < j < s.len() && preamble(s.take(i)) && #[trigger] s[i] == '('
                    && call_tail(#[trigger] s.skip(j));
            lemma_preamble_open(s, i);
            lemma_tail_at(s, jj);
            assert(!tail_at(s, jj));
        }
    }
    false
}

/// Whether a call tail starts at `j`.
fn tail_at_exec(cs: &Vec<char>, j: usize) -> (r: bool)
    requires
        j < cs@.len(),
    ensures
        r == tail_at(cs@, j as int),
{
    let n = cs.len();
    if cs[j] != ')' {
        return false;
    }
    let k = skip_ws(cs, j + 1);
    if !(k < n && cs[k] == '(') {
        return false;
    }
    let m = skip_ws(cs, k + 1);
    if !(m < n && cs[m] == ')') {
        return false;
    }
    let a = skip_ws(cs, m + 1);
    if a == n {
        return true;
    }
    cs[a] == ';' && skip_ws(cs, a + 1) == n
}

/// Defers the script when its metadata block does not ask to run at
/// document start.
fn parse_metadata(content: &mut String)
    ensures
        final(content)@ == after_metadata(old(content)@),
{
    if let Some(n) = find_metadata_block(content.as_str()) {
        let block = slice(content.as_str(), 0, n);
        assert(block@ =~= old(content)@.take(n as int));
        if !contains_str(block, "// @run-at document-start") {
            let mut deferred = String::from_str("document.addEventListener('DOMContentLoaded', function() {\n");
            deferred.append(content.as_str());
            deferred.append("\n});");
            *content = deferred;
        }
    }
}

/// The script as the page gets it: deferred as its metadata says, then
/// wrapped in a function expression that calls itself unless it is one.
pub fn parse(content: String) -> (r: String)
    ensures
        r@ == prepared_script(content@),
{
    let mut content = content;
    parse_metadata(&mut content);
    if is_iife(content.as_str()) {
        return content;
    }
    let mut out = String::from_str("(function() {\n");
    out.append(content.as_str());
    out.append("\n})();");
    out
}

/// `js` in any letter case (`str::eq_ignore_ascii_case("js")`).
pub open spec fn is_js_extension_of(ext: Seq<char>) -> bool {
    ext.len() == 2 && (ext[0] == 'j' || ext[0] == 'J') && (ext[1] == 's' || ext[1] == 'S')
}

/// Whether a file extension marks a user script.
pub fn is_js_extension(ext: &str) -> (r: bool)
    ensures
        r == is_js_extension_of(ext@),
{
    let cs = chars_of(ext);
    cs.len() == 2 && (cs[0] == 'j' || cs[0] == 'J') && (cs[1] == 's' || cs[1] == 'S')
}

/// Every wrapped script is a function expression that calls itself.
pub proof fn lemma_wrapped_is_iife(s: Seq<char>)
    ensures
        iife_shaped(wrapped(s)),
{
    reveal_strlit("(function() {\n");
    reveal_strlit("\n})();");
    let w = wrapped(s);
    let n = w.len() as int;
    let j = n - 4;
    let u = w.skip(j);
    assert(w[0] == '(');
    assert(w.take(0) =~= Seq::<char>::empty());
    assert(all_ws(w.take(0)));
    assert(preamble(w.take(0)));
    assert(u[0] == ')');
    assert(u[1] == '(');
    assert(u[2] == ')');
    assert(u[3] == ';');
    assert(u.subrange(1, 1) =~= Seq::<char>::empty());
    assert(u.subrange(2, 2) =~= Seq::<char>::empty());
    assert(u.skip(3).drop_first() =~= Seq::<char>::empty());
    assert(semicolon_then_ws(u.skip(3)));
    assert(u.skip(3).take(0) =~= Seq::<char>::empty());
    assert(u.skip(3).skip(0) =~= u.skip(3));
    assert(all_ws(u.skip(3).take(0)));
    assert(ws_semicolon_ws(u.skip(3)));
    assert(call_tail(u));
    assert(0 <= 0 < j < n && preamble(w.take(0)) && w[0] == '(' && call_tail(w.skip(j)));
}

/// A script of the called-function shape has no metadata block in front.
pub proof fn lemma_iife_has_no_metadata(s: Seq<char>)
    requires
        iife_shaped(s),
    ensures
        metadata_block(s) is None,
{
    reveal_strlit("// ==UserScript==");
    let (i, j) = choose|i: int, j: int|
        0 <= i < j < s.len() && preamble(s.take(i)) && #[trigger] s[i] == '(' && call_tail(#[trigger] s.skip(j));
    let u = s.take(i);
    // the first character after the leading whitespace is `(` or a quote
    let w: int = if all_ws(u) {
        assert forall|k: int| 0 <= k < i implies is_ws(#[trigger] s[k]) by {
            assert(is_ws(u[k]));
        }
        lemma_leading_ws_is(s, i);
        i
    } else {
        let a = choose|a: int|
            0 <= a && a + 12 <= u.len() && all_ws(u.take(a)) && is_quote(#[trigger] u[a])
                && u.subrange(a + 1, a + 11) == "use strict"@ && is_quote(u[a + 11])
                && semicolon_then_ws(u.skip(a + 12));
        assert forall|k: int| 0 <= k < a implies is_ws(#[trigger] s[k]) by {
            assert(is_ws(u.take(a)[k]));
        }
        assert(s[a] == u[a]);
        lemma_leading_ws_is(s, a);
        a
    };
    assert(leading_ws(s) == w);
    assert(s.skip(w)[0] != '/');
    assert(metadata_open()[0] == '/');
    if has_prefix(s.skip(w), metadata_open()) {
        assert(s.skip(w).take(metadata_open().len() as int)[0] == s.skip(w)[0]);
    }
}

/// What the page gets is always a function expression that calls itself.
pub proof fn lemma_prepared_is_iife(s: Seq<char>)
    ensures
        iife_shaped(prepared_script(s)),
{
    lemma_wrapped_is_iife(after_metadata(s));
}

/// Preparing a prepared script changes nothing.
pub proof fn lemma_prepare_idempotent(s: Seq<char>)
    ensures
        prepared_script(prepared_script(s)) == prepared_script(s),
{
    let p = prepared_script(s);
    lemma_prepared_is_iife(s);
    lemma_iife_has_no_metadata(p);
    assert(after_metadata(p) == p);
}

/// A deferred script starts with `document`, so it is never of the
/// called-function shape.
proof fn lemma_deferred_is_not_iife(s: Seq<char>)
    ensures
        !iife_shaped(deferred(s)),
{
    reveal_strlit("document.addEventListener('DOMContentLoaded', function() {\n");
    let t = deferred(s);
    assert(t[0] == 'd');
    assert(ws_end(t, 0) == 0);
    assert(preamble_open(t) is None);
    if iife_shaped(t) {
        let (i, j) = choose|i: int, j: int|
            0 <= i < j < t.len() && preamble(t.take(i)) && #[trigger] t[i] == '(' && call_tail(#[trigger] t.skip(j));
        lemma_preamble_open(t, i);
    }
}

/// A script whose metadata block does not contain the exact text
/// `// @run-at document-start` (whatever other `@run-at` it has) reaches the
/// page deferred until the document has loaded, and wrapped around that.
pub proof fn lemma_deferred_without_document_start(s: Seq<char>, block: Seq<char>)
    requires
        metadata_block(s) == Some(block),
        !contains_seq(block, "// @run-at document-start"@),
    ensures
        prepared_script(s) == "(function() {\n"@ + ("document.addEventListener('DOMContentLoaded', function() {\n"@
            + s + "\n});"@) + "\n})();"@,
{
    lemma_deferred_is_not_iife(s);
}

/// A script without a metadata block, or whose block contains
/// `// @run-at document-start`, is not deferred: it reaches the page as it
/// is, or wrapped in a function expression that calls itself.
pub proof fn lemma_not_deferred_at_document_start(s: Seq<char>)
    requires
        metadata_block(s) matches Some(block) ==> contains_seq(block, "// @run-at document-start"@),
    ensures
        prepared_script(s) == s || prepared_script(s) == "(function() {\n"@ + s + "\n})();"@,
{
}

/// A script that starts, after any whitespace, with `// ==UserScript==` has
/// as its metadata block everything from its start up to and including the
/// first `// ==/UserScript==` after that line.
pub proof fn lemma_metadata_block_is(ws: Seq<char>, rest: Seq<char>, k: int)
    requires
        all_ws(ws),
        first_occurrence(rest, "// ==/UserScript=="@, k),
    ensures
        metadata_block(ws + "// ==UserScript=="@ + rest) == Some(ws + "// ==UserScript=="@ + rest.take(k + 18)),
{
    reveal_strlit("// ==UserScript==");
    reveal_strlit("// ==/UserScript==");
    let open = "// ==UserScript=="@;
    let s = ws + open + rest;
    let w = ws.len() as int;
    assert forall|j: int| 0 <= j < w implies is_ws(#[trigger] s[j]) by {
        assert(s[j] == ws[j]);
    }
    assert(s[w] == '/');
    lemma_leading_ws_is(s, w);
    assert(s.skip(w).take(17) =~= open);
    assert(s.skip(w + 17) =~= rest);
    lemma_find_seq_is(rest, "// ==/UserScript=="@, k);
    assert(s.take(w + 17 + k + 18) =~= ws + open + rest.take(k + 18));
}

/// A script whose opening line is never followed by `// ==/UserScript==`
/// has no metadata block.
pub proof fn lemma_unclosed_metadata(ws: Seq<char>, rest: Seq<char>)
    requires
        all_ws(ws),
        !contains_seq(rest, "// ==/UserScript=="@),
    ensures
        metadata_block(ws + "// ==UserScript=="@ + rest) is None,
{
    reveal_strlit("// ==UserScript==");
    let open = "// ==UserScript=="@;
    let s = ws + open + rest;
    let w = ws.len() as int;
    assert forall|j: int| 0 <= j < w implies is_ws(#[trigger] s[j]) by {
        assert(s[j] == ws[j]);
    }
    assert(s[w] == '/');
    lemma_leading_ws_is(s, w);
    assert(s.skip(w + 17) =~= rest);
}

/// A script whose first character after any whitespace is not `/` has no
/// metadata block, whatever follows.
pub proof fn lemma_metadata_opens_the_script(ws: Seq<char>, c: char, rest: Seq<char>)
    requires
        all_ws(ws),
        !is_ws(c),
        c != '/',
    ensures
        metadata_block(ws + seq![c] + rest) is None,
{
    reveal_strlit("// ==UserScript==");
    let s = ws + seq![c] + rest;
    let w = ws.len() as int;
    assert forall|j: int| 0 <= j < w implies is_ws(#[trigger] s[j]) by {
        assert(s[j] == ws[j]);
    }
    assert(s[w] == c);
    lemma_leading_ws_is(s, w);
    if has_prefix(s.skip(w), metadata_open()) {
        assert(s.skip(w).take(17)[0] == s[w]);
    }
}

/// `(`, anything, `)()` after any whitespace is a function expression that
/// calls itself, and so is the same behind a `'use strict';` directive.
pub proof fn lemma_called_function_shapes(ws: Seq<char>, x: Seq<char>)
    requires
        all_ws(ws),
    ensures
        iife_shaped(ws + "("@ + x + ")()"@),
        iife_shaped(ws + "'use strict';"@ + "("@ + x + ")()"@),
{
    reveal_strlit("(");
    reveal_strlit(")()");
    reveal_strlit("'use strict';");
    reveal_strlit("use strict");
    let w = ws.len() as int;
    let s1 = ws + "("@ + x + ")()"@;
    let s2 = ws + "'use strict';"@ + "("@ + x + ")()"@;
    // the call tail `)()` at the end of both
    assert forall|s: Seq<char>| s.len() >= 3 && s[s.len() - 3] == ')' && s[s.len() - 2] == '('
        && s[s.len() - 1] == ')' implies #[trigger] call_tail(s.skip(s.len() - 3)) by {
        let u = s.skip(s.len() - 3);
        assert(u[0] == ')' && u[1] == '(' && u[2] == ')');
        assert(u.subrange(1, 1) =~= Seq::<char>::empty());
        assert(u.subrange(2, 2) =~= Seq::<char>::empty());
        assert(u.skip(3) =~= Seq::<char>::empty());
        assert(u.skip(3).take(0) =~= Seq::<char>::empty());
        assert(u.skip(3).skip(0) =~= Seq::<char>::empty());
        assert(all_ws(u.skip(3).take(0)));
        assert(semicolon_then_ws(u.skip(3).skip(0)));
        assert(ws_semicolon_ws(u.skip(3)));
        assert(1 <= 1 < 2 < u.len() && u[0] == ')' && all_ws(u.subrange(1, 1)) && u[1] == '('
            && all_ws(u.subrange(2, 2)) && u[2] == ')' && ws_semicolon_ws(u.skip(3)));
    }
    // without a directive
    assert(s1.take(w) =~= ws);
    assert(s1[w] == '(');
    assert(s1[s1.len() - 3] == ')' && s1[s1.len() - 2] == '(' && s1[s1.len() - 1] == ')');
    assert(call_tail(s1.skip(s1.len() - 3)));
    assert(preamble(s1.take(w)));
    assert(0 <= w < s1.len() - 3 < s1.len() && preamble(s1.take(w)) && s1[w] == '('
        && call_tail(s1.skip(s1.len() - 3)));
    // behind the directive
    let i = w + 13;
    let u = s2.take(i);
    assert(u.take(w) =~= ws);
    assert(u[w] == '\'');
    assert(u.subrange(w + 1, w + 11) =~= "use strict"@);
    assert(u[w + 11] == '\'');
    assert(u.skip(w + 12) =~= seq![';']);
    assert(u.skip(w + 12).drop_first() =~= Seq::<char>::empty());
    assert(semicolon_then_ws(u.skip(w + 12)));
    assert(preamble(u));
    assert(s2[i] == '(');
    assert(s2[s2.len() - 3] == ')' && s2[s2.len() - 2] == '(' && s2[s2.len() - 1] == ')');
    assert(call_tail(s2.skip(s2.len() - 3)));
    assert(0 <= i < s2.len() - 3 < s2.len() && preamble(s2.take(i)) && s2[i] == '('
        && call_tail(s2.skip(s2.len() - 3)));
}

/// A script whose first character after any whitespace is neither `(` nor
/// a quote is not a function expression that calls itself.
pub proof fn lemma_iife_opens_with_paren_or_quote(ws: Seq<char>, c: char, rest: Seq<char>)
    requires
        all_ws(ws),
        !is_ws(c),
        c != '(',
        !is_quote(c),
    ensures
        !iife_shaped(ws + seq![c] + rest),
{
    let t = ws + seq![c] + rest;
    let w = ws.len() as int;
    assert forall|j: int| 0 <= j < w implies is_ws(#[trigger] t[j]) by {
        assert(t[j] == ws[j]);
    }
    assert(t[w] == c);
    lemma_ws_end_is(t, 0, w);
    assert(preamble_open(t) is None);
    if iife_shaped(t) {
        let (i, j) = choose|i: int, j: int|
            0 <= i < j < t.len() && preamble(t.take(i)) && #[trigger] t[i] == '(' && call_tail(#[trigger] t.skip(j));
        lemma_preamble_open(t, i);
    }
}

/// A script whose last character before any trailing whitespace is neither
/// `)` nor `;` is not a function expression that calls itself.
pub proof fn lemma_iife_ends_with_call(x: Seq<char>, c: char, ws: Seq<char>)
    requires
        all_ws(ws),
        !is_ws(c),
        c != ')',
        c != ';',
    ensures
        !iife_shaped(x + seq![c] + ws),
{
    let t = x + seq![c] + ws;
    let p = x.len() as int;
    assert(t[p] == c);
    assert forall|q: int| p < q < t.len() implies is_ws(#[trigger] t[q]) by {
        assert(t[q] == ws[q - p - 1]);
    }
    if iife_shaped(t) {
        let (i, j) = choose|i: int, j: int|
            0 <= i < j < t.len() && preamble(t.take(i)) && #[trigger] t[i] == '(' && call_tail(#[trigger] t.skip(j));
        lemma_tail_at(t, j);
        let k = ws_end(t, j + 1);
        lemma_ws_end(t, j + 1);
        let m = ws_end(t, k + 1);
        lemma_ws_end(t, k + 1);
        let a = ws_end(t, m + 1);
        lemma_ws_end(t, m + 1);
        if m < p {
            // everything after `m` is whitespace or a single `;`
            if p < a {
                assert(is_ws(t[p]));
            } else if p == a {
                assert(t[a] == ';');
            } else {
                lemma_ws_end(t, a + 1);
                assert(is_ws(t[p]));
            }
        } else if m > p {
            assert(is_ws(t[m]));
        }
    }
}

} // verus!
