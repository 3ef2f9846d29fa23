//! Character-level helpers over `str`/`String` views: searching, prefixes,
//! whitespace, splitting and joining.

use vstd::prelude::*;

verus! {

broadcast use vstd::string::group_string_axioms;

/// The character views of a list of strings.
pub open spec fn views(v: Seq<String>) -> Seq<Seq<char>> {
    v.map_values(|s: String| s@)
}

/// The character views of a list of string slices.
pub open spec fn str_views(v: Seq<&str>) -> Seq<Seq<char>> {
    v.map_values(|s: &str| s@)
}

/// `pat` occurs in `s` at index `i`.
pub open spec fn occurs_at(s: Seq<char>, pat: Seq<char>, i: int) -> bool {
    0 <= i && i + pat.len() <= s.len() && s.subrange(i, i + pat.len()) == pat
}

/// `i` is the first index at which `pat` occurs in `s`.
pub open spec fn first_occurrence(s: Seq<char>, pat: Seq<char>, i: int) -> bool {
    occurs_at(s, pat, i) && forall|j: int| 0 <= j < i ==> !#[trigger] occurs_at(s, pat, j)
}

/// The index of the first occurrence of `pat` in `s`, if any.
pub open spec fn find_seq(s: Seq<char>, pat: Seq<char>) -> Option<int> {
    if exists|i: int| first_occurrence(s, pat, i) {
        Some(choose|i: int| first_occurrence(s, pat, i))
    } else {
        None
    }
}

/// `p` is a prefix of `s`.
pub open spec fn has_prefix(s: Seq<char>, p: Seq<char>) -> bool {
    p.len() <= s.len() && s.take(p.len() as int) == p
}

/// `s` is not empty and ends with `c`.
pub open spec fn ends_with_char(s: Seq<char>, c: char) -> bool {
    s.len() > 0 && s.last() == c
}

/// The Unicode `White_Space` characters, the ones `char::is_whitespace`
/// accepts.
pub open spec fn is_ws(c: char) -> bool {
    ||| '\u{9}' <= c <= '\u{d}'
    ||| c == ' '
    ||| c == '\u{85}'
    ||| c == '\u{a0}'
    ||| c == '\u{1680}'
    ||| '\u{2000}' <= c <= '\u{200a}'
    ||| c == '\u{2028}'
    ||| c == '\u{2029}'
    ||| c == '\u{202f}'
    ||| c == '\u{205f}'
    ||| c == '\u{3000}'
}

/// Every character of `s` is whitespace.
pub open spec fn all_ws(s: Seq<char>) -> bool {
    forall|k: int| 0 <= k < s.len() ==> is_ws(#[trigger] s[k])
}

/// The number of whitespace characters that `s` starts with.
pub open spec fn leading_ws(s: Seq<char>) -> nat
    decreases s.len(),
{
    if s.len() > 0 && is_ws(s[0]) {
        1 + leading_ws(s.drop_first())
    } else {
        0
    }
}

/// The index of the first non-whitespace character of `s` at or after
/// `from` (`s.len()` when the rest is whitespace).
pub open spec fn ws_end(s: Seq<char>, from: int) -> int
    decreases s.len() - from,
{
    if 0 <= from < s.len() && is_ws(s[from]) {
        ws_end(s, from + 1)
    } else {
        from
    }
}

/// The number of whitespace characters that `s` ends with.
pub open spec fn trailing_ws(s: Seq<char>) -> nat
    decreases s.len(),
{
    if s.len() > 0 && is_ws(s.last()) {
        1 + trailing_ws(s.drop_last())
    } else {
        0
    }
}

/// `s` without its leading and trailing whitespace (`str::trim`).
pub open spec fn trim(s: Seq<char>) -> Seq<char> {
    let lead = leading_ws(s);
    if lead == s.len() {
        Seq::empty()
    } else {
        s.subrange(lead as int, s.len() - trailing_ws(s))
    }
}

/// The pieces of `s` between the occurrences of `c` (`str::split` on a
/// character): always at least one piece, empty pieces included.
pub open spec fn split_on(s: Seq<char>, c: char) -> Seq<Seq<char>>
    decreases s.len(),
{
    match find_seq(s, seq![c]) {
        Some(i) => if 0 <= i < s.len() {
            seq![s.take(i)] + split_on(s.skip(i + 1), c)
        } else {
            seq![s]
        },
        None => seq![s],
    }
}

/// The pieces joined, with `sep` between neighbours.
pub open spec fn join(xs: Seq<Seq<char>>, sep: Seq<char>) -> Seq<char>
    decreases xs.len(),
{
    if xs.len() == 0 {
        Seq::empty()
    } else if xs.len() == 1 {
        xs[0]
    } else {
        xs[0] + sep + join(xs.drop_first(), sep)
    }
}

/// `c` does not occur in `s`.
pub open spec fn lacks(s: Seq<char>, c: char) -> bool {
    forall|k: int| 0 <= k < s.len() ==> #[trigger] s[k] != c
}

/// `s` up to its first `c` (all of `s` when it has none): the first piece
/// of `str::split` on `c`.
pub open spec fn before_char(s: Seq<char>, c: char) -> Seq<char> {
    match find_seq(s, seq![c]) {
        Some(i) => s.take(i),
        None => s,
    }
}

/// The second piece of `s` split on `pat` (`str::split(pat).nth(1)`): the
/// text between the first occurrence of `pat` and the next one (or the end);
/// nothing when `pat` does not occur.
pub open spec fn second_piece(s: Seq<char>, pat: Seq<char>) -> Option<Seq<char>> {
    match find_seq(s, pat) {
        Some(i) => {
            let rest = s.skip(i + pat.len());
            Some(match find_seq(rest, pat) {
                Some(j) => rest.take(j),
                None => rest,
            })
        },
        None => None,
    }
}

/// `pat` occurs in `s` (`str::contains`).
pub open spec fn contains_seq(s: Seq<char>, pat: Seq<char>) -> bool {
    find_seq(s, pat) is Some
}

/// The pieces of `s` between the non-overlapping occurrences of `pat`, found
/// from the left (`str::split` on a string); `pat` is not empty.
pub open spec fn split_seq(s: Seq<char>, pat: Seq<char>) -> Seq<Seq<char>>
    decreases s.len(),
{
    if pat.len() == 0 {
        seq![s]
    } else {
        match find_seq(s, pat) {
            Some(i) => if 0 <= i && i + pat.len() <= s.len() {
                seq![s.take(i)] + split_seq(s.skip(i + pat.len()), pat)
            } else {
                seq![s]
            },
            None => seq![s],
        }
    }
}

// ---------------------------------------------------------------- lemmas

/// The first occurrence, when it is known, is what `find_seq` gives.
pub proof fn lemma_find_seq_is(s: Seq<char>, pat: Seq<char>, i: int)
    requires
        first_occurrence(s, pat, i),
    ensures
        find_seq(s, pat) == Some(i),
{
    let j = choose|j: int| first_occurrence(s, pat, j);
    assert(first_occurrence(s, pat, j));
    if j < i {
        assert(!occurs_at(s, pat, j));
    } else if i < j {
        assert(!occurs_at(s, pat, i));
    }
}

/// With no occurrence at all, `find_seq` gives nothing.
pub proof fn lemma_find_seq_none(s: Seq<char>, pat: Seq<char>)
    requires
        forall|i: int| !#[trigger] occurs_at(s, pat, i),
    ensures
        find_seq(s, pat) is None,
{
}

/// A single character occurs at `i` exactly when `s[i]` is that character.
pub proof fn lemma_occurs_char(s: Seq<char>, c: char, i: int)
    ensures
        occurs_at(s, seq![c], i) == (0 <= i < s.len() && s[i] == c),
{
    if 0 <= i < s.len() && s[i] == c {
        assert(s.subrange(i, i + 1) =~= seq![c]);
    }
    if occurs_at(s, seq![c], i) {
        assert(s.subrange(i, i + 1)[0] == s[i]);
    }
}

/// The first `c` in `a + [c] + b`, where `a` lacks `c`, ends `a`.
pub proof fn lemma_find_char_after(a: Seq<char>, c: char, b: Seq<char>)
    requires
        lacks(a, c),
    ensures
        find_seq(a + seq![c] + b, seq![c]) == Some(a.len() as int),
{
    let s = a + seq![c] + b;
    lemma_occurs_char(s, c, a.len() as int);
    assert forall|j: int| 0 <= j < a.len() implies !#[trigger] occurs_at(s, seq![c], j) by {
        lemma_occurs_char(s, c, j);
        assert(s[j] == a[j]);
    }
    lemma_find_seq_is(s, seq![c], a.len() as int);
}

/// With no `c` in `s`, `find_seq` finds no `c`.
pub proof fn lemma_find_char_none(s: Seq<char>, c: char)
    requires
        lacks(s, c),
    ensures
        find_seq(s, seq![c]) is None,
{
    assert forall|i: int| !#[trigger] occurs_at(s, seq![c], i) by {
        lemma_occurs_char(s, c, i);
    }
}

/// Splitting on `c` undoes joining with `c`, for a non-empty list of pieces
/// that hold no `c`.
pub proof fn lemma_split_join(xs: Seq<Seq<char>>, c: char)
    requires
        xs.len() > 0,
        forall|k: int| 0 <= k < xs.len() ==> lacks(#[trigger] xs[k], c),
    ensures
        split_on(join(xs, seq![c]), c) == xs,
    decreases xs.len(),
{
    if xs.len() == 1 {
        lemma_find_char_none(xs[0], c);
        assert(split_on(xs[0], c) =~= xs);
    } else {
        let rest = join(xs.drop_first(), seq![c]);
        assert(lacks(xs[0], c));
        lemma_find_char_after(xs[0], c, rest);
        let s = xs[0] + seq![c] + rest;
        assert(join(xs, seq![c]) == s);
        assert(s.take(xs[0].len() as int) =~= xs[0]);
        assert(s.skip(xs[0].len() as int + 1) =~= rest);
        assert forall|k: int| 0 <= k < xs.drop_first().len() implies lacks(#[trigger] xs.drop_first()[k], c) by {
            assert(lacks(xs[k + 1], c));
        }
        lemma_split_join(xs.drop_first(), c);
        assert(xs =~= seq![xs[0]] + xs.drop_first());
    }
}

/// Joining with `c` undoes splitting on `c`.
pub proof fn lemma_join_split(s: Seq<char>, c: char)
    ensures
        join(split_on(s, c), seq![c]) == s,
        split_on(s, c).len() > 0,
    decreases s.len(),
{
    match find_seq(s, seq![c]) {
        Some(i) => {
            if 0 <= i < s.len() {
                lemma_join_split(s.skip(i + 1), c);
                let rest = split_on(s.skip(i + 1), c);
                let xs = seq![s.take(i)] + rest;
                assert(xs.drop_first() =~= rest);
                assert(xs[0] == s.take(i));
                let fo = choose|j: int| first_occurrence(s, seq![c], j);
                assert(first_occurrence(s, seq![c], fo));
                lemma_occurs_char(s, c, i);
                assert(s =~= s.take(i) + seq![c] + s.skip(i + 1));
            }
        },
        None => {},
    }
}

/// Every piece of a split on `c` lacks `c`.
pub proof fn lemma_split_pieces_lack(s: Seq<char>, c: char)
    ensures
        forall|k: int| 0 <= k < split_on(s, c).len() ==> lacks(#[trigger] split_on(s, c)[k], c),
    decreases s.len(),
{
    match find_seq(s, seq![c]) {
        Some(i) => {
            if 0 <= i < s.len() {
                lemma_split_pieces_lack(s.skip(i + 1), c);
                let fo = choose|j: int| first_occurrence(s, seq![c], j);
                assert(first_occurrence(s, seq![c], fo));
                assert forall|k: int| 0 <= k < i implies #[trigger] s.take(i)[k] != c by {
                    assert(!occurs_at(s, seq![c], k));
                    lemma_occurs_char(s, c, k);
                }
                let xs = seq![s.take(i)] + split_on(s.skip(i + 1), c);
                assert forall|k: int| 0 <= k < xs.len() implies lacks(#[trigger] xs[k], c) by {
                    if k > 0 {
                        assert(xs[k] == split_on(s.skip(i + 1), c)[k - 1]);
                    }
                }
            }
        },
        None => {
            assert forall|k: int| 0 <= k < s.len() implies #[trigger] s[k] != c by {
                lemma_occurs_char(s, c, k);
                if s[k] == c {
                    // the first occurrence exists below k
                    lemma_first_char_exists(s, c, k);
                }
            }
        },
    }
}

/// If `c` occurs at or before `k`, a first occurrence exists.
pub proof fn lemma_first_char_exists(s: Seq<char>, c: char, k: int)
    requires
        0 <= k < s.len(),
        s[k] == c,
    ensures
        exists|i: int| first_occurrence(s, seq![c], i),
    decreases k,
{
    if forall|j: int| 0 <= j < k ==> !#[trigger] occurs_at(s, seq![c], j) {
        lemma_occurs_char(s, c, k);
        assert(first_occurrence(s, seq![c], k));
    } else {
        let j = choose|j: int| 0 <= j < k && #[trigger] occurs_at(s, seq![c], j);
        lemma_occurs_char(s, c, j);
        lemma_first_char_exists(s, c, j);
    }
}

/// Joining one more piece at the end.
pub proof fn lemma_join_push(xs: Seq<Seq<char>>, y: Seq<char>, sep: Seq<char>)
    ensures
        join(xs.push(y), sep) == if xs.len() == 0 { y } else { join(xs, sep) + sep + y },
    decreases xs.len(),
{
    if xs.len() == 0 {
        assert(xs.push(y)[0] == y);
    } else if xs.len() == 1 {
        assert(xs.push(y).drop_first() =~= seq![y]);
        assert(xs.push(y)[0] == xs[0]);
        assert(join(seq![y], sep) == y);
        assert(join(xs, sep) == xs[0]);
    } else {
        assert(xs.push(y)[0] == xs[0]);
        lemma_join_push(xs.drop_first(), y, sep);
        assert(xs.push(y).drop_first() =~= xs.drop_first().push(y));
        assert(join(xs.push(y), sep) == xs[0] + sep + join(xs.drop_first().push(y), sep));
        assert(xs[0] + sep + (join(xs.drop_first(), sep) + sep + y) =~= (xs[0] + sep + join(xs.drop_first(), sep)) + sep + y);
    }
}

/// The first `j` characters, with no whitespace among them, followed by a
/// non-whitespace character (or the end): `leading_ws` is `j`.
pub proof fn lemma_leading_ws_is(s: Seq<char>, j: int)
    requires
        0 <= j <= s.len(),
        forall|k: int| 0 <= k < j ==> is_ws(#[trigger] s[k]),
        j == s.len() || !is_ws(s[j]),
    ensures
        leading_ws(s) == j,
    decreases j,
{
    if j > 0 {
        assert(is_ws(s[0]));
        assert forall|k: int| 0 <= k < j - 1 implies is_ws(#[trigger] s.drop_first()[k]) by {
            assert(is_ws(s[k + 1]));
        }
        lemma_leading_ws_is(s.drop_first(), j - 1);
    }
}

/// The last `j` characters are whitespace and the one before them (if any) is
/// not: `trailing_ws` is `j`.
pub proof fn lemma_trailing_ws_is(s: Seq<char>, j: int)
    requires
        0 <= j <= s.len(),
        forall|k: int| s.len() - j <= k < s.len() ==> is_ws(#[trigger] s[k]),
        j == s.len() || !is_ws(s[s.len() - j - 1]),
    ensures
        trailing_ws(s) == j,
    decreases j,
{
    if j > 0 {
        assert(is_ws(s[s.len() - 1]));
        assert forall|k: int| s.drop_last().len() - (j - 1) <= k < s.drop_last().len() implies is_ws(#[trigger] s.drop_last()[k]) by {
            assert(is_ws(s[k]));
        }
        lemma_trailing_ws_is(s.drop_last(), j - 1);
    }
}

/// `ws_end` lies between `from` and the end, skips only whitespace, and
/// stops at a character that is not whitespace.
pub proof fn lemma_ws_end(s: Seq<char>, from: int)
    requires
        0 <= from <= s.len(),
    ensures
        from <= ws_end(s, from) <= s.len(),
        forall|k: int| from <= k < ws_end(s, from) ==> is_ws(#[trigger] s[k]),
        ws_end(s, from) == s.len() || !is_ws(s[ws_end(s, from)]),
    decreases s.len() - from,
{
    if from < s.len() && is_ws(s[from]) {
        lemma_ws_end(s, from + 1);
    }
}

/// Whitespace from `from` up to `b`, and no whitespace at `b`: `ws_end` is
/// `b`.
pub proof fn lemma_ws_end_is(s: Seq<char>, from: int, b: int)
    requires
        0 <= from <= b <= s.len(),
        forall|k: int| from <= k < b ==> is_ws(#[trigger] s[k]),
        b == s.len() || !is_ws(s[b]),
    ensures
        ws_end(s, from) == b,
    decreases b - from,
{
    if from < b {
        lemma_ws_end_is(s, from + 1, b);
    }
}

/// The leading whitespace ends where `ws_end` from the start says.
pub proof fn lemma_leading_ws_end(s: Seq<char>)
    ensures
        leading_ws(s) == ws_end(s, 0),
{
    lemma_ws_end(s, 0);
    lemma_leading_ws_is(s, ws_end(s, 0));
}

// ---------------------------------------------------------------- exec

/// The characters of `s`, in order.
pub fn chars_of(s: &str) -> (v: Vec<char>)
    ensures
        v@ == s@,
{
    let mut v: Vec<char> = Vec::new();
    for c in it: s.chars()
        invariant
            v@ == it.seq().take(it.index()),
            it.seq() == s@,
    {
        v.push(c);
    }
    v
}

/// Whether `c` is Unicode whitespace (`char::is_whitespace`).
pub fn is_whitespace(c: char) -> (r: bool)
    ensures
        r == is_ws(c),
{
    ('\u{9}' <= c && c <= '\u{d}') || c == ' ' || c == '\u{85}' || c == '\u{a0}' || c == '\u{1680}'
        || ('\u{2000}' <= c && c <= '\u{200a}') || c == '\u{2028}' || c == '\u{2029}' || c == '\u{202f}'
        || c == '\u{205f}' || c == '\u{3000}'
}

/// The index of the first non-whitespace character at or after `from`.
pub fn skip_ws(cs: &Vec<char>, from: usize) -> (r: usize)
    requires
        from <= cs@.len(),
    ensures
        r == ws_end(cs@, from as int),
        from <= r <= cs@.len(),
{
    let mut i = from;
    while i < cs.len() && is_whitespace(cs[i])
        invariant
            from <= i <= cs@.len(),
            ws_end(cs@, i as int) == ws_end(cs@, from as int),
        decreases cs.len() - i,
    {
        i += 1;
    }
    i
}

/// Whether `pat` occurs in `s` at index `i`.
pub fn occurs_at_exec(s: &Vec<char>, pat: &Vec<char>, i: usize) -> (r: bool)
    ensures
        r == occurs_at(s@, pat@, i as int),
{
    if i > s.len() || pat.len() > s.len() - i {
        return false;
    }
    let mut k: usize = 0;
    while k < pat.len()
        invariant
            i + pat.len() <= s.len(),
            k <= pat.len(),
            forall|m: int| 0 <= m < k ==> s@[i + m] == #[trigger] pat@[m],
        decreases pat.len() - k,
    {
        if s[i + k] != pat[k] {
            assert(s@.subrange(i as int, i + pat@.len())[k as int] != pat@[k as int]);
            return false;
        }
        k += 1;
    }
    assert(s@.subrange(i as int, i + pat@.len()) =~= pat@);
    true
}

/// The index of the first occurrence of `pat` in `s` at or after `from`, given
/// that none starts before `from`.
pub fn find_from(s: &Vec<char>, pat: &Vec<char>, from: usize) -> (r: Option<usize>)
    requires
        forall|j: int| 0 <= j < from ==> !#[trigger] occurs_at(s@, pat@, j),
    ensures
        find_seq(s@, pat@) == (match r { Some(i) => Some(i as int), None => None::<int> }),
        r matches Some(i) ==> first_occurrence(s@, pat@, i as int),
{
    if from > s.len() {
        proof {
            assert forall|j: int| !#[trigger] occurs_at(s@, pat@, j) by {
                if 0 <= j < from {
                }
            }
            lemma_find_seq_none(s@, pat@);
        }
        return None;
    }
    let mut i = from;
    while i < s.len()
        invariant
            i <= s@.len(),
            forall|j: int| 0 <= j < i ==> !#[trigger] occurs_at(s@, pat@, j),
        decreases s.len() - i,
    {
        if occurs_at_exec(s, pat, i) {
            proof {
                lemma_find_seq_is(s@, pat@, i as int);
            }
            return Some(i);
        }
        i += 1;
    }
    if occurs_at_exec(s, pat, i) {
        proof {
            lemma_find_seq_is(s@, pat@, i as int);
        }
        return Some(i);
    }
    proof {
        assert forall|j: int| !#[trigger] occurs_at(s@, pat@, j) by {
            if 0 <= j < i {
            }
        }
        lemma_find_seq_none(s@, pat@);
    }
    None
}

/// The index of the first occurrence of `pat` in `s`.
pub fn find(s: &Vec<char>, pat: &Vec<char>) -> (r: Option<usize>)
    ensures
        find_seq(s@, pat@) == (match r { Some(i) => Some(i as int), None => None::<int> }),
        r matches Some(i) ==> first_occurrence(s@, pat@, i as int),
{
    find_from(s, pat, 0)
}

/// The index of the first `c` in `s[from..]`, given none before `from`.
pub fn find_char_from(s: &Vec<char>, c: char, from: usize) -> (r: Option<usize>)
    requires
        forall|j: int| 0 <= j < from && j < s@.len() ==> s@[j] != c,
    ensures
        find_seq(s@, seq![c]) == (match r { Some(i) => Some(i as int), None => None::<int> }),
        r matches Some(i) ==> i < s@.len() && s@[i as int] == c && from <= i
            && forall|j: int| 0 <= j < i ==> s@[j] != c,
        r is None ==> forall|j: int| 0 <= j < s@.len() ==> s@[j] != c,
{
    let mut i = from;
    while i < s.len()
        invariant
            forall|j: int| 0 <= j < i && j < s@.len() ==> s@[j] != c,
            from <= i,
        decreases s.len() - i,
    {
        if s[i] == c {
            proof {
                lemma_occurs_char(s@, c, i as int);
                assert forall|j: int| 0 <= j < i implies !#[trigger] occurs_at(s@, seq![c], j) by {
                    lemma_occurs_char(s@, c, j);
                }
                lemma_find_seq_is(s@, seq![c], i as int);
            }
            return Some(i);
        }
        i += 1;
    }
    proof {
        assert(lacks(s@, c));
        lemma_find_char_none(s@, c);
    }
    None
}

/// Whether `p` is a prefix of `s`.
pub fn starts_with(s: &Vec<char>, p: &Vec<char>) -> (r: bool)
    ensures
        r == has_prefix(s@, p@),
{
    let r = occurs_at_exec(s, p, 0);
    proof {
        if r {
            assert(s@.subrange(0, p@.len() as int) == s@.take(p@.len() as int));
        } else if p@.len() <= s@.len() {
            assert(s@.subrange(0, p@.len() as int) == s@.take(p@.len() as int));
        }
    }
    r
}

/// Whether `a` and `b` hold the same characters.
pub fn chars_eq(a: &Vec<char>, b: &Vec<char>) -> (r: bool)
    ensures
        r == (a@ == b@),
{
    if a.len() != b.len() {
        return false;
    }
    let r = occurs_at_exec(a, b, 0);
    proof {
        if r {
            assert(a@.subrange(0, b@.len() as int) =~= a@);
        } else {
            assert(a@.subrange(0, b@.len() as int) =~= a@);
        }
    }
    r
}

/// Whether `list` holds a string equal to `s`.
pub fn contains_string(list: &Vec<String>, s: &String) -> (r: bool)
    ensures
        r == views(list@).contains(s@),
{
    let mut i: usize = 0;
    while i < list.len()
        invariant
            i <= list@.len(),
            forall|k: int| 0 <= k < i ==> #[trigger] views(list@)[k] != s@,
        decreases list.len() - i,
    {
        if list[i] == *s {
            assert(views(list@)[i as int] == s@);
            return true;
        }
        i += 1;
    }
    false
}

/// Whether `list` holds a string whose characters are `s`.
pub fn contains_chars(list: &Vec<&str>, s: &Vec<char>) -> (r: bool)
    ensures
        r == str_views(list@).contains(s@),
{
    let mut i: usize = 0;
    while i < list.len()
        invariant
            i <= list@.len(),
            forall|k: int| 0 <= k < i ==> #[trigger] str_views(list@)[k] != s@,
        decreases list.len() - i,
    {
        let item = chars_of(list[i]);
        if chars_eq(&item, s) {
            assert(str_views(list@)[i as int] == s@);
            return true;
        }
        i += 1;
    }
    false
}

/// `s[from..to]`, counted in characters.
pub fn slice(s: &str, from: usize, to: usize) -> (r: &str)
    requires
        from <= to <= s@.len(),
    ensures
        r@ == s@.subrange(from as int, to as int),
{
    s.substring_char(from, to)
}

/// Splitting from `st`, where the first `c` at or after `st` is at `k`.
proof fn lemma_split_step(s: Seq<char>, st: int, k: int, c: char)
    requires
        0 <= st <= k < s.len(),
        s[k] == c,
        forall|m: int| st <= m < k ==> #[trigger] s[m] != c,
    ensures
        split_on(s.skip(st), c) == seq![s.subrange(st, k)] + split_on(s.skip(k + 1), c),
{
    let a = s.subrange(st, k);
    let b = s.skip(k + 1);
    assert(lacks(a, c));
    lemma_find_char_after(a, c, b);
    let t = s.skip(st);
    assert(t =~= a + seq![c] + b);
    assert(t.take(a.len() as int) =~= a);
    assert(t.skip(a.len() as int + 1) =~= b);
}

/// The pieces of `s` between the occurrences of `c` (`str::split`).
pub fn split_char(s: &str, c: char) -> (r: Vec<&str>)
    ensures
        str_views(r@) == split_on(s@, c),
{
    let cs = chars_of(s);
    let mut out: Vec<&str> = Vec::new();
    let mut st: usize = 0;
    let mut k: usize = 0;
    proof {
        assert(s@.skip(0) =~= s@);
    }
    while k < cs.len()
        invariant
            cs@ == s@,
            st <= k <= cs@.len(),
            forall|m: int| st <= m < k ==> #[trigger] s@[m] != c,
            str_views(out@) + split_on(s@.skip(st as int), c) == split_on(s@, c),
        decreases cs.len() - k,
    {
        if cs[k] == c {
            let piece = slice(s, st, k);
            proof {
                lemma_split_step(s@, st as int, k as int, c);
                let a = s@.subrange(st as int, k as int);
                let b = s@.skip(k + 1);
                assert(str_views(out@.push(piece)) =~= str_views(out@).push(a));
                assert(str_views(out@).push(a) + split_on(b, c) =~= str_views(out@) + (seq![a] + split_on(b, c)));
            }
            out.push(piece);
            st = k + 1;
        }
        k += 1;
    }
    let piece = slice(s, st, cs.len());
    proof {
        let t = s@.skip(st as int);
        assert(lacks(t, c));
        lemma_find_char_none(t, c);
        assert(t =~= piece@);
        assert(str_views(out@.push(piece)) =~= str_views(out@) + split_on(t, c));
    }
    out.push(piece);
    out
}

/// The pieces joined, with `sep` between neighbours (`[&str]::join`).
pub fn join_strs(parts: &Vec<&str>, sep: &str) -> (r: String)
    ensures
        r@ == join(str_views(parts@), sep@),
{
    let mut out = String::new();
    let mut i: usize = 0;
    while i < parts.len()
        invariant
            i <= parts@.len(),
            out@ == join(str_views(parts@).take(i as int), sep@),
        decreases parts.len() - i,
    {
        proof {
            let pv = str_views(parts@);
            assert(pv.take(i + 1) =~= pv.take(i as int).push(pv[i as int]));
            lemma_join_push(pv.take(i as int), pv[i as int], sep@);
        }
        if i > 0 {
            out.append(sep);
        }
        out.append(parts[i]);
        i += 1;
    }
    proof {
        assert(str_views(parts@).take(parts@.len() as int) =~= str_views(parts@));
    }
    out
}

/// `s` without leading and trailing whitespace (`str::trim`).
pub fn trim_str(s: &str) -> (r: &str)
    ensures
        r@ == trim(s@),
{
    let cs = chars_of(s);
    let n = cs.len();
    let mut lead: usize = 0;
    while lead < n && is_whitespace(cs[lead])
        invariant
            cs@ == s@,
            n == cs@.len(),
            lead <= n,
            forall|k: int| 0 <= k < lead ==> is_ws(#[trigger] s@[k]),
        decreases n - lead,
    {
        lead += 1;
    }
    proof {
        lemma_leading_ws_is(s@, lead as int);
    }
    if lead == n {
        return slice(s, 0, 0);
    }
    let mut end: usize = n;
    while end > lead && is_whitespace(cs[end - 1])
        invariant
            cs@ == s@,
            n == cs@.len(),
            lead < n,
            lead <= end <= n,
            !is_ws(s@[lead as int]),
            forall|k: int| end <= k < n ==> is_ws(#[trigger] s@[k]),
        decreases end - lead,
    {
        end -= 1;
    }
    proof {
        assert(end > lead);
        lemma_trailing_ws_is(s@, n - end);
    }
    slice(s, lead, end)
}

/// Whether `a` and `b` are the same text.
pub fn str_eq(a: &str, b: &str) -> (r: bool)
    ensures
        r == (a@ == b@),
{
    chars_eq(&chars_of(a), &chars_of(b))
}

/// `s` up to its first `c` (the first piece of `str::split` on `c`).
pub fn before_char_str(s: &str, c: char) -> (r: &str)
    ensures
        r@ == before_char(s@, c),
{
    let cs = chars_of(s);
    match find_char_from(&cs, c, 0) {
        Some(i) => slice(s, 0, i),
        None => s,
    }
}

/// The second piece of `s` split on `pat` (`str::split(pat).nth(1)`).
pub fn second_piece_str<'a>(s: &'a str, pat: &str) -> (r: Option<&'a str>)
    ensures
        match r {
            Some(p) => second_piece(s@, pat@) == Some(p@),
            None => second_piece(s@, pat@) is None,
        },
{
    let cs = chars_of(s);
    let pc = chars_of(pat);
    match find(&cs, &pc) {
        Some(i) => {
            assert(i + pc@.len() <= cs@.len());
            assert(cs@.len() == cs.len());
            let rest = slice(s, i + pc.len(), cs.len());
            proof {
                assert(rest@ =~= s@.skip(i + pat@.len()));
            }
            let rc = chars_of(rest);
            match find(&rc, &pc) {
                Some(j) => {
                    assert(j + pc@.len() <= rc@.len());
                    Some(slice(rest, 0, j))
                },
                None => Some(rest),
            }
        },
        None => None,
    }
}

/// Whether `pat` occurs in `s` (`str::contains`).
pub fn contains_str(s: &str, pat: &str) -> (r: bool)
    ensures
        r == contains_seq(s@, pat@),
{
    find(&chars_of(s), &chars_of(pat)).is_some()
}

/// The pieces of `s` between the occurrences of `pat` (`str::split`).
pub fn split_str<'a>(s: &'a str, pat: &str) -> (r: Vec<&'a str>)
    requires
        pat@.len() > 0,
    ensures
        str_views(r@) == split_seq(s@, pat@),
{
    let pc = chars_of(pat);
    let mut out: Vec<&'a str> = Vec::new();
    let mut rest: &'a str = s;
    proof {
        assert(s@.skip(0) =~= s@);
    }
    let ghost st: int = 0;
    loop
        invariant
            pc@ == pat@,
            pat@.len() > 0,
            0 <= st <= s@.len(),
            rest@ == s@.skip(st),
            str_views(out@) + split_seq(rest@, pat@) == split_seq(s@, pat@),
        decreases s@.len() - st,
    {
        let rc = chars_of(rest);
        match find(&rc, &pc) {
            Some(i) => {
                assert(i + pc@.len() <= rc@.len());
                assert(rc@.len() == rc.len());
                let piece = slice(rest, 0, i);
                let next = slice(rest, i + pc.len(), rc.len());
                proof {
                    assert(piece@ =~= rest@.take(i as int));
                    assert(next@ =~= rest@.skip(i + pat@.len()));
                    assert(split_seq(rest@, pat@) == seq![piece@] + split_seq(next@, pat@));
                    assert(str_views(out@.push(piece)) =~= str_views(out@).push(piece@));
                    assert(str_views(out@).push(piece@) + split_seq(next@, pat@) =~= str_views(out@) + (seq![piece@] + split_seq(next@, pat@)));
                    assert(next@ =~= s@.skip(st + i + pat@.len()));
                    st = st + i + pat@.len();
                }
                out.push(piece);
                rest = next;
            },
            None => {
                proof {
                    assert(split_seq(rest@, pat@) == seq![rest@]);
                    assert(str_views(out@.push(rest)) =~= str_views(out@) + seq![rest@]);
                }
                out.push(rest);
                return out;
            },
        }
    }
}

} // verus!
