//! Wildcard (`*`) URL patterns, as the browser's request filter takes them.
//!
//! `glob_match` is the classic single-backtrack matcher (`glob_run`); it
//! decides exactly the wildcard semantics `glob_matches`, in which `*` stands
//! for any run of characters and every other character for itself.

use vstd::prelude::*;

verus! {

/// Every character of `p` from index `i` on is a `*`.
pub open spec fn stars_from(p: Seq<char>, i: int) -> bool {
    forall|k: int| i <= k < p.len() ==> p[k] == '*'
}

/// `t` holds no `*`.
pub open spec fn star_free(t: Seq<char>) -> bool {
    forall|k: int| 0 <= k < t.len() ==> t[k] != '*'
}

/// Wildcard semantics: `p[i..]` matches `t[j..]`, where `*` matches any run of
/// characters (the empty one too) and every other character matches itself.
pub open spec fn wild_match(p: Seq<char>, t: Seq<char>, i: int, j: int) -> bool
    decreases p.len() - i + t.len() - j,
    when 0 <= i <= p.len() && 0 <= j <= t.len()
{
    if i == p.len() {
        j == t.len()
    } else if p[i] == '*' {
        wild_match(p, t, i + 1, j) || (j < t.len() && wild_match(p, t, i, j + 1))
    } else {
        j < t.len() && p[i] == t[j] && wild_match(p, t, i + 1, j + 1)
    }
}

/// The whole of `t` matches the whole of `p` under wildcard semantics.
pub open spec fn glob_matches(p: Seq<char>, t: Seq<char>) -> bool {
    wild_match(p, t, 0, 0)
}

/// One run of the single-backtrack matcher from state `(pi, ti, star, bt)`:
/// a `*` is remembered together with the text position, a character equal to
/// the text's is consumed, and on a mismatch the text position after the
/// last remembered `*` moves on by one.
pub open spec fn glob_run(p: Seq<char>, t: Seq<char>, pi: int, ti: int, star: Option<int>, bt: int) -> bool
    decreases
        (match star { Some(_) => t.len() - bt, None => t.len() + 1int }),
        t.len() - ti + p.len() - pi,
    when 0 <= pi <= p.len() && 0 <= bt <= ti <= t.len() && (star matches Some(s) ==> 0 <= s < pi)
{
    if ti == t.len() {
        stars_from(p, pi)
    } else if pi < p.len() && p[pi] == '*' {
        glob_run(p, t, pi + 1, ti, Some(pi), ti)
    } else if pi < p.len() && p[pi] == t[ti] {
        glob_run(p, t, pi + 1, ti + 1, star, bt)
    } else {
        match star {
            Some(s) => glob_run(p, t, s + 1, bt + 1, star, bt + 1),
            None => false,
        }
    }
}

/// The matcher's run from its start (equal to `glob_matches`, see
/// `lemma_greedy_glob_is_wildcard_match`).
pub open spec fn greedy_glob(p: Seq<char>, t: Seq<char>) -> bool {
    glob_run(p, t, 0, 0, None, 0)
}

/// `p[i..i+len]` equals `t[j..j+len]`, character by character.
pub open spec fn same_run(p: Seq<char>, t: Seq<char>, i: int, j: int, len: int) -> bool {
    forall|m: int| i <= m < i + len ==> #[trigger] p[m] == t[j + (m - i)]
}

/// `p[i..i+len]` holds no `*`.
pub open spec fn no_star_run(p: Seq<char>, i: int, len: int) -> bool {
    forall|m: int| i <= m < i + len ==> #[trigger] p[m] != '*'
}

/// A run of `len` non-star pattern characters matches only the same run of text.
proof fn lemma_literal_run(p: Seq<char>, t: Seq<char>, i: int, j: int, len: int)
    requires
        0 <= len,
        0 <= i,
        i + len <= p.len(),
        0 <= j <= t.len(),
        no_star_run(p, i, len),
    ensures
        j + len <= t.len() ==> (wild_match(p, t, i, j) == (same_run(p, t, i, j, len) && wild_match(p, t, i + len, j + len))),
        j + len > t.len() ==> !wild_match(p, t, i, j),
    decreases len,
{
    if len > 0 {
        assert(p[i] != '*');
        if j < t.len() {
            lemma_literal_run(p, t, i + 1, j + 1, len - 1);
            if j + len <= t.len() {
                if wild_match(p, t, i, j) {
                    assert forall|m: int| i <= m < i + len implies #[trigger] p[m] == t[j + (m - i)] by {
                        if m > i {
                            assert(p[m] == t[(j + 1) + (m - (i + 1))]);
                        }
                    }
                }
                if same_run(p, t, i, j, len) && wild_match(p, t, i + len, j + len) {
                    assert(p[i] == t[j + (i - i)]);
                    assert forall|m: int| i + 1 <= m < i + 1 + (len - 1) implies #[trigger] p[m] == t[(j + 1) + (m - (i + 1))] by {
                        assert(p[m] == t[j + (m - i)]);
                    }
                }
            }
        }
    }
}

/// A `*` at `s` matches `t[j..]` followed by the rest exactly when the rest of
/// the pattern matches some suffix `t[k..]` with `k >= j`.
proof fn lemma_star(p: Seq<char>, t: Seq<char>, s: int, j: int)
    requires
        0 <= s < p.len(),
        p[s] == '*',
        0 <= j <= t.len(),
    ensures
        wild_match(p, t, s, j) == exists|k: int| j <= k <= t.len() && #[trigger] wild_match(p, t, s + 1, k),
    decreases t.len() - j,
{
    if j < t.len() {
        lemma_star(p, t, s, j + 1);
        if wild_match(p, t, s, j) {
            if wild_match(p, t, s + 1, j) {
            } else {
                let k = choose|k: int| j + 1 <= k <= t.len() && #[trigger] wild_match(p, t, s + 1, k);
                assert(wild_match(p, t, s + 1, k));
            }
        }
        if exists|k: int| j <= k <= t.len() && #[trigger] wild_match(p, t, s + 1, k) {
            let k = choose|k: int| j <= k <= t.len() && #[trigger] wild_match(p, t, s + 1, k);
            if k > j {
                assert(wild_match(p, t, s + 1, k));
            }
        }
    } else {
        if wild_match(p, t, s, j) {
            assert(wild_match(p, t, s + 1, j));
        }
    }
}

/// With no text left, only a run of stars matches.
proof fn lemma_empty_text(p: Seq<char>, t: Seq<char>, i: int)
    requires
        0 <= i <= p.len(),
    ensures
        wild_match(p, t, i, t.len() as int) == stars_from(p, i),
    decreases p.len() - i,
{
    if i < p.len() {
        lemma_empty_text(p, t, i + 1);
    }
}

/// The matcher's state invariant: the pattern characters consumed since the
/// last remembered `*` (or since the start) are not `*` and equal the text
/// they were compared with.
pub open spec fn run_state_ok(p: Seq<char>, t: Seq<char>, pi: int, ti: int, star: Option<int>, bt: int) -> bool {
    &&& 0 <= pi <= p.len()
    &&& 0 <= bt <= ti <= t.len()
    &&& match star {
        Some(s) => {
            &&& 0 <= s < pi
            &&& p[s] == '*'
            &&& pi - s - 1 == ti - bt
            &&& same_run(p, t, s + 1, bt, pi - s - 1)
            &&& no_star_run(p, s + 1, pi - s - 1)
        },
        None => {
            &&& pi == ti
            &&& same_run(p, t, 0, 0, pi)
            &&& no_star_run(p, 0, pi)
        },
    }
}

/// The target that a run from a valid state decides.
pub open spec fn run_target(p: Seq<char>, t: Seq<char>, pi: int, ti: int, star: Option<int>, bt: int) -> bool {
    match star {
        Some(s) => wild_match(p, t, s, bt),
        None => wild_match(p, t, pi, ti),
    }
}

proof fn lemma_run_correct(p: Seq<char>, t: Seq<char>, pi: int, ti: int, star: Option<int>, bt: int)
    requires
        run_state_ok(p, t, pi, ti, star, bt),
    ensures
        glob_run(p, t, pi, ti, star, bt) == run_target(p, t, pi, ti, star, bt),
    decreases
        (match star { Some(_) => t.len() - bt, None => t.len() + 1int }),
        t.len() - ti + p.len() - pi,
{
    let tl = t.len() as int;
    if ti == tl {
        lemma_empty_text(p, t, pi);
        match star {
            Some(s) => {
                let len = pi - s - 1;
                lemma_star(p, t, s, bt);
                lemma_literal_run(p, t, s + 1, bt, len);
                if wild_match(p, t, s, bt) {
                    let k = choose|k: int| bt <= k <= tl && #[trigger] wild_match(p, t, s + 1, k);
                    lemma_literal_run(p, t, s + 1, k, len);
                    assert(k == bt);
                }
                if stars_from(p, pi) {
                    assert(wild_match(p, t, s + 1, bt));
                }
            },
            None => {},
        }
    } else if pi < p.len() && p[pi] == '*' {
        lemma_run_correct(p, t, pi + 1, ti, Some(pi), ti);
        match star {
            Some(s) => {
                let len = pi - s - 1;
                lemma_star(p, t, s, bt);
                lemma_star(p, t, pi, ti);
                if wild_match(p, t, s, bt) {
                    let k = choose|k: int| bt <= k <= tl && #[trigger] wild_match(p, t, s + 1, k);
                    lemma_literal_run(p, t, s + 1, k, len);
                    lemma_star(p, t, pi, k + len);
                    let k2 = choose|k2: int| k + len <= k2 <= tl && #[trigger] wild_match(p, t, pi + 1, k2);
                    assert(wild_match(p, t, pi + 1, k2));
                }
                if wild_match(p, t, pi, ti) {
                    lemma_literal_run(p, t, s + 1, bt, len);
                    assert(wild_match(p, t, s + 1, bt));
                }
            },
            None => {},
        }
    } else if pi < p.len() && p[pi] == t[ti] {
        lemma_run_correct(p, t, pi + 1, ti + 1, star, bt);
        match star {
            Some(s) => {
                assert forall|m: int| s + 1 <= m < s + 1 + (ti + 1 - bt) implies #[trigger] p[m] == t[bt + (m - (s + 1))] by {
                    if m < pi {
                    } else {
                        assert(m == pi);
                    }
                }
                assert forall|m: int| s + 1 <= m < s + 1 + (ti + 1 - bt) implies #[trigger] p[m] != '*' by {
                    if m < pi {
                    } else {
                        assert(m == pi);
                    }
                }
            },
            None => {
                assert forall|m: int| 0 <= m < pi + 1 implies #[trigger] p[m] != '*' by {
                    if m < pi {
                    } else {
                        assert(m == pi);
                    }
                }
            },
        }
    } else {
        match star {
            Some(s) => {
                let len = pi - s - 1;
                lemma_literal_run(p, t, s + 1, bt, len);
                assert(!wild_match(p, t, s + 1, bt));
                lemma_run_correct(p, t, s + 1, bt + 1, star, bt + 1);
            },
            None => {},
        }
    }
}

/// The single-backtrack matcher decides exactly the wildcard semantics.
pub proof fn lemma_greedy_glob_is_wildcard_match(p: Seq<char>, t: Seq<char>)
    ensures
        greedy_glob(p, t) == glob_matches(p, t),
{
    lemma_run_correct(p, t, 0, 0, None, 0);
}

/// A pattern without `*` matches exactly the text equal to it.
pub proof fn lemma_literal_pattern(p: Seq<char>, t: Seq<char>)
    requires
        star_free(p),
    ensures
        glob_matches(p, t) == (p == t),
{
    lemma_literal_from(p, t, 0, 0);
    assert(p.skip(0) =~= p);
    assert(t.skip(0) =~= t);
}

proof fn lemma_literal_from(p: Seq<char>, t: Seq<char>, i: int, j: int)
    requires
        star_free(p),
        0 <= i <= p.len(),
        0 <= j <= t.len(),
    ensures
        wild_match(p, t, i, j) == (p.skip(i) == t.skip(j)),
    decreases p.len() - i,
{
    if i == p.len() {
        if t.skip(j).len() == 0 {
            assert(p.skip(i) =~= t.skip(j));
        } else {
            assert(p.skip(i).len() != t.skip(j).len());
        }
    } else {
        assert(p[i] != '*');
        if j < t.len() {
            lemma_literal_from(p, t, i + 1, j + 1);
            if p.skip(i) == t.skip(j) {
                assert(p.skip(i)[0] == t.skip(j)[0]);
                assert(p.skip(i + 1) =~= p.skip(i).drop_first());
                assert(t.skip(j + 1) =~= t.skip(j).drop_first());
            }
            if p[i] == t[j] && p.skip(i + 1) == t.skip(j + 1) {
                assert(p.skip(i).len() == t.skip(j).len());
                assert forall|k: int| 0 <= k < p.skip(i).len() implies p.skip(i)[k] == t.skip(j)[k] by {
                    if k > 0 {
                        assert(p.skip(i)[k] == p.skip(i + 1)[k - 1]);
                        assert(t.skip(j)[k] == t.skip(j + 1)[k - 1]);
                    }
                }
                assert(p.skip(i) =~= t.skip(j));
            }
        } else {
            assert(p.skip(i).len() != t.skip(j).len());
        }
    }
}

/// The pattern `*` matches every text.
pub proof fn lemma_lone_star_matches_all(t: Seq<char>)
    ensures
        glob_matches(seq!['*'], t),
{
    let p = seq!['*'];
    assert(wild_match(p, t, 1, t.len() as int));
    lemma_star(p, t, 0, 0);
}

} // verus!
