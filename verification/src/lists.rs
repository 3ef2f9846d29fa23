//! Merging a bundled default list with a user's additions and removals.

use vstd::prelude::*;
use crate::text::{views, contains_string};

verus! {

/// The defaults that the user did not disable, in their order, followed by the
/// user's own entries.
pub open spec fn merged(defaults: Seq<Seq<char>>, disabled: Seq<Seq<char>>, extra: Seq<Seq<char>>) -> Seq<Seq<char>> {
    defaults.filter(|d: Seq<char>| !disabled.contains(d)) + extra
}

/// Merges `defaults` with a user's `disabled` defaults and `extra` entries.
pub fn merge_lists(defaults: Vec<String>, disabled: &Vec<String>, extra: &Vec<String>) -> (r: Vec<String>)
    ensures
        views(r@) == merged(views(defaults@), views(disabled@), views(extra@)),
{
    let ghost keep = |d: Seq<char>| !views(disabled@).contains(d);
    let mut out: Vec<String> = Vec::new();
    let mut i: usize = 0;
    while i < defaults.len()
        invariant
            i <= defaults@.len(),
            views(out@) == views(defaults@).take(i as int).filter(keep),
            keep == (|d: Seq<char>| !views(disabled@).contains(d)),
        decreases defaults.len() - i,
    {
        let item = &defaults[i];
        let drop = contains_string(disabled, item);
        proof {
            let dv = views(defaults@);
            assert(dv.take(i + 1) =~= dv.take(i as int).push(dv[i as int]));
            dv.take(i as int).lemma_filter_push(dv[i as int], keep);
            out@.lemma_push_map_commute(|s: String| s@, *item);
        }
        if !drop {
            out.push(item.clone());
        }
        proof {
            assert(views(out@) =~= views(defaults@).take(i + 1).filter(keep));
        }
        i += 1;
    }
    let ghost first = views(out@);
    let mut j: usize = 0;
    while j < extra.len()
        invariant
            j <= extra@.len(),
            views(out@) == first + views(extra@).take(j as int),
        decreases extra.len() - j,
    {
        let ghost before = out@;
        let item = extra[j].clone();
        proof {
            before.lemma_push_map_commute(|s: String| s@, item);
        }
        out.push(item);
        proof {
            assert(views(out@) =~= views(before).push(item@));
            assert(views(extra@).take(j + 1) =~= views(extra@).take(j as int).push(views(extra@)[j as int]));
            assert(views(out@) =~= first + views(extra@).take(j + 1));
        }
        j += 1;
    }
    proof {
        assert(views(defaults@).take(defaults@.len() as int) =~= views(defaults@));
        assert(views(extra@).take(extra@.len() as int) =~= views(extra@));
    }
    out
}

/// Merging with nothing disabled and nothing added gives back the defaults.
pub proof fn lemma_merge_nothing_changes_nothing(defaults: Seq<Seq<char>>)
    ensures
        merged(defaults, Seq::empty(), Seq::empty()) == defaults,
    decreases defaults.len(),
{
    let keep = |d: Seq<char>| !Seq::<Seq<char>>::empty().contains(d);
    if defaults.len() > 0 {
        lemma_merge_nothing_changes_nothing(defaults.drop_last());
        assert(defaults.drop_last().push(defaults.last()) =~= defaults) by {
            broadcast use vstd::seq_lib::group_seq_properties;
        }
        defaults.drop_last().lemma_filter_push(defaults.last(), keep);
    } else {
        reveal(Seq::filter);
    }
    assert(merged(defaults, Seq::empty(), Seq::empty()) =~= defaults.filter(keep));
}

/// Every entry of the merge is a default that was not disabled or an entry
/// of the user's; every entry of the user's is kept; no disabled default is
/// kept unless the user also added it.
pub proof fn lemma_merge_membership(defaults: Seq<Seq<char>>, disabled: Seq<Seq<char>>, extra: Seq<Seq<char>>, x: Seq<char>)
    ensures
        merged(defaults, disabled, extra).contains(x)
            == ((defaults.contains(x) && !disabled.contains(x)) || extra.contains(x)),
{
    let keep = |d: Seq<char>| !disabled.contains(d);
    let f = defaults.filter(keep);
    let m = merged(defaults, disabled, extra);
    if m.contains(x) {
        let k = choose|k: int| 0 <= k < m.len() && m[k] == x;
        if k < f.len() {
            assert(f[k] == x);
            assert(f.contains(x));
            defaults.lemma_filter_pred(keep, k);
            defaults.lemma_filter_contains_rev(keep, x);
        } else {
            assert(extra[k - f.len()] == x);
        }
    }
    if defaults.contains(x) && !disabled.contains(x) {
        let k = choose|k: int| 0 <= k < defaults.len() && defaults[k] == x;
        defaults.lemma_filter_contains(keep, k);
        let j = choose|j: int| 0 <= j < f.len() && f[j] == x;
        assert(m[j] == x);
    }
    if extra.contains(x) {
        let k = choose|k: int| 0 <= k < extra.len() && extra[k] == x;
        assert(m[f.len() + k] == x);
    }
}

} // verus!
