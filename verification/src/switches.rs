//! Turning the client's switch list into browser command-line switches.

use vstd::prelude::*;
use crate::text::{
    views, str_views, has_prefix, find_seq, split_on, join, lacks, chars_of, starts_with, slice,
    find_char_from, str_eq, split_char, join_strs, lemma_split_pieces_lack, lemma_split_join,
    lemma_join_split, occurs_at, lemma_occurs_char, lemma_find_seq_is, lemma_find_char_none,
};

verus! {

/// `s` with every leading `--` taken off (`str::trim_start_matches("--")`).
pub open spec fn without_dashes(s: Seq<char>) -> Seq<char>
    decreases s.len(),
{
    if s.len() >= 2 && s[0] == '-' && s[1] == '-' {
        without_dashes(s.skip(2))
    } else {
        s
    }
}

/// A command-line switch.
pub enum Switch {
    /// A comma-separated list switch (`enable-features`, `disable-features`),
    /// to be merged with any value already given: its name and value.
    List(String, String),
    /// A switch with a value: its name and value.
    Valued(String, String),
    /// A switch without a value.
    Plain(String),
}

/// A command-line switch as plain values.
pub enum SwitchView {
    List(Seq<char>, Seq<char>),
    Valued(Seq<char>, Seq<char>),
    Plain(Seq<char>),
}

impl View for Switch {
    type V = SwitchView;

    open spec fn view(&self) -> SwitchView {
        match self {
            Switch::List(k, v) => SwitchView::List(k@, v@),
            Switch::Valued(k, v) => SwitchView::Valued(k@, v@),
            Switch::Plain(k) => SwitchView::Plain(k@),
        }
    }
}

/// The switch that a flag of the client's list stands for: leading dashes
/// off, then split at the first `=`.
pub open spec fn switch_of(flag: Seq<char>) -> SwitchView {
    let f = without_dashes(flag);
    match find_seq(f, seq!['=']) {
        Some(i) => {
            let key = f.take(i);
            let value = f.skip(i + 1);
            if key == "disable-features"@ || key == "enable-features"@ {
                SwitchView::List(key, value)
            } else {
                SwitchView::Valued(key, value)
            }
        },
        None => SwitchView::Plain(f),
    }
}

fn without_dashes_str(s: &str) -> (r: &str)
    ensures
        r@ == without_dashes(s@),
    decreases s@.len(),
{
    let cs = chars_of(s);
    if cs.len() >= 2 && cs[0] == '-' && cs[1] == '-' {
        let rest = slice(s, 2, cs.len());
        assert(rest@ =~= s@.skip(2));
        without_dashes_str(rest)
    } else {
        s
    }
}

/// The switch that a flag of the client's list stands for.
pub fn switch_for_flag(flag: &str) -> (r: Switch)
    ensures
        r@ == switch_of(flag@),
{
    let f = without_dashes_str(flag);
    let cs = chars_of(f);
    match find_char_from(&cs, '=', 0) {
        Some(i) => {
            assert(i < cs.len());
            let key = slice(f, 0, i);
            let value = slice(f, i + 1, cs.len());
            assert(key@ =~= f@.take(i as int));
            assert(value@ =~= f@.skip(i + 1));
            if str_eq(key, "disable-features") || str_eq(key, "enable-features") {
                Switch::List(String::from_str(key), String::from_str(value))
            } else {
                Switch::Valued(String::from_str(key), String::from_str(value))
            }
        },
        None => Switch::Plain(String::from_str(f)),
    }
}

/// A flag written as `--`, a key without `=` that does not start with `-`,
/// `=` and a value: the dashes come off and the split is at that `=`.
proof fn lemma_flag_with_value(key: Seq<char>, value: Seq<char>)
    requires
        lacks(key, '='),
        key.len() == 0 || key[0] != '-',
    ensures
        without_dashes("--"@ + key + "="@ + value) == key + "="@ + value,
        find_seq(key + "="@ + value, seq!['=']) == Some(key.len() as int),
        (key + "="@ + value).take(key.len() as int) == key,
        (key + "="@ + value).skip(key.len() as int + 1) == value,
{
    reveal_strlit("--");
    reveal_strlit("=");
    let flag = "--"@ + key + "="@ + value;
    let f = key + "="@ + value;
    assert(flag.skip(2) =~= f);
    assert(f[0] != '-');
    assert(without_dashes(f) == f);
    let n = key.len() as int;
    lemma_occurs_char(f, '=', n);
    assert forall|j: int| 0 <= j < n implies !#[trigger] occurs_at(f, seq!['='], j) by {
        lemma_occurs_char(f, '=', j);
        assert(f[j] == key[j]);
    }
    lemma_find_seq_is(f, seq!['='], n);
    assert(f.take(n) =~= key);
    assert(f.skip(n + 1) =~= value);
}

/// A flag whose key (after its leading `--`, up to the first `=`) is
/// `enable-features` or `disable-features` is a list switch, to be merged,
/// with everything after that `=` as its value.
pub proof fn lemma_feature_flags_are_lists(key: Seq<char>, value: Seq<char>)
    requires
        key == "enable-features"@ || key == "disable-features"@,
    ensures
        switch_of("--"@ + key + "="@ + value) == SwitchView::List(key, value),
{
    reveal_strlit("enable-features");
    reveal_strlit("disable-features");
    assert forall|k: int| 0 <= k < key.len() implies key[k] != '=' by {}
    lemma_flag_with_value(key, value);
}

/// A flag with any other key (one without `=` that does not start with `-`)
/// is a switch with everything after its first `=` as the value.
pub proof fn lemma_other_flags_are_valued(key: Seq<char>, value: Seq<char>)
    requires
        lacks(key, '='),
        key.len() == 0 || key[0] != '-',
        key != "enable-features"@,
        key != "disable-features"@,
    ensures
        switch_of("--"@ + key + "="@ + value) == SwitchView::Valued(key, value),
{
    lemma_flag_with_value(key, value);
}

/// A flag without `=` is a switch without a value, named by the flag with
/// its leading `--` off.
pub proof fn lemma_flags_without_value_are_plain(name: Seq<char>)
    requires
        lacks(name, '='),
        name.len() == 0 || name[0] != '-',
    ensures
        switch_of("--"@ + name) == SwitchView::Plain(name),
{
    reveal_strlit("--");
    let flag = "--"@ + name;
    assert(flag.skip(2) =~= name);
    assert(without_dashes(name) == name);
    lemma_find_char_none(name, '=');
}

/// The pieces that are not empty.
pub open spec fn non_empty(xs: Seq<Seq<char>>) -> Seq<Seq<char>> {
    xs.filter(|x: Seq<char>| x.len() > 0)
}

/// `parts`, then each of `items` that is not there yet, in order.
pub open spec fn add_missing(parts: Seq<Seq<char>>, items: Seq<Seq<char>>) -> Seq<Seq<char>>
    decreases items.len(),
{
    if items.len() == 0 {
        parts
    } else {
        let p = add_missing(parts, items.drop_last());
        if p.contains(items.last()) { p } else { p.push(items.last()) }
    }
}

/// A list switch's value after `value` is merged into the `existing` one:
/// the existing entries, then the new ones not already there, joined by `,`
/// (empty entries dropped).
pub open spec fn merged_list_value(existing: Seq<char>, value: Seq<char>) -> Seq<char> {
    join(add_missing(non_empty(split_on(existing, ',')), non_empty(split_on(value, ','))), seq![','])
}

fn contains_str_in(list: &Vec<&str>, s: &str) -> (r: bool)
    ensures
        r == str_views(list@).contains(s@),
{
    let mut i: usize = 0;
    while i < list.len()
        invariant
            i <= list@.len(),
            forall|k: int| 0 <= k < i ==> #[trigger] str_views(list@)[k] != s@,
        decreases list.len() - i,
    {
        if str_eq(list[i], s) {
            assert(str_views(list@)[i as int] == s@);
            return true;
        }
        i += 1;
    }
    false
}

/// Merges `value` into the `existing` value of a list switch.
pub fn merged_switch_value(existing: &str, value: &str) -> (r: String)
    ensures
        r@ == merged_list_value(existing@, value@),
{
    let ghost long = |x: Seq<char>| x.len() > 0;
    let old_pieces = split_char(existing, ',');
    let mut parts: Vec<&str> = Vec::new();
    let mut i: usize = 0;
    while i < old_pieces.len()
        invariant
            i <= old_pieces@.len(),
            str_views(parts@) == str_views(old_pieces@).take(i as int).filter(long),
            long == (|x: Seq<char>| x.len() > 0),
        decreases old_pieces.len() - i,
    {
        let p = old_pieces[i];
        proof {
            let ov = str_views(old_pieces@);
            assert(ov.take(i + 1) =~= ov.take(i as int).push(ov[i as int]));
            ov.take(i as int).lemma_filter_push(ov[i as int], long);
        }
        if p.unicode_len() > 0 {
            parts.push(p);
        }
        proof {
            assert(str_views(parts@) =~= str_views(old_pieces@).take(i + 1).filter(long));
        }
        i += 1;
    }
    proof {
        assert(str_views(old_pieces@).take(old_pieces@.len() as int) =~= str_views(old_pieces@));
    }
    let ghost base = str_views(parts@);
    let new_pieces = split_char(value, ',');
    let mut j: usize = 0;
    while j < new_pieces.len()
        invariant
            j <= new_pieces@.len(),
            str_views(parts@) == add_missing(base, str_views(new_pieces@).take(j as int).filter(long)),
            long == (|x: Seq<char>| x.len() > 0),
        decreases new_pieces.len() - j,
    {
        let v = new_pieces[j];
        proof {
            let nv = str_views(new_pieces@);
            assert(nv.take(j + 1) =~= nv.take(j as int).push(nv[j as int]));
            nv.take(j as int).lemma_filter_push(nv[j as int], long);
            let f = nv.take(j as int).filter(long);
            assert(f.push(nv[j as int]).drop_last() =~= f);
        }
        if v.unicode_len() > 0 && !contains_str_in(&parts, v) {
            proof {
                assert(str_views(parts@.push(v)) =~= str_views(parts@).push(v@));
            }
            parts.push(v);
        }
        j += 1;
    }
    proof {
        assert(str_views(new_pieces@).take(new_pieces@.len() as int) =~= str_views(new_pieces@));
    }
    let r = join_strs(&parts, ",");
    proof {
        reveal_strlit(",");
        assert(","@ =~= seq![',']);
    }
    r
}

// ------------------------------------------------------------ merge laws

/// What the merge holds comes from the existing entries or the new ones.
proof fn lemma_add_missing_from(parts: Seq<Seq<char>>, items: Seq<Seq<char>>, x: Seq<char>)
    ensures
        add_missing(parts, items).contains(x) ==> parts.contains(x) || items.contains(x),
    decreases items.len(),
{
    if items.len() > 0 {
        lemma_add_missing_from(parts, items.drop_last(), x);
        let p = add_missing(parts, items.drop_last());
        if add_missing(parts, items).contains(x) && !p.contains(x) {
            assert(x == items.last());
            assert(items[items.len() - 1] == x);
        }
        if items.drop_last().contains(x) {
            let k = choose|k: int| 0 <= k < items.drop_last().len() && items.drop_last()[k] == x;
            assert(items[k] == x);
        }
    }
}

/// Every new entry ends up in the merge.
proof fn lemma_add_missing_has(parts: Seq<Seq<char>>, items: Seq<Seq<char>>, k: int)
    requires
        0 <= k < items.len(),
    ensures
        add_missing(parts, items).contains(items[k]),
    decreases items.len(),
{
    let p = add_missing(parts, items.drop_last());
    if k < items.len() - 1 {
        lemma_add_missing_has(parts, items.drop_last(), k);
        assert(items.drop_last()[k] == items[k]);
        if !p.contains(items.last()) {
            let m = choose|m: int| 0 <= m < p.len() && p[m] == items[k];
            assert(p.push(items.last())[m] == items[k]);
        }
    } else {
        if !p.contains(items.last()) {
            assert(p.push(items.last())[p.len() as int] == items.last());
        }
    }
}

/// Merging entries that are all there already changes nothing.
proof fn lemma_add_missing_present(parts: Seq<Seq<char>>, items: Seq<Seq<char>>)
    requires
        forall|k: int| 0 <= k < items.len() ==> parts.contains(#[trigger] items[k]),
    ensures
        add_missing(parts, items) == parts,
    decreases items.len(),
{
    if items.len() > 0 {
        assert forall|k: int| 0 <= k < items.drop_last().len() implies parts.contains(#[trigger] items.drop_last()[k]) by {
            assert(items.drop_last()[k] == items[k]);
        }
        lemma_add_missing_present(parts, items.drop_last());
        assert(parts.contains(items[items.len() - 1]));
    }
}

/// Keeping the non-empty entries keeps a list with no empty entry whole.
proof fn lemma_non_empty_all(xs: Seq<Seq<char>>)
    requires
        forall|k: int| 0 <= k < xs.len() ==> (#[trigger] xs[k]).len() > 0,
    ensures
        non_empty(xs) == xs,
    decreases xs.len(),
{
    let long = |x: Seq<char>| x.len() > 0;
    if xs.len() > 0 {
        assert forall|k: int| 0 <= k < xs.drop_last().len() implies (#[trigger] xs.drop_last()[k]).len() > 0 by {
            assert(xs.drop_last()[k] == xs[k]);
        }
        lemma_non_empty_all(xs.drop_last());
        assert(xs.drop_last().push(xs.last()) =~= xs);
        xs.drop_last().lemma_filter_push(xs.last(), long);
        assert(xs[xs.len() - 1].len() > 0);
    } else {
        reveal(Seq::filter);
    }
}

/// The non-empty pieces of a split on `,` are non-empty and hold no `,`.
proof fn lemma_non_empty_pieces(s: Seq<char>, x: Seq<char>)
    requires
        non_empty(split_on(s, ',')).contains(x),
    ensures
        x.len() > 0,
        lacks(x, ','),
{
    let long = |y: Seq<char>| y.len() > 0;
    let pieces = split_on(s, ',');
    let f = pieces.filter(long);
    let k = choose|k: int| 0 <= k < f.len() && f[k] == x;
    pieces.lemma_filter_pred(long, k);
    pieces.lemma_filter_contains_rev(long, x);
    let m = choose|m: int| 0 <= m < pieces.len() && pieces[m] == x;
    lemma_split_pieces_lack(s, ',');
    assert(lacks(pieces[m], ','));
}

/// The existing entries stay in the merge.
proof fn lemma_add_missing_keeps(parts: Seq<Seq<char>>, items: Seq<Seq<char>>, x: Seq<char>)
    requires
        parts.contains(x),
    ensures
        add_missing(parts, items).contains(x),
    decreases items.len(),
{
    if items.len() > 0 {
        lemma_add_missing_keeps(parts, items.drop_last(), x);
        let p = add_missing(parts, items.drop_last());
        let m = choose|m: int| 0 <= m < p.len() && p[m] == x;
        if !p.contains(items.last()) {
            assert(p.push(items.last())[m] == x);
        }
    }
}

/// A non-empty entry is among the non-empty pieces exactly when it is a piece.
proof fn lemma_non_empty_contains(xs: Seq<Seq<char>>, x: Seq<char>)
    requires
        x.len() > 0,
    ensures
        non_empty(xs).contains(x) <==> xs.contains(x),
{
    let long = |y: Seq<char>| y.len() > 0;
    if non_empty(xs).contains(x) {
        xs.lemma_filter_contains_rev(long, x);
    }
    if xs.contains(x) {
        let k = choose|k: int| 0 <= k < xs.len() && xs[k] == x;
        xs.lemma_filter_contains(long, k);
    }
}

/// Merging a list switch's value keeps every entry that was there, adds
/// every entry of the new value, and brings in no other entry.
pub proof fn lemma_merge_keeps_all_entries(existing: Seq<char>, value: Seq<char>, x: Seq<char>)
    requires
        x.len() > 0,
    ensures
        split_on(merged_list_value(existing, value), ',').contains(x)
            <==> (split_on(existing, ',').contains(x) || split_on(value, ',').contains(x)),
{
    let e = non_empty(split_on(existing, ','));
    let v = non_empty(split_on(value, ','));
    let p = add_missing(e, v);
    let merged = join(p, seq![',']);
    lemma_non_empty_contains(split_on(existing, ','), x);
    lemma_non_empty_contains(split_on(value, ','), x);
    assert forall|k: int| 0 <= k < p.len() implies (#[trigger] p[k]).len() > 0 && lacks(p[k], ',') by {
        assert(p.contains(p[k]));
        lemma_add_missing_from(e, v, p[k]);
        if e.contains(p[k]) {
            lemma_non_empty_pieces(existing, p[k]);
        } else {
            lemma_non_empty_pieces(value, p[k]);
        }
    }
    lemma_add_missing_from(e, v, x);
    if e.contains(x) {
        lemma_add_missing_keeps(e, v, x);
    }
    if v.contains(x) {
        let k = choose|k: int| 0 <= k < v.len() && v[k] == x;
        lemma_add_missing_has(e, v, k);
    }
    if p.len() > 0 {
        lemma_split_join(p, ',');
    } else {
        assert(merged =~= Seq::<char>::empty());
        lemma_join_split(merged, ',');
        let pieces = split_on(merged, ',');
        assert forall|k: int| 0 <= k < pieces.len() implies (#[trigger] pieces[k]).len() == 0 by {
            lemma_join_has_piece(pieces, k);
        }
        if pieces.contains(x) {
            let k = choose|k: int| 0 <= k < pieces.len() && pieces[k] == x;
            assert(pieces[k].len() == 0);
        }
    }
}

/// Merging the same value twice is merging it once.
pub proof fn lemma_merged_list_value_idempotent(existing: Seq<char>, value: Seq<char>)
    ensures
        merged_list_value(merged_list_value(existing, value), value) == merged_list_value(existing, value),
{
    let e = non_empty(split_on(existing, ','));
    let v = non_empty(split_on(value, ','));
    let p = add_missing(e, v);
    let once = join(p, seq![',']);
    assert forall|k: int| 0 <= k < p.len() implies (#[trigger] p[k]).len() > 0 && lacks(p[k], ',') by {
        assert(p.contains(p[k]));
        lemma_add_missing_from(e, v, p[k]);
        if e.contains(p[k]) {
            lemma_non_empty_pieces(existing, p[k]);
        } else {
            lemma_non_empty_pieces(value, p[k]);
        }
    }
    if p.len() > 0 {
        lemma_split_join(p, ',');
        lemma_non_empty_all(p);
    } else {
        reveal(Seq::filter);
        assert(once =~= Seq::<char>::empty());
        lemma_join_split(once, ',');
        let pieces = split_on(once, ',');
        assert(pieces.len() > 0);
        assert(join(pieces, seq![',']) =~= Seq::<char>::empty());
        assert forall|k: int| 0 <= k < pieces.len() implies (#[trigger] pieces[k]).len() == 0 by {
            lemma_join_has_piece(pieces, k);
        }
        lemma_non_empty_none(pieces);
        assert(non_empty(pieces) =~= p);
    }
    assert(non_empty(split_on(once, ',')) == p);
    assert forall|k: int| 0 <= k < v.len() implies p.contains(#[trigger] v[k]) by {
        lemma_add_missing_has(e, v, k);
    }
    lemma_add_missing_present(p, v);
}

/// A join is at least as long as each of its pieces.
proof fn lemma_join_has_piece(xs: Seq<Seq<char>>, k: int)
    requires
        0 <= k < xs.len(),
    ensures
        join(xs, seq![',']).len() >= xs[k].len(),
    decreases xs.len(),
{
    if xs.len() > 1 {
        if k > 0 {
            lemma_join_has_piece(xs.drop_first(), k - 1);
        }
    }
}

/// Keeping the non-empty entries of a list of empty entries keeps nothing.
proof fn lemma_non_empty_none(xs: Seq<Seq<char>>)
    requires
        forall|k: int| 0 <= k < xs.len() ==> (#[trigger] xs[k]).len() == 0,
    ensures
        non_empty(xs) == Seq::<Seq<char>>::empty(),
    decreases xs.len(),
{
    let long = |x: Seq<char>| x.len() > 0;
    reveal(Seq::filter);
    if xs.len() > 0 {
        assert forall|k: int| 0 <= k < xs.drop_last().len() implies (#[trigger] xs.drop_last()[k]).len() == 0 by {
            assert(xs.drop_last()[k] == xs[k]);
        }
        lemma_non_empty_none(xs.drop_last());
        assert(xs[xs.len() - 1].len() == 0);
    }
}

/// The positional arguments of a launch: those not starting with `--`.
pub open spec fn positional(args: Seq<Seq<char>>) -> Seq<Seq<char>> {
    args.filter(|a: Seq<char>| !has_prefix(a, "--"@))
}

/// The launch arguments that name something to open: the switches (starting
/// with `--`) left out.
pub fn launch_args(args: Vec<String>) -> (r: Vec<String>)
    ensures
        views(r@) == positional(views(args@)),
{
    let ghost keep = |a: Seq<char>| !has_prefix(a, "--"@);
    let dashes = chars_of("--");
    let mut out: Vec<String> = Vec::new();
    let mut i: usize = 0;
    while i < args.len()
        invariant
            i <= args@.len(),
            dashes@ == "--"@,
            views(out@) == views(args@).take(i as int).filter(keep),
            keep == (|a: Seq<char>| !has_prefix(a, "--"@)),
        decreases args.len() - i,
    {
        let a = &args[i];
        let ac = chars_of(a.as_str());
        proof {
            let av = views(args@);
            assert(av.take(i + 1) =~= av.take(i as int).push(av[i as int]));
            av.take(i as int).lemma_filter_push(av[i as int], keep);
        }
        if !starts_with(&ac, &dashes) {
            let c = a.clone();
            proof {
                out@.lemma_push_map_commute(|s: String| s@, c);
            }
            out.push(c);
        }
        proof {
            assert(views(out@) =~= views(args@).take(i + 1).filter(keep));
        }
        i += 1;
    }
    proof {
        assert(views(args@).take(args@.len() as int) =~= views(args@));
    }
    out
}

} // verus!
