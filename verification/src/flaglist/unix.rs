//! Switches under CEF: those that only WebView2 understands are dropped, and
//! Edge-only names are taken out of feature lists.

use vstd::prelude::*;
use crate::flaglist::{UserFlags, merge, defaults};
use crate::lists::merged;
use crate::json::string_array_or_empty;
use crate::constants::DEFAULT_FLAGS;
use crate::text::{
    lacks, views, str_views, has_prefix, ends_with_char, find_seq, split_on, join, chars_of, starts_with,
    find_char_from, chars_eq, contains_chars, split_char, join_strs, slice,
};

verus! {

/// Switches that only WebView2 understands (matched as prefixes).
pub open spec fn windows_only_flags() -> Seq<Seq<char>> {
    seq!["--enable-waitable-swap-chain"@, "--raise-timer-frequency"@]
}

/// Feature names that only Edge knows.
pub open spec fn windows_only_features() -> Seq<Seq<char>> {
    seq!["msWebOOUI"@, "msPdfOOUI"@, "msSmartScreenProtection"@, "CalculateNativeWinOcclusion"@,
        "slow-dc-timer-interrupts-win"@]
}

/// `flag` starts with one of the WebView2-only switches.
pub open spec fn is_windows_only_flag(flag: Seq<char>) -> bool {
    exists|k: int| 0 <= k < windows_only_flags().len() && has_prefix(flag, #[trigger] windows_only_flags()[k])
}

/// `flag` with the Edge-only names taken out of its list, when it is an
/// `--enable-features=` or `--disable-features=` switch; otherwise `flag`.
pub open spec fn stripped(flag: Seq<char>) -> Seq<char> {
    match find_seq(flag, seq!['=']) {
        Some(i) => {
            let prefix = flag.take(i);
            if prefix == "--enable-features"@ || prefix == "--disable-features"@ {
                prefix + seq!['='] + join(
                    split_on(flag.skip(i + 1), ',').filter(|f: Seq<char>| !windows_only_features().contains(f)),
                    seq![','],
                )
            } else {
                flag
            }
        },
        None => flag,
    }
}

/// The switches that apply under CEF: WebView2-only switches dropped, feature
/// lists stripped, and switches left with an empty value (ending in `=`)
/// dropped.
pub open spec fn platform_flags(flags: Seq<Seq<char>>) -> Seq<Seq<char>> {
    flags.filter(|f: Seq<char>| !is_windows_only_flag(f))
        .map_values(|f: Seq<char>| stripped(f))
        .filter(|f: Seq<char>| !ends_with_char(f, '='))
}

fn windows_only_flag_list() -> (r: Vec<&'static str>)
    ensures
        str_views(r@) == windows_only_flags(),
{
    let r = vec!["--enable-waitable-swap-chain", "--raise-timer-frequency"];
    assert(str_views(r@) =~= windows_only_flags());
    r
}

fn windows_only_feature_list() -> (r: Vec<&'static str>)
    ensures
        str_views(r@) == windows_only_features(),
{
    let r = vec![
        "msWebOOUI",
        "msPdfOOUI",
        "msSmartScreenProtection",
        "CalculateNativeWinOcclusion",
        "slow-dc-timer-interrupts-win",
    ];
    assert(str_views(r@) =~= windows_only_features());
    r
}

fn windows_only_flag(flag: &Vec<char>) -> (r: bool)
    ensures
        r == is_windows_only_flag(flag@),
{
    let list = windows_only_flag_list();
    let mut k: usize = 0;
    while k < list.len()
        invariant
            k <= list@.len(),
            str_views(list@) == windows_only_flags(),
            forall|m: int| 0 <= m < k ==> !has_prefix(flag@, #[trigger] windows_only_flags()[m]),
        decreases list.len() - k,
    {
        let w = chars_of(list[k]);
        assert(w@ == windows_only_flags()[k as int]);
        if starts_with(flag, &w) {
            return true;
        }
        k += 1;
    }
    false
}

fn strip_windows_features(flag: &str) -> (r: String)
    ensures
        r@ == stripped(flag@),
{
    let cs = chars_of(flag);
    match find_char_from(&cs, '=', 0) {
        None => String::from_str(flag),
        Some(i) => {
            let prefix = slice(flag, 0, i);
            let prefix_chars = chars_of(prefix);
            let enable = chars_of("--enable-features");
            let disable = chars_of("--disable-features");
            proof {
                assert(prefix@ =~= flag@.take(i as int));
            }
            if !chars_eq(&prefix_chars, &enable) && !chars_eq(&prefix_chars, &disable) {
                return String::from_str(flag);
            }
            assert(i < cs.len());
            let list = slice(flag, i + 1, cs.len());
            proof {
                assert(list@ =~= flag@.skip(i + 1));
            }
            let features = split_char(list, ',');
            let windows_only = windows_only_feature_list();
            let ghost keep = |f: Seq<char>| !windows_only_features().contains(f);
            let mut kept: Vec<&str> = Vec::new();
            let mut k: usize = 0;
            while k < features.len()
                invariant
                    k <= features@.len(),
                    str_views(windows_only@) == windows_only_features(),
                    str_views(kept@) == str_views(features@).take(k as int).filter(keep),
                    keep == (|f: Seq<char>| !windows_only_features().contains(f)),
                decreases features.len() - k,
            {
                let feature = features[k];
                let fc = chars_of(feature);
                let drop = contains_chars(&windows_only, &fc);
                proof {
                    let fv = str_views(features@);
                    assert(fv.take(k + 1) =~= fv.take(k as int).push(fv[k as int]));
                    fv.take(k as int).lemma_filter_push(fv[k as int], keep);
                }
                if !drop {
                    kept.push(feature);
                }
                proof {
                    assert(str_views(kept@) =~= str_views(features@).take(k + 1).filter(keep));
                }
                k += 1;
            }
            proof {
                assert(str_views(features@).take(features@.len() as int) =~= str_views(features@));
            }
            let joined = join_strs(&kept, ",");
            let mut out = String::from_str(prefix);
            out.append("=");
            out.append(joined.as_str());
            proof {
                reveal_strlit("=");
                reveal_strlit(",");
                assert(seq![','] =~= ","@);
                assert(out@ =~= stripped(flag@));
            }
            out
        },
    }
}

/// The switches that apply under CEF (see `platform_flags`).
pub fn filter_for_platform(flags: Vec<String>) -> (r: Vec<String>)
    ensures
        views(r@) == platform_flags(views(flags@)),
{
    let ghost not_windows = |f: Seq<char>| !is_windows_only_flag(f);
    let ghost strip = |f: Seq<char>| stripped(f);
    let ghost has_value = |f: Seq<char>| !ends_with_char(f, '=');
    let mut out: Vec<String> = Vec::new();
    let mut i: usize = 0;
    while i < flags.len()
        invariant
            i <= flags@.len(),
            views(out@) == platform_flags(views(flags@).take(i as int)),
            not_windows == (|f: Seq<char>| !is_windows_only_flag(f)),
            strip == (|f: Seq<char>| stripped(f)),
            has_value == (|f: Seq<char>| !ends_with_char(f, '=')),
        decreases flags.len() - i,
    {
        let flag = flags[i].as_str();
        let cs = chars_of(flag);
        let ghost fv = views(flags@);
        let ghost x = fv[i as int];
        proof {
            let xs = fv.take(i as int);
            assert(fv.take(i + 1) =~= xs.push(x));
            xs.lemma_filter_push(x, not_windows);
            let a = xs.filter(not_windows);
            a.lemma_push_map_commute(strip, x);
            let b = a.map_values(strip);
            b.lemma_filter_push(stripped(x), has_value);
        }
        if !windows_only_flag(&cs) {
            let s = strip_windows_features(flag);
            let n = s.as_str().unicode_len();
            let ends_eq = n > 0 && s.as_str().get_char(n - 1) == '=';
            if !ends_eq {
                let ghost before = out@;
                proof {
                    before.lemma_push_map_commute(|t: String| t@, s);
                }
                out.push(s);
            }
        }
        proof {
            assert(views(out@) =~= platform_flags(views(flags@).take(i + 1)));
        }
        i += 1;
    }
    proof {
        assert(views(flags@).take(flags@.len() as int) =~= views(flags@));
    }
    out
}

/// The switch that lifts the frame rate cap.
pub open spec fn uncapped_fps_flag() -> Seq<char> {
    "--disable-frame-rate-limit"@
}

/// The switches that CEF starts with: the merged list cleaned up for CEF,
/// then the frame rate switch when the frame rate is uncapped.
pub fn launch_flags(user: &UserFlags, uncap_fps: bool) -> (r: Vec<String>)
    requires
        user.wf(),
    ensures
        views(r@) == platform_flags(merged(string_array_or_empty(DEFAULT_FLAGS@), views(user.disabled_defaults@), views(user.flags@)))
            + if uncap_fps { seq![uncapped_fps_flag()] } else { Seq::empty() },
{
    let mut flags = filter_for_platform(merge(defaults(), user));
    if uncap_fps {
        let extra = String::from_str("--disable-frame-rate-limit");
        proof {
            flags@.lemma_push_map_commute(|s: String| s@, extra);
        }
        flags.push(extra);
    }
    proof {
        assert(views(flags@) =~= platform_flags(merged(string_array_or_empty(DEFAULT_FLAGS@), views(user.disabled_defaults@), views(user.flags@)))
            + if uncap_fps { seq![uncapped_fps_flag()] } else { Seq::empty() });
    }
    flags
}

// ------------------------------------------------------------------ laws

/// A filter that keeps every element keeps the sequence whole.
proof fn lemma_filter_keeps_all<A>(s: Seq<A>, pred: spec_fn(A) -> bool)
    requires
        forall|k: int| 0 <= k < s.len() ==> pred(#[trigger] s[k]),
    ensures
        s.filter(pred) == s,
    decreases s.len(),
{
    reveal(Seq::filter);
    if s.len() > 0 {
        assert forall|k: int| 0 <= k < s.drop_last().len() implies pred(#[trigger] s.drop_last()[k]) by {
            assert(s.drop_last()[k] == s[k]);
        }
        lemma_filter_keeps_all(s.drop_last(), pred);
        assert(pred(s[s.len() - 1]));
        assert(s.drop_last().push(s.last()) =~= s);
    }
}

/// A feature switch keeps its prefix in front, and no switch that CEF keeps
/// starts like a WebView2-only one.
proof fn lemma_feature_switch_not_windows_only(y: Seq<char>)
    requires
        has_prefix(y, "--enable-features"@) || has_prefix(y, "--disable-features"@),
    ensures
        !is_windows_only_flag(y),
{
    reveal_strlit("--enable-features");
    reveal_strlit("--disable-features");
    reveal_strlit("--enable-waitable-swap-chain");
    reveal_strlit("--raise-timer-frequency");
    let e = "--enable-features"@;
    let d = "--disable-features"@;
    let w1 = "--enable-waitable-swap-chain"@;
    let w2 = "--raise-timer-frequency"@;
    assert(windows_only_flags()[0] == w1);
    assert(windows_only_flags()[1] == w2);
    if has_prefix(y, e) {
        assert(y[9] == y.take(e.len() as int)[9]);
        assert(y[2] == y.take(e.len() as int)[2]);
        if has_prefix(y, w1) {
            assert(y[9] == y.take(w1.len() as int)[9]);
        }
        if has_prefix(y, w2) {
            assert(y[2] == y.take(w2.len() as int)[2]);
        }
    } else {
        assert(y[2] == y.take(d.len() as int)[2]);
        if has_prefix(y, w1) {
            assert(y[2] == y.take(w1.len() as int)[2]);
        }
        if has_prefix(y, w2) {
            assert(y[2] == y.take(w2.len() as int)[2]);
        }
    }
}

/// A switch that CEF keeps is left as it is by a second clean-up.
proof fn lemma_kept_switch_is_fixed(x: Seq<char>)
    requires
        !is_windows_only_flag(x),
        !ends_with_char(stripped(x), '='),
    ensures
        !is_windows_only_flag(stripped(x)),
        stripped(stripped(x)) == stripped(x),
{
    let keep = |f: Seq<char>| !windows_only_features().contains(f);
    match find_seq(x, seq!['=']) {
        Some(i) => {
            let p = x.take(i);
            if p == "--enable-features"@ || p == "--disable-features"@ {
                let fo = choose|j: int| crate::text::first_occurrence(x, seq!['='], j);
                assert(crate::text::first_occurrence(x, seq!['='], fo));
                assert(lacks(p, '=')) by {
                    assert forall|k: int| 0 <= k < p.len() implies #[trigger] p[k] != '=' by {
                        assert(!crate::text::occurs_at(x, seq!['='], k));
                        crate::text::lemma_occurs_char(x, '=', k);
                    }
                }
                let pieces = split_on(x.skip(i + 1), ',');
                let kept = pieces.filter(keep);
                let joined = join(kept, seq![',']);
                let y = p + seq!['='] + joined;
                assert(stripped(x) == y);
                // the prefix is still there
                assert(y.take(p.len() as int) =~= p);
                lemma_feature_switch_not_windows_only(y);
                // nothing was kept: the switch ends in `=`
                if kept.len() == 0 {
                    assert(joined =~= Seq::<char>::empty());
                    assert(y.last() == '=');
                }
                assert(kept.len() > 0);
                // the kept names hold no `,` and none is Edge-only
                crate::text::lemma_split_pieces_lack(x.skip(i + 1), ',');
                assert forall|k: int| 0 <= k < kept.len() implies lacks(#[trigger] kept[k], ',') && keep(kept[k]) by {
                    pieces.lemma_filter_pred(keep, k);
                    assert(kept.contains(kept[k]));
                    pieces.lemma_filter_contains_rev(keep, kept[k]);
                    let m = choose|m: int| 0 <= m < pieces.len() && pieces[m] == kept[k];
                    assert(lacks(pieces[m], ','));
                }
                crate::text::lemma_split_join(kept, ',');
                lemma_filter_keeps_all(kept, keep);
                crate::text::lemma_find_char_after(p, '=', joined);
                assert(y.skip(p.len() as int + 1) =~= joined);
            }
        },
        None => {},
    }
}

/// A cleaned-up list that is cleaned up again stays as it is.
proof fn lemma_platform_flags_of_fixed(ys: Seq<Seq<char>>)
    requires
        forall|k: int| 0 <= k < ys.len() ==> !is_windows_only_flag(#[trigger] ys[k]) && stripped(ys[k]) == ys[k]
            && !ends_with_char(ys[k], '='),
    ensures
        platform_flags(ys) == ys,
{
    let not_windows = |f: Seq<char>| !is_windows_only_flag(f);
    let strip = |f: Seq<char>| stripped(f);
    let has_value = |f: Seq<char>| !ends_with_char(f, '=');
    lemma_filter_keeps_all(ys, not_windows);
    assert(ys.map_values(strip) =~= ys);
    lemma_filter_keeps_all(ys, has_value);
}

/// Cleaning up the switches for CEF twice is cleaning them up once.
pub proof fn lemma_platform_flags_idempotent(flags: Seq<Seq<char>>)
    ensures
        platform_flags(platform_flags(flags)) == platform_flags(flags),
{
    let not_windows = |f: Seq<char>| !is_windows_only_flag(f);
    let strip = |f: Seq<char>| stripped(f);
    let has_value = |f: Seq<char>| !ends_with_char(f, '=');
    let a = flags.filter(not_windows);
    let b = a.map_values(strip);
    let ys = b.filter(has_value);
    assert(ys == platform_flags(flags));
    assert forall|k: int| 0 <= k < ys.len() implies !is_windows_only_flag(#[trigger] ys[k]) && stripped(ys[k]) == ys[k]
        && !ends_with_char(ys[k], '=') by {
        b.lemma_filter_pred(has_value, k);
        assert(ys.contains(ys[k]));
        b.lemma_filter_contains_rev(has_value, ys[k]);
        let m = choose|m: int| 0 <= m < b.len() && b[m] == ys[k];
        assert(b.len() == a.len());
        assert(b[m] == stripped(a[m]));
        flags.lemma_filter_pred(not_windows, m);
        lemma_kept_switch_is_fixed(a[m]);
    }
    lemma_platform_flags_of_fixed(ys);
}

} // verus!
