//! Reading a setting's value out of the text that the page sends.

use vstd::prelude::*;
use crate::text::{chars_of, str_eq};

verus! {

/// A setting's value, as far as its text reads as a boolean or an integer.
#[derive(Copy, Clone, Debug, PartialEq, Eq)]
pub enum SettingValue {
    /// `true` or `false`.
    Bool(bool),
    /// A decimal integer that fits an `i64`.
    Int(i64),
    /// Neither: a number with a fraction, or text.
    Other,
}

/// An ASCII decimal digit.
pub open spec fn is_digit(c: char) -> bool {
    '0' <= c <= '9'
}

/// One or more ASCII decimal digits.
pub open spec fn all_digits(s: Seq<char>) -> bool {
    s.len() > 0 && forall|k: int| 0 <= k < s.len() ==> is_digit(#[trigger] s[k])
}

/// The number that a run of decimal digits denotes.
pub open spec fn decimal(s: Seq<char>) -> int
    decreases s.len(),
{
    if s.len() == 0 {
        0
    } else {
        decimal(s.drop_last()) * 10 + ((s.last() as int) - 48)
    }
}

/// The integer that `s` denotes as `str::parse::<i64>` reads it, before the
/// range check: an optional sign, then one or more decimal digits.
pub open spec fn int_literal(s: Seq<char>) -> Option<int> {
    if s.len() > 0 && s[0] == '-' && all_digits(s.drop_first()) {
        Some(-decimal(s.drop_first()))
    } else if s.len() > 0 && s[0] == '+' && all_digits(s.drop_first()) {
        Some(decimal(s.drop_first()))
    } else if all_digits(s) {
        Some(decimal(s))
    } else {
        None
    }
}

/// The value that the text of a setting reads as: `bool`'s and then
/// `i64`'s `FromStr`.
pub open spec fn setting_value_of(s: Seq<char>) -> SettingValue {
    if s == "true"@ {
        SettingValue::Bool(true)
    } else if s == "false"@ {
        SettingValue::Bool(false)
    } else {
        match int_literal(s) {
            Some(v) => if i64::MIN <= v <= i64::MAX { SettingValue::Int(v as i64) } else { SettingValue::Other },
            None => SettingValue::Other,
        }
    }
}

proof fn lemma_decimal_nonneg(s: Seq<char>)
    requires
        forall|k: int| 0 <= k < s.len() ==> is_digit(#[trigger] s[k]),
    ensures
        decimal(s) >= 0,
    decreases s.len(),
{
    if s.len() > 0 {
        assert forall|k: int| 0 <= k < s.drop_last().len() implies is_digit(#[trigger] s.drop_last()[k]) by {
            assert(s.drop_last()[k] == s[k]);
        }
        lemma_decimal_nonneg(s.drop_last());
        assert(is_digit(s[s.len() - 1]));
    }
}

/// A run of digits denotes at least what any of its prefixes does.
proof fn lemma_decimal_prefix(s: Seq<char>, n: int)
    requires
        0 <= n <= s.len(),
        forall|k: int| 0 <= k < s.len() ==> is_digit(#[trigger] s[k]),
    ensures
        decimal(s.take(n)) <= decimal(s),
    decreases s.len(),
{
    if n < s.len() {
        assert forall|k: int| 0 <= k < s.drop_last().len() implies is_digit(#[trigger] s.drop_last()[k]) by {
            assert(s.drop_last()[k] == s[k]);
        }
        lemma_decimal_prefix(s.drop_last(), n);
        assert(s.drop_last().take(n) =~= s.take(n));
        lemma_decimal_nonneg(s.drop_last());
        assert(is_digit(s[s.len() - 1]));
    } else {
        assert(s.take(n) =~= s);
    }
}

/// Every non-empty run of ASCII digits whose value fits an `i64` reads as
/// that integer (`0` and leading zeros included); with a `-` in front it
/// reads as the negation, with a `+` as the same integer.
pub proof fn lemma_digits_read_as_int(s: Seq<char>)
    requires
        all_digits(s),
        decimal(s) <= i64::MAX,
    ensures
        setting_value_of(s) == SettingValue::Int(decimal(s) as i64),
        setting_value_of(seq!['-'] + s) == SettingValue::Int((-decimal(s)) as i64),
        setting_value_of(seq!['+'] + s) == SettingValue::Int(decimal(s) as i64),
{
    reveal_strlit("true");
    reveal_strlit("false");
    lemma_decimal_nonneg(s);
    assert(is_digit(s[0]));
    assert(s != "true"@ && s != "false"@) by {
        if s == "true"@ {
            assert(s[0] == 't');
        }
        if s == "false"@ {
            assert(s[0] == 'f');
        }
    }
    let neg = seq!['-'] + s;
    let pos = seq!['+'] + s;
    assert(neg.drop_first() =~= s);
    assert(pos.drop_first() =~= s);
    assert(neg[0] == '-' && pos[0] == '+');
    assert(neg != "true"@ && neg != "false"@) by {
        if neg == "true"@ {
            assert(neg[0] == 't');
        }
        if neg == "false"@ {
            assert(neg[0] == 'f');
        }
    }
    assert(pos != "true"@ && pos != "false"@) by {
        if pos == "true"@ {
            assert(pos[0] == 't');
        }
        if pos == "false"@ {
            assert(pos[0] == 'f');
        }
    }
}

/// `true` and `false` read as booleans; a run of digits too large for an
/// `i64` reads as neither; so does `-` followed by one, except that
/// `-9223372036854775808` is the smallest `i64`.
pub proof fn lemma_other_setting_values(s: Seq<char>)
    ensures
        setting_value_of("true"@) == SettingValue::Bool(true),
        setting_value_of("false"@) == SettingValue::Bool(false),
        all_digits(s) && decimal(s) > i64::MAX ==> setting_value_of(s) == SettingValue::Other,
        all_digits(s) && decimal(s) > i64::MAX + 1 ==> setting_value_of(seq!['-'] + s) == SettingValue::Other,
        all_digits(s) && decimal(s) == i64::MAX + 1 ==> setting_value_of(seq!['-'] + s) == SettingValue::Int(i64::MIN),
{
    reveal_strlit("true");
    reveal_strlit("false");
    assert("false"@.len() != "true"@.len());
    if all_digits(s) {
        assert(is_digit(s[0]));
        if s == "true"@ {
            assert(s[0] == 't');
        }
        if s == "false"@ {
            assert(s[0] == 'f');
        }
        let neg = seq!['-'] + s;
        assert(neg.drop_first() =~= s);
        assert(neg[0] == '-');
        if neg == "true"@ {
            assert(neg[0] == 't');
        }
        if neg == "false"@ {
            assert(neg[0] == 'f');
        }
    }
}

/// Text with anything but a digit after its first character (and that is not
/// `true` or `false`), and the empty text, read as neither a boolean nor an
/// integer.
pub proof fn lemma_non_numbers_are_other(s: Seq<char>, k: int)
    requires
        s.len() == 0 || (1 <= k < s.len() && !is_digit(s[k])),
        s != "true"@,
        s != "false"@,
    ensures
        setting_value_of(s) == SettingValue::Other,
{
    if s.len() > 0 {
        assert(s.drop_first()[k - 1] == s[k]);
    }
}

/// What the text of a setting reads as (see `setting_value_of`).
pub fn setting_value(text: &str) -> (r: SettingValue)
    ensures
        r == setting_value_of(text@),
{
    if str_eq(text, "true") {
        return SettingValue::Bool(true);
    }
    if str_eq(text, "false") {
        return SettingValue::Bool(false);
    }
    let cs = chars_of(text);
    let n = cs.len();
    let negative = n > 0 && cs[0] == '-';
    let start: usize = if n > 0 && (cs[0] == '-' || cs[0] == '+') { 1 } else { 0 };
    if start >= n {
        proof {
            if n > 0 {
                assert(text@.drop_first().len() == 0);
            }
        }
        return SettingValue::Other;
    }
    let ghost digits = text@.skip(start as int);
    proof {
        if start == 1 {
            assert(digits =~= text@.drop_first());
        } else {
            assert(digits =~= text@);
        }
    }
    let limit: u128 = 9223372036854775808;
    let mut mag: u128 = 0;
    let mut i: usize = start;
    while i < n
        invariant
            cs@ == text@,
            n == cs@.len(),
            start <= i <= n,
            digits == text@.skip(start as int),
            forall|k: int| 0 <= k < i - start ==> is_digit(#[trigger] digits[k]),
            mag == decimal(digits.take(i - start)),
            mag <= limit,
            limit == 9223372036854775808u128,
            text@ != "true"@,
            text@ != "false"@,
            n > 0,
            negative == (text@[0] == '-'),
            start <= 1,
            start == 1 ==> (text@[0] == '-' || text@[0] == '+'),
            start == 0 ==> !(text@[0] == '-' || text@[0] == '+'),
            start == 1 ==> digits == text@.drop_first(),
            start == 0 ==> digits == text@,
        decreases n - i,
    {
        let c = cs[i];
        if !('0' <= c && c <= '9') {
            proof {
                assert(digits[i - start] == c);
                assert(!all_digits(digits));
                if start == 0 {
                    assert(digits[0] == text@[0]);
                } else {
                    assert(!is_digit(text@[0]));
                }
            }
            return SettingValue::Other;
        }
        let d = (c as u32 - 48) as u128;
        let next = mag * 10 + d;
        proof {
            assert(digits[i - start] == c);
            assert(digits.take(i - start + 1).drop_last() =~= digits.take(i - start));
        }
        if next > limit {
            proof {
                if all_digits(digits) {
                    lemma_decimal_prefix(digits, i - start + 1);
                }
                if start == 0 {
                    assert(digits[0] == text@[0]);
                }
            }
            return SettingValue::Other;
        }
        mag = next;
        i += 1;
    }
    proof {
        assert(digits.take(i - start) =~= digits);
        assert(all_digits(digits));
    }
    if negative {
        let v = (0 - (mag as i128)) as i64;
        SettingValue::Int(v)
    } else if mag <= 9223372036854775807 {
        SettingValue::Int(mag as i64)
    } else {
        SettingValue::Other
    }
}

} // verus!
