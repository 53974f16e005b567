//! Decimal text for identities and timestamps.
//!
//! Location identities and timestamp strings are built from integers alone,
//! so the library carries its own decimal formatter with an exact
//! character-level specification.

use vstd::prelude::*;

verus! {

/// The decimal digit character of `d`, for `d` in 0..10.
pub open spec fn digit_char(d: int) -> char {
    if d == 0 { '0' }
    else if d == 1 { '1' }
    else if d == 2 { '2' }
    else if d == 3 { '3' }
    else if d == 4 { '4' }
    else if d == 5 { '5' }
    else if d == 6 { '6' }
    else if d == 7 { '7' }
    else if d == 8 { '8' }
    else { '9' }
}

/// The decimal digits of a non-negative `n`, most significant first, with no
/// leading zeros (a single `0` for zero).
pub open spec fn spec_digits(n: int) -> Seq<char>
    recommends
        n >= 0,
    decreases n,
{
    if n < 10 {
        seq![digit_char(n)]
    } else {
        spec_digits(n / 10).push(digit_char(n % 10))
    }
}

/// The decimal digits of `n` zero-padded on the left to exactly `width`
/// characters (the low `width` digits of `n`, for `n` that fits).
pub open spec fn spec_padded(n: int, width: int) -> Seq<char>
    recommends
        n >= 0,
    decreases width,
{
    if width <= 0 {
        Seq::empty()
    } else {
        spec_padded(n / 10, width - 1).push(digit_char(n % 10))
    }
}

/// The decimal digits of a signed `v`: a leading `-` for negative values.
pub open spec fn spec_int_string(v: int) -> Seq<char> {
    if v < 0 {
        seq!['-'] + spec_digits(-v)
    } else {
        spec_digits(v)
    }
}

/// A fraction of `width` decimal places, written out zero-padded with its
/// trailing zeros removed; empty when every place is zero.
pub open spec fn spec_fraction(f: int, width: int) -> Seq<char>
    recommends
        f >= 0,
    decreases width,
{
    if width <= 0 {
        Seq::empty()
    } else if f % 10 == 0 {
        spec_fraction(f / 10, width - 1)
    } else {
        spec_padded(f, width)
    }
}

/// A micro-degree count written as degrees: sign, integer part, and — only
/// when the fractional part is non-zero — a point and the fraction with
/// trailing zeros removed. Values exactly representable in binary64 render
/// as Rust's default float text does.
pub open spec fn spec_micro_string(v: int) -> Seq<char> {
    let sign: Seq<char> = if v < 0 { seq!['-'] } else { Seq::empty() };
    let a = if v < 0 { -v } else { v };
    if a % 1_000_000 == 0 {
        sign + spec_digits(a / 1_000_000)
    } else {
        sign + spec_digits(a / 1_000_000) + seq!['.'] + spec_fraction(a % 1_000_000, 6)
    }
}

/// An ISO 8601 UTC timestamp, `YYYY-MM-DDTHH:MM:SSZ`, always with the
/// literal `Z` zone.
pub open spec fn spec_iso8601(y: int, mo: int, d: int, h: int, mi: int, s: int) -> Seq<char> {
    spec_int_string(y) + seq!['-'] + spec_padded(mo, 2) + seq!['-'] + spec_padded(d, 2)
        + seq!['T'] + spec_padded(h, 2) + seq![':'] + spec_padded(mi, 2) + seq![':']
        + spec_padded(s, 2) + seq!['Z']
}

/// The characters the decimal writer spends on digits.
pub open spec fn is_digit_char(c: char) -> bool {
    c == '0' || c == '1' || c == '2' || c == '3' || c == '4' || c == '5' || c == '6' || c == '7'
        || c == '8' || c == '9'
}

/// Powers of ten, for digit-count bounds.
pub open spec fn pow10(w: int) -> int
    decreases w,
{
    if w <= 0 {
        1
    } else {
        10 * pow10(w - 1)
    }
}

/// An unpadded number writes at least one character, all of them digits,
/// and more than one digit only from ten upward.
proof fn lemma_digits_shape(n: int)
    requires
        n >= 0,
    ensures
        spec_digits(n).len() >= 1,
        n >= 10 ==> spec_digits(n).len() >= 2,
        forall|i: int| 0 <= i < spec_digits(n).len() ==> is_digit_char(#[trigger] spec_digits(n)[i]),
    decreases n,
{
    if n >= 10 {
        lemma_digits_shape(n / 10);
    }
}

/// Two numbers that write the same digits are the same number.
proof fn lemma_digits_injective(m: int, n: int)
    requires
        m >= 0,
        n >= 0,
        spec_digits(m) == spec_digits(n),
    ensures
        m == n,
    decreases m,
{
    lemma_digits_shape(m);
    lemma_digits_shape(n);
    if m < 10 && n < 10 {
        assert(spec_digits(m)[0] == digit_char(m) && spec_digits(n)[0] == digit_char(n));
    } else if m >= 10 && n >= 10 {
        assert(spec_digits(m).last() == digit_char(m % 10));
        assert(spec_digits(n).last() == digit_char(n % 10));
        assert(m % 10 == n % 10);
        assert(spec_digits(m / 10) =~= spec_digits(m).drop_last());
        assert(spec_digits(n / 10) =~= spec_digits(n).drop_last());
        lemma_digits_injective(m / 10, n / 10);
        vstd::arithmetic::div_mod::lemma_fundamental_div_mod(m, 10);
        vstd::arithmetic::div_mod::lemma_fundamental_div_mod(n, 10);
    } else {
        // one writes a single digit, the other at least two
        assert(spec_digits(m).len() == spec_digits(n).len());
        assert(m < 10 <==> spec_digits(m).len() == 1) by {
            if m >= 10 {
                assert(spec_digits(m).len() >= 2);
            }
        }
        assert(n < 10 <==> spec_digits(n).len() == 1) by {
            if n >= 10 {
                assert(spec_digits(n).len() >= 2);
            }
        }
        assert(false);
    }
}

/// A padded number writes exactly `width` characters, all digits.
proof fn lemma_padded_shape(f: int, w: int)
    requires
        f >= 0,
        w >= 0,
    ensures
        spec_padded(f, w).len() == w,
        forall|i: int| 0 <= i < w ==> is_digit_char(#[trigger] spec_padded(f, w)[i]),
    decreases w,
{
    if w > 0 {
        lemma_padded_shape(f / 10, w - 1);
    }
}

/// The quotient shrinks under its bound's quotient.
proof fn lemma_div10_bound(f: int, p: int)
    requires
        0 <= f < 10 * p,
        p >= 1,
    ensures
        0 <= f / 10 < p,
{
    vstd::arithmetic::div_mod::lemma_div_multiples_vanish_fancy(p - 1, 9, 10);
    vstd::arithmetic::div_mod::lemma_div_is_ordered(f, 10 * p - 1, 10);
    assert(10 * p - 1 == 10 * (p - 1) + 9);
}

/// Two numbers under the width's bound that pad to the same characters are
/// the same number.
proof fn lemma_padded_injective(f1: int, f2: int, w: int)
    requires
        w >= 0,
        0 <= f1 < pow10(w),
        0 <= f2 < pow10(w),
        spec_padded(f1, w) == spec_padded(f2, w),
    ensures
        f1 == f2,
    decreases w,
{
    if w == 0 {
        assert(pow10(0) == 1);
    } else {
        assert(spec_padded(f1, w).last() == digit_char(f1 % 10));
        assert(spec_padded(f2, w).last() == digit_char(f2 % 10));
        assert(f1 % 10 == f2 % 10);
        assert(spec_padded(f1 / 10, w - 1) =~= spec_padded(f1, w).drop_last());
        assert(spec_padded(f2 / 10, w - 1) =~= spec_padded(f2, w).drop_last());
        lemma_div10_bound(f1, pow10(w - 1));
        lemma_div10_bound(f2, pow10(w - 1));
        lemma_padded_injective(f1 / 10, f2 / 10, w - 1);
        vstd::arithmetic::div_mod::lemma_fundamental_div_mod(f1, 10);
        vstd::arithmetic::div_mod::lemma_fundamental_div_mod(f2, 10);
    }
}

/// A trimmed fraction writes at most `width` characters, all digits, and
/// exactly `width` of them when the last place is occupied.
proof fn lemma_fraction_shape(f: int, w: int)
    requires
        f >= 0,
        w >= 0,
    ensures
        spec_fraction(f, w).len() <= w,
        f % 10 != 0 ==> spec_fraction(f, w).len() == w,
        forall|i: int| 0 <= i < spec_fraction(f, w).len()
            ==> is_digit_char(#[trigger] spec_fraction(f, w)[i]),
    decreases w,
{
    if w > 0 {
        if f % 10 == 0 {
            lemma_fraction_shape(f / 10, w - 1);
        } else {
            lemma_padded_shape(f, w);
        }
    }
}

/// Two non-zero fractions under the width's bound that write the same
/// trimmed characters are the same fraction: the trailing-zero trim loses
/// nothing.
proof fn lemma_fraction_injective(f1: int, f2: int, w: int)
    requires
        w >= 0,
        0 < f1 < pow10(w),
        0 < f2 < pow10(w),
        spec_fraction(f1, w) == spec_fraction(f2, w),
    ensures
        f1 == f2,
    decreases w,
{
    lemma_fraction_shape(f1, w);
    lemma_fraction_shape(f2, w);
    if f1 % 10 == 0 && f2 % 10 == 0 {
        lemma_div10_bound(f1, pow10(w - 1));
        lemma_div10_bound(f2, pow10(w - 1));
        assert(f1 / 10 > 0 && f2 / 10 > 0) by {
            vstd::arithmetic::div_mod::lemma_fundamental_div_mod(f1, 10);
            vstd::arithmetic::div_mod::lemma_fundamental_div_mod(f2, 10);
        }
        lemma_fraction_injective(f1 / 10, f2 / 10, w - 1);
        vstd::arithmetic::div_mod::lemma_fundamental_div_mod(f1, 10);
        vstd::arithmetic::div_mod::lemma_fundamental_div_mod(f2, 10);
    } else if f1 % 10 != 0 && f2 % 10 != 0 {
        lemma_padded_injective(f1, f2, w);
    } else {
        // one fills the last place, the other trims it: lengths differ
        assert(w > 0);
        if f1 % 10 == 0 {
            lemma_fraction_shape(f1 / 10, w - 1);
        } else {
            lemma_fraction_shape(f2 / 10, w - 1);
        }
        assert(false);
    }
}

/// A micro-degree count below zero leads with the sign; at or above, with
/// a digit. Every later character is a digit or the decimal point —
/// never an underscore, so identities split unambiguously.
pub proof fn lemma_micro_string_shape(v: int)
    ensures
        spec_micro_string(v).len() >= 1,
        v >= 0 ==> is_digit_char(spec_micro_string(v)[0]),
        v < 0 ==> spec_micro_string(v)[0] == '-',
        forall|i: int| 0 <= i < spec_micro_string(v).len()
            ==> (is_digit_char(#[trigger] spec_micro_string(v)[i])
                || spec_micro_string(v)[i] == '-' || spec_micro_string(v)[i] == '.'),
{
    let a = if v < 0 { -v } else { v };
    lemma_digits_shape(a / 1_000_000);
    lemma_fraction_shape(a % 1_000_000, 6);
}

/// The decimal text of a micro-degree count round-trips uniquely: two
/// counts that render alike are the same count.
pub proof fn lemma_micro_string_injective(v1: int, v2: int)
    requires
        spec_micro_string(v1) == spec_micro_string(v2),
    ensures
        v1 == v2,
{
    lemma_micro_string_shape(v1);
    lemma_micro_string_shape(v2);
    if v1 < 0 && v2 >= 0 || v1 >= 0 && v2 < 0 {
        assert(false);
    } else if v1 >= 0 && v2 >= 0 {
        lemma_micro_string_nonneg_injective(v1, v2);
    } else {
        assert(spec_micro_string(-v1) =~= spec_micro_string(v1).skip(1));
        assert(spec_micro_string(-v2) =~= spec_micro_string(v2).skip(1));
        lemma_micro_string_nonneg_injective(-v1, -v2);
    }
}

/// The unsigned half of the round-trip argument.
proof fn lemma_micro_string_nonneg_injective(a1: int, a2: int)
    requires
        a1 >= 0,
        a2 >= 0,
        spec_micro_string(a1) == spec_micro_string(a2),
    ensures
        a1 == a2,
{
    let ip1 = a1 / 1_000_000;
    let fp1 = a1 % 1_000_000;
    let ip2 = a2 / 1_000_000;
    let fp2 = a2 % 1_000_000;
    let s = spec_micro_string(a1);
    lemma_digits_shape(ip1);
    lemma_digits_shape(ip2);
    lemma_fraction_shape(fp1, 6);
    lemma_fraction_shape(fp2, 6);
    vstd::arithmetic::div_mod::lemma_fundamental_div_mod(a1, 1_000_000);
    vstd::arithmetic::div_mod::lemma_fundamental_div_mod(a2, 1_000_000);
    vstd::arithmetic::div_mod::lemma_mod_division_less_than_divisor(a1, 1_000_000);
    vstd::arithmetic::div_mod::lemma_mod_division_less_than_divisor(a2, 1_000_000);
    let l1 = spec_digits(ip1).len() as int;
    let l2 = spec_digits(ip2).len() as int;
    if fp1 == 0 && fp2 == 0 {
        lemma_digits_injective(ip1, ip2);
    } else if fp1 != 0 && fp2 != 0 {
        // the decimal point pins the split: no digit is a point
        assert(s[l1] == '.');
        assert(spec_micro_string(a2)[l2] == '.');
        if l1 < l2 {
            assert(is_digit_char(spec_micro_string(a2)[l1]));
            assert(false);
        }
        if l2 < l1 {
            assert(is_digit_char(s[l2]));
            assert(false);
        }
        assert(spec_digits(ip1) =~= s.take(l1));
        assert(spec_digits(ip2) =~= spec_micro_string(a2).take(l2));
        lemma_digits_injective(ip1, ip2);
        assert(spec_fraction(fp1, 6) =~= s.skip(l1 + 1));
        assert(spec_fraction(fp2, 6) =~= spec_micro_string(a2).skip(l2 + 1));
        assert(pow10(0) == 1);
        assert(pow10(1) == 10);
        assert(pow10(2) == 100);
        assert(pow10(3) == 1_000);
        assert(pow10(4) == 10_000);
        assert(pow10(5) == 100_000);
        assert(pow10(6) == 1_000_000);
        lemma_fraction_injective(fp1, fp2, 6);
    } else {
        // one writes a point, the other only digits
        if fp1 != 0 {
            assert(s[l1] == '.');
            assert(is_digit_char(spec_micro_string(a2)[l1]));
        } else {
            assert(spec_micro_string(a2)[l2] == '.');
            assert(is_digit_char(s[l2]));
        }
        assert(false);
    }
}

/// The one-character string of the decimal digit `d`.
fn digit_str(d: u64) -> (r: &'static str)
    requires
        d < 10,
    ensures
        r@ =~= seq![digit_char(d as int)],
{
    proof {
        reveal_strlit("0");
        reveal_strlit("1");
        reveal_strlit("2");
        reveal_strlit("3");
        reveal_strlit("4");
        reveal_strlit("5");
        reveal_strlit("6");
        reveal_strlit("7");
        reveal_strlit("8");
        reveal_strlit("9");
    }
    match d {
        0 => "0",
        1 => "1",
        2 => "2",
        3 => "3",
        4 => "4",
        5 => "5",
        6 => "6",
        7 => "7",
        8 => "8",
        _ => "9",
    }
}

/// Writes a non-negative number in decimal, no leading zeros.
pub fn u64_to_string(n: u64) -> (s: String)
    ensures
        s@ == spec_digits(n as int),
    decreases n,
{
    if n < 10 {
        String::from_str(digit_str(n))
    } else {
        let mut s = u64_to_string(n / 10);
        s.append(digit_str(n % 10));
        proof {
            assert(s@ =~= spec_digits(n as int));
        }
        s
    }
}

/// Appends the low `width` decimal digits of `n`, zero-padded.
fn append_padded(s: &mut String, n: u64, width: u64)
    ensures
        final(s)@ == old(s)@ + spec_padded(n as int, width as int),
    decreases width,
{
    if width == 0 {
        proof {
            assert(old(s)@ + spec_padded(n as int, 0) =~= old(s)@);
        }
    } else {
        append_padded(s, n / 10, width - 1);
        s.append(digit_str(n % 10));
        proof {
            assert(old(s)@ + spec_padded(n as int, width as int)
                =~= old(s)@ + spec_padded(n as int / 10, width as int - 1)
                    + seq![digit_char(n as int % 10)]);
        }
    }
}

/// Writes a signed number in decimal with a leading `-` when negative.
pub fn i64_to_string(v: i64) -> (s: String)
    requires
        v > i64::MIN,
    ensures
        s@ == spec_int_string(v as int),
{
    if v < 0 {
        let mut s = String::from_str("-");
        proof {
            reveal_strlit("-");
            assert(s@ =~= seq!['-']);
        }
        s.append(u64_to_string((-v) as u64).as_str());
        s
    } else {
        u64_to_string(v as u64)
    }
}

/// Writes a micro-degree count as degrees, trailing zeros trimmed from the
/// fraction and the point omitted when the fraction is zero.
pub fn micro_to_string(v: i64) -> (s: String)
    requires
        v > i64::MIN,
    ensures
        s@ == spec_micro_string(v as int),
{
    let a: u64 = if v < 0 { (-v) as u64 } else { v as u64 };
    let mut s = if v < 0 {
        let t = String::from_str("-");
        proof {
            reveal_strlit("-");
            assert(t@ =~= seq!['-']);
        }
        t
    } else {
        String::new()
    };
    s.append(u64_to_string(a / 1_000_000).as_str());
    let mut f: u64 = a % 1_000_000;
    if f != 0 {
        s.append(".");
        proof {
            reveal_strlit(".");
        }
        let ghost full_f: int = f as int;
        let mut width: u64 = 6;
        while f % 10 == 0
            invariant
                0 < width <= 6,
                f > 0,
                width == 6 ==> f < 1_000_000,
                width == 5 ==> f < 100_000,
                width == 4 ==> f < 10_000,
                width == 3 ==> f < 1_000,
                width == 2 ==> f < 100,
                width == 1 ==> f < 10,
                spec_fraction(f as int, width as int) == spec_fraction(full_f, 6),
            decreases f,
        {
            // a width of one digit and a trailing zero would mean the digit
            // itself is zero, against f > 0
            assert(width > 1);
            f = f / 10;
            width = width - 1;
        }
        append_padded(&mut s, f, width);
        proof {
            assert(spec_fraction(f as int, width as int) == spec_padded(f as int, width as int));
        }
    }
    proof {
        assert(s@ =~= spec_micro_string(v as int));
    }
    s
}

/// Writes an ISO 8601 UTC timestamp from its broken-down fields.
pub fn iso8601_string(y: i32, mo: u32, d: u32, h: u32, mi: u32, sec: u32) -> (s: String)
    ensures
        s@ == spec_iso8601(y as int, mo as int, d as int, h as int, mi as int, sec as int),
{
    let mut s = i64_to_string(y as i64);
    proof {
        reveal_strlit("-");
        reveal_strlit("T");
        reveal_strlit(":");
        reveal_strlit("Z");
    }
    s.append("-");
    append_padded(&mut s, mo as u64, 2);
    s.append("-");
    append_padded(&mut s, d as u64, 2);
    s.append("T");
    append_padded(&mut s, h as u64, 2);
    s.append(":");
    append_padded(&mut s, mi as u64, 2);
    s.append(":");
    append_padded(&mut s, sec as u64, 2);
    s.append("Z");
    proof {
        assert(s@ =~= spec_iso8601(y as int, mo as int, d as int, h as int, mi as int, sec as int));
    }
    s
}

} // verus!
