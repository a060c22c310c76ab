//! Picosecond-precise duration values and their lossless rendering.
//!
//! A `FineDuration` stores a plain picosecond count in a `u128`. Rendering
//! picks the coarsest scale from a gap-free, non-overlapping partition of the
//! picosecond number line, prints at most four significant digits with the
//! fractional tail truncated (never rounded), and above one thousand days
//! falls back to an exact integer day count so that no precision is lost at
//! extreme magnitudes.

use vstd::prelude::*;

verus! {

use vstd::string::StringExecFns;

/// Picoseconds in one nanosecond.
pub const NANOS: u128 = 1_000;
/// Picoseconds in one microsecond.
pub const MICROS: u128 = 1_000_000;
/// Picoseconds in one millisecond.
pub const MILLIS: u128 = 1_000_000_000;
/// Picoseconds in one second.
pub const SEC: u128 = 1_000_000_000_000;
/// Picoseconds in one minute.
pub const MIN: u128 = 60_000_000_000_000;
/// Picoseconds in one hour.
pub const HOUR: u128 = 3_600_000_000_000_000;
/// Picoseconds in one day.
pub const DAY: u128 = 86_400_000_000_000_000;

/// The largest nanosecond count a coarser 64-bit second / 32-bit nanosecond
/// clock value can hold: `u64::MAX` seconds plus `999_999_999` nanoseconds.
pub const MAX_CLOCK_NANOS: u128 = 18_446_744_073_709_551_615_999_999_999;

/// Picosecond-precise duration.
#[derive(Clone, Copy, Debug, Default, PartialEq, Eq, Structural, PartialOrd, Ord)]
pub struct FineDuration {
    pub picos: u128,
}

/// Scale of time at which a picosecond count is rendered.
#[derive(Clone, Copy, Debug, PartialEq, Eq, Structural, PartialOrd, Ord)]
pub enum TimeScale {
    PicoSec,
    NanoSec,
    MicroSec,
    MilliSec,
    Sec,
    Min,
    Hour,
    Day,
}

/// The scale whose half-open picosecond interval contains `p`.
pub open spec fn scale_of(p: int) -> TimeScale {
    if p < NANOS {
        TimeScale::PicoSec
    } else if p < MICROS {
        TimeScale::NanoSec
    } else if p < MILLIS {
        TimeScale::MicroSec
    } else if p < SEC {
        TimeScale::MilliSec
    } else if p < MIN {
        TimeScale::Sec
    } else if p < HOUR {
        TimeScale::Min
    } else if p < DAY {
        TimeScale::Hour
    } else {
        TimeScale::Day
    }
}

/// Picoseconds needed to reach scale `s`: the lower bound of its interval,
/// except that the picosecond scale starts at zero and has unit 1.
pub open spec fn scale_unit(s: TimeScale) -> int {
    match s {
        TimeScale::PicoSec => 1,
        TimeScale::NanoSec => NANOS as int,
        TimeScale::MicroSec => MICROS as int,
        TimeScale::MilliSec => MILLIS as int,
        TimeScale::Sec => SEC as int,
        TimeScale::Min => MIN as int,
        TimeScale::Hour => HOUR as int,
        TimeScale::Day => DAY as int,
    }
}

/// Membership of a picosecond count `p` in the half-open interval of scale
/// `s`. The eight intervals tile the whole non-negative number line.
pub open spec fn in_scale(s: TimeScale, p: int) -> bool {
    match s {
        TimeScale::PicoSec => 0 <= p < NANOS,
        TimeScale::NanoSec => NANOS <= p < MICROS,
        TimeScale::MicroSec => MICROS <= p < MILLIS,
        TimeScale::MilliSec => MILLIS <= p < SEC,
        TimeScale::Sec => SEC <= p < MIN,
        TimeScale::Min => MIN <= p < HOUR,
        TimeScale::Hour => HOUR <= p < DAY,
        TimeScale::Day => DAY <= p,
    }
}

/// The unit suffix of scale `s`, as a character sequence.
pub open spec fn suffix_chars(s: TimeScale) -> Seq<char> {
    match s {
        TimeScale::PicoSec => seq!['p', 's'],
        TimeScale::NanoSec => seq!['n', 's'],
        TimeScale::MicroSec => seq!['µ', 's'],
        TimeScale::MilliSec => seq!['m', 's'],
        TimeScale::Sec => seq!['s'],
        TimeScale::Min => seq!['m'],
        TimeScale::Hour => seq!['h'],
        TimeScale::Day => seq!['d'],
    }
}

/// Every non-negative picosecond count lies in the interval of exactly one
/// scale, and that scale is `scale_of(p)`: the eight intervals partition the
/// picosecond number line with no gaps and no overlaps.
pub proof fn lemma_scales_partition(p: int)
    requires
        p >= 0,
    ensures
        in_scale(scale_of(p), p),
        forall|s: TimeScale| in_scale(s, p) ==> s == scale_of(p),
{
}

/// The character for one decimal digit value.
pub open spec fn digit_char(d: int) -> char {
    if d == 0 {
        '0'
    } else if d == 1 {
        '1'
    } else if d == 2 {
        '2'
    } else if d == 3 {
        '3'
    } else if d == 4 {
        '4'
    } else if d == 5 {
        '5'
    } else if d == 6 {
        '6'
    } else if d == 7 {
        '7'
    } else if d == 8 {
        '8'
    } else {
        '9'
    }
}

/// The decimal digits of `n`, most significant first, with no leading zeros
/// (a single `'0'` for zero itself).
pub open spec fn dec_digits(n: nat) -> Seq<char>
    decreases n,
{
    if n < 10 {
        seq![digit_char(n as int)]
    } else {
        dec_digits(n / 10).push(digit_char((n % 10) as int))
    }
}

/// The low `w` decimal digits of `n`, most significant first, zero-padded on
/// the left to exactly `w` characters.
pub open spec fn padded_digits(n: nat, w: nat) -> Seq<char>
    decreases w,
{
    if w == 0 {
        Seq::empty()
    } else {
        padded_digits(n / 10, (w - 1) as nat).push(digit_char((n % 10) as int))
    }
}

/// The low `w` decimal digits of `k` with every trailing zero removed;
/// empty when all `w` digits are zero.
pub open spec fn frac_stripped(k: nat, w: nat) -> Seq<char>
    decreases w,
{
    if w == 0 {
        Seq::empty()
    } else if k % 10 == 0 {
        frac_stripped(k / 10, (w - 1) as nat)
    } else {
        padded_digits(k, w)
    }
}

/// How many fractional digits are kept beside the integer part `i`, so that
/// at most four significant digits are printed in all.
pub open spec fn frac_width(i: nat) -> nat {
    if i >= 1000 {
        0
    } else if i >= 100 {
        1
    } else if i >= 10 {
        2
    } else {
        3
    }
}

/// `10^(3 - w)` for `w <= 3`: the divisor that truncates a three-digit
/// fractional part down to its first `w` digits.
pub open spec fn trunc_pow(w: nat) -> nat {
    if w == 0 {
        1000
    } else if w == 1 {
        100
    } else if w == 2 {
        10
    } else {
        1
    }
}

/// The digits printed for a quantity of `q` thousandths of a unit: the
/// integer part, then a dot and the kept fractional digits unless every kept
/// fractional digit is zero.
pub open spec fn rendered(q: nat) -> Seq<char> {
    let i = q / 1000;
    let f = q % 1000;
    let w = frac_width(i);
    let kept = f / trunc_pow(w);
    let frac = frac_stripped(kept, w);
    if frac.len() == 0 {
        dec_digits(i)
    } else {
        dec_digits(i) + seq!['.'] + frac
    }
}

/// The numeric value shown by `rendered(q)`, in thousandths of a unit:
/// `q` truncated to the kept fractional digits. Stripping trailing zeros
/// changes no value, so this is exactly the number a reader sees.
pub open spec fn rendered_millis(q: nat) -> nat {
    let i = q / 1000;
    let f = q % 1000;
    let m = trunc_pow(frac_width(i));
    i * 1000 + (f / m) * m
}

/// The full rendering of a picosecond count `p`: at and above one thousand
/// days an exact integer day count, otherwise the four-significant-digit
/// truncated form in the scale that contains `p`, followed by the scale's
/// suffix.
pub open spec fn spec_duration_str(p: nat) -> Seq<char> {
    if p >= DAY * 1000 {
        dec_digits(p / (DAY as nat)) + suffix_chars(TimeScale::Day)
    } else {
        let s = scale_of(p as int);
        rendered((p * 1000) / (scale_unit(s) as nat)) + suffix_chars(s)
    }
}

/// The numeric value shown by `spec_duration_str(p)`, in thousandths of the
/// chosen scale's unit.
pub open spec fn displayed_millis(p: nat) -> nat {
    if p >= DAY * 1000 {
        (p / (DAY as nat)) * 1000
    } else {
        rendered_millis((p * 1000) / (scale_unit(scale_of(p as int)) as nat))
    }
}

/// The numeric value of one decimal digit character; zero for any other
/// character.
pub open spec fn char_digit(c: char) -> int {
    if c == '1' {
        1
    } else if c == '2' {
        2
    } else if c == '3' {
        3
    } else if c == '4' {
        4
    } else if c == '5' {
        5
    } else if c == '6' {
        6
    } else if c == '7' {
        7
    } else if c == '8' {
        8
    } else if c == '9' {
        9
    } else {
        0
    }
}

/// Reads a digit sequence back as a number, most significant digit first.
pub open spec fn digits_value(s: Seq<char>) -> int
    decreases s.len(),
{
    if s.len() == 0 {
        0
    } else {
        digits_value(s.drop_last()) * 10 + char_digit(s.last())
    }
}

/// Decimal rendering is lossless: reading the printed digits back gives
/// exactly the number that was rendered.
pub proof fn lemma_dec_digits_value(n: nat)
    ensures
        digits_value(dec_digits(n)) == n,
    decreases n,
{
    if n < 10 {
        assert(char_digit(digit_char(n as int)) == n);
        assert(digits_value(Seq::<char>::empty()) == 0);
        assert(dec_digits(n).drop_last() =~= Seq::<char>::empty());
        assert(dec_digits(n).last() == digit_char(n as int));
    } else {
        lemma_dec_digits_value(n / 10);
        assert(char_digit(digit_char((n % 10) as int)) == n % 10);
        assert(dec_digits(n).drop_last() =~= dec_digits(n / 10));
        assert(dec_digits(n).last() == digit_char((n % 10) as int));
        vstd::arithmetic::div_mod::lemma_fundamental_div_mod(n as int, 10);
    }
}

/// Powers of ten.
pub open spec fn pow10(e: nat) -> nat
    decreases e,
{
    if e == 0 {
        1
    } else {
        10 * pow10((e - 1) as nat)
    }
}

/// Every power of ten is positive.
pub proof fn lemma_pow10_pos(e: nat)
    ensures
        pow10(e) >= 1,
    decreases e,
{
    if e > 0 {
        lemma_pow10_pos((e - 1) as nat);
    }
}

/// Reading a zero-padded digit string back gives the low `w` digits of the
/// number it was made from.
pub proof fn lemma_padded_digits_value(k: nat, w: nat)
    ensures
        digits_value(padded_digits(k, w)) == k % pow10(w),
        padded_digits(k, w).len() == w,
    decreases w,
{
    if w == 0 {
        assert(digits_value(Seq::<char>::empty()) == 0);
        assert(k % pow10(0) == 0) by {
            vstd::arithmetic::div_mod::lemma_mod_bound(k as int, 1);
        }
    } else {
        lemma_padded_digits_value(k / 10, (w - 1) as nat);
        assert(char_digit(digit_char((k % 10) as int)) == k % 10) by {
            vstd::arithmetic::div_mod::lemma_mod_bound(k as int, 10);
        }
        assert(padded_digits(k, w).drop_last() =~= padded_digits(k / 10, (w - 1) as nat));
        assert(padded_digits(k, w).last() == digit_char((k % 10) as int));
        assert(pow10(w) == 10 * pow10((w - 1) as nat));
        lemma_pow10_pos((w - 1) as nat);
        vstd::arithmetic::div_mod::lemma_mod_breakdown(k as int, 10, pow10((w - 1) as nat) as int)
    }
}

/// Stripping trailing zeros loses nothing: the digits that remain, scaled
/// back by the power of ten that was stripped, denote exactly the number
/// whose low `w` digits were rendered.
pub proof fn lemma_frac_stripped_value(k: nat, w: nat)
    requires
        k < pow10(w),
    ensures
        frac_stripped(k, w).len() <= w,
        digits_value(frac_stripped(k, w)) * pow10((w - frac_stripped(k, w).len()) as nat) == k,
    decreases w,
{
    if w == 0 {
        assert(digits_value(Seq::<char>::empty()) == 0);
        assert(k == 0);
        assert(frac_stripped(k, w).len() == 0);
        assert(pow10(0) == 1);
        assert(digits_value(frac_stripped(k, w)) * pow10((w - frac_stripped(k, w).len()) as nat)
            == k) by (nonlinear_arith)
            requires
                digits_value(frac_stripped(k, w)) == 0,
                pow10((w - frac_stripped(k, w).len()) as nat) == 1,
                k == 0,
        ;
    } else if k % 10 == 0 {
        assert(k / 10 < pow10((w - 1) as nat)) by {
            lemma_div_below(k as int, 10, pow10((w - 1) as nat) as int);
        }
        lemma_frac_stripped_value(k / 10, (w - 1) as nat);
        let frac = frac_stripped(k, w);
        assert(frac == frac_stripped(k / 10, (w - 1) as nat));
        let v = digits_value(frac);
        let e = ((w - 1) - frac.len()) as nat;
        assert(frac.len() <= w - 1);
        assert((w - frac.len()) as nat == e + 1);
        assert(pow10(e + 1) == 10 * pow10(e));
        assert(v * (10 * pow10(e)) == (v * pow10(e)) * 10) by (nonlinear_arith);
        vstd::arithmetic::div_mod::lemma_fundamental_div_mod(k as int, 10);
        assert((k / 10) * 10 == k);
        assert(v * pow10((w - frac.len()) as nat) == k);
        assert(digits_value(frac_stripped(k, w)) * pow10((w - frac_stripped(k, w).len()) as nat)
            == k) by (nonlinear_arith)
            requires
                digits_value(frac_stripped(k, w)) == v,
                pow10((w - frac_stripped(k, w).len()) as nat) == pow10((w - frac.len()) as nat),
                v * pow10((w - frac.len()) as nat) == k,
        ;
    } else {
        lemma_padded_digits_value(k, w);
        lemma_pow10_pos(w);
        vstd::arithmetic::div_mod::lemma_small_mod(k, pow10(w));
        assert(frac_stripped(k, w) == padded_digits(k, w));
        assert(digits_value(frac_stripped(k, w)) == k);
        assert(frac_stripped(k, w).len() == w);
        assert(pow10((w - frac_stripped(k, w).len()) as nat) == 1);
        assert(digits_value(frac_stripped(k, w)) * pow10((w - frac_stripped(k, w).len()) as nat)
            == k) by (nonlinear_arith)
            requires
                digits_value(frac_stripped(k, w)) == k,
                pow10((w - frac_stripped(k, w).len()) as nat) == 1,
        ;
    }
}

/// Powers of ten multiply by adding exponents.
pub proof fn lemma_pow10_add(a: nat, b: nat)
    ensures
        pow10(a + b) == pow10(a) * pow10(b),
    decreases b,
{
    if b == 0 {
        assert(pow10(a) * pow10(0) == pow10(a) * 1);
    } else {
        lemma_pow10_add(a, (b - 1) as nat);
        assert(a + b - 1 >= 0);
        assert(pow10(a + b) == 10 * pow10((a + b - 1) as nat));
        assert(10 * (pow10(a) * pow10((b - 1) as nat)) == pow10(a) * (10 * pow10(
            (b - 1) as nat,
        ))) by (nonlinear_arith);
    }
}

/// The digits that `rendered(q)` prints denote exactly the value that
/// `rendered_millis(q)` states: reading the integer digits gives the
/// integer part back, and reading the fractional digits positionally, in
/// thousandths, gives the truncated fractional part back.
pub proof fn lemma_rendered_faithful(q: nat)
    requires
        q < 1_000_000,
    ensures
        ({
            let i = q / 1000;
            let f = q % 1000;
            let w = frac_width(i);
            let frac = frac_stripped(f / trunc_pow(w), w);
            &&& digits_value(dec_digits(i)) == i
            &&& frac.len() <= 3
            &&& rendered_millis(q) == i * 1000 + digits_value(frac) * pow10(
                (3 - frac.len()) as nat,
            )
        }),
{
    let i = q / 1000;
    let f = q % 1000;
    let w = frac_width(i);
    let m = trunc_pow(w);
    let kept = f / m;
    let frac = frac_stripped(kept, w);
    lemma_dec_digits_value(i);
    vstd::arithmetic::div_mod::lemma_mod_bound(q as int, 1000);
    lemma_div_below(q as int, 1000, 1000);
    assert(i < 1000);
    assert(1 <= w <= 3);
    assert(pow10(0) == 1);
    assert(pow10(1) == 10);
    assert(pow10(2) == 100);
    assert(pow10(3) == 1000);
    assert(m == pow10((3 - w) as nat));
    assert(kept < pow10(w)) by {
        if w == 1 {
            lemma_div_below(f as int, 100, 10);
        } else if w == 2 {
            lemma_div_below(f as int, 10, 100);
        }
    }
    lemma_frac_stripped_value(kept, w);
    let ghost dv = digits_value(frac);
    let ghost z = (w - frac.len()) as nat;
    assert(dv * pow10(z) == kept);
    lemma_pow10_add(z, (3 - w) as nat);
    assert(z + (3 - w) == 3 - frac.len());
    assert((dv * pow10(z)) * pow10((3 - w) as nat) == dv * (pow10(z) * pow10((3 - w) as nat)))
        by (nonlinear_arith);
    assert(kept * m == dv * pow10((3 - frac.len()) as nat));
}

/// What the full rendering shows below one thousand days is exactly
/// `displayed_millis(p)` thousandths of the chosen scale's unit, digit for
/// digit.
pub proof fn lemma_format_faithful(p: nat)
    requires
        p < DAY * 1000,
    ensures
        ({
            let s = scale_of(p as int);
            let q = (p * 1000) / (scale_unit(s) as nat);
            let i = q / 1000;
            let frac = frac_stripped((q % 1000) / trunc_pow(frac_width(i)), frac_width(i));
            &&& spec_duration_str(p) == rendered(q) + suffix_chars(s)
            &&& digits_value(dec_digits(i)) == i
            &&& displayed_millis(p) == i * 1000 + digits_value(frac) * pow10(
                (3 - frac.len()) as nat,
            )
        }),
{
    let s = scale_of(p as int);
    assert(p * 1000 < 1_000_000 * scale_unit(s));
    lemma_div_below(p as int * 1000, scale_unit(s), 1_000_000);
    lemma_rendered_faithful((p * 1000) / (scale_unit(s) as nat));
}

/// At and above one thousand days the rendering keeps full precision: the
/// printed string is the exact integer day count, digit for digit.
pub proof fn lemma_day_count_exact(p: nat)
    requires
        p >= DAY * 1000,
    ensures
        spec_duration_str(p) == dec_digits(p / (DAY as nat)) + suffix_chars(TimeScale::Day),
        digits_value(dec_digits(p / (DAY as nat))) == p / (DAY as nat),
{
    lemma_dec_digits_value(p / (DAY as nat));
}

/// A quotient is below `a` whenever the dividend is below `a * d`.
proof fn lemma_div_below(x: int, d: int, a: int)
    requires
        0 <= x,
        0 < d,
        x < a * d,
    ensures
        x / d < a,
{
    vstd::arithmetic::div_mod::lemma_fundamental_div_mod(x, d);
    vstd::arithmetic::div_mod::lemma_mod_bound(x, d);
    if x / d >= a {
        assert(false) by (nonlinear_arith)
            requires
                d > 0,
                x / d >= a,
                x == d * (x / d) + (x % d),
                x % d >= 0,
                x < a * d,
        ;
    }
}

/// The rendered value never exceeds the quantity it truncates.
proof fn lemma_rendered_millis_le(q: nat)
    ensures
        rendered_millis(q) <= q,
{
    let i = q / 1000;
    let f = q % 1000;
    let m = trunc_pow(frac_width(i));
    vstd::arithmetic::div_mod::lemma_fundamental_div_mod(q as int, 1000);
    vstd::arithmetic::div_mod::lemma_mod_bound(q as int, 1000);
    vstd::arithmetic::div_mod::lemma_fundamental_div_mod(f as int, m as int);
    vstd::arithmetic::div_mod::lemma_mod_bound(f as int, m as int);
    vstd::arithmetic::mul::lemma_mul_is_commutative(m as int, f as int / m as int);
}

/// Truncation to the kept fractional digits is monotonic: a larger quantity
/// of thousandths never renders as a smaller numeric value, whether or not
/// the two quantities keep the same number of fractional digits.
pub proof fn lemma_rendered_millis_monotonic(qa: nat, qb: nat)
    requires
        qa <= qb,
    ensures
        rendered_millis(qa) <= rendered_millis(qb),
{
    let ia = qa / 1000;
    let fa = qa % 1000;
    let ib = qb / 1000;
    let fb = qb % 1000;
    vstd::arithmetic::div_mod::lemma_fundamental_div_mod(qa as int, 1000);
    vstd::arithmetic::div_mod::lemma_mod_bound(qa as int, 1000);
    vstd::arithmetic::div_mod::lemma_fundamental_div_mod(qb as int, 1000);
    vstd::arithmetic::div_mod::lemma_mod_bound(qb as int, 1000);
    vstd::arithmetic::div_mod::lemma_div_is_ordered(qa as int, qb as int, 1000);
    if ia == ib {
        let m = trunc_pow(frac_width(ia));
        assert(fa <= fb);
        vstd::arithmetic::div_mod::lemma_div_is_ordered(fa as int, fb as int, m as int);
        vstd::arithmetic::mul::lemma_mul_inequality(fa as int / m as int, fb as int / m as int, m as int);
    } else {
        assert(ia < ib);
        lemma_rendered_millis_le(qa);
        assert(qa < (ia + 1) * 1000);
        vstd::arithmetic::mul::lemma_mul_inequality(ia as int + 1, ib as int, 1000);
        let mb = trunc_pow(frac_width(ib));
        assert(rendered_millis(qb) >= ib * 1000);
    }
}

/// Formatting is monotonic: of two picosecond counts in the same scale
/// bucket, the larger never prints a smaller numeric value.
pub proof fn lemma_format_monotonic(a: nat, b: nat)
    requires
        a <= b,
        scale_of(a as int) == scale_of(b as int),
    ensures
        displayed_millis(a) <= displayed_millis(b),
{
    if a >= DAY * 1000 {
        vstd::arithmetic::div_mod::lemma_div_is_ordered(a as int, b as int, DAY as int);
        vstd::arithmetic::mul::lemma_mul_inequality(
            a as int / DAY as int,
            b as int / DAY as int,
            1000,
        );
    } else if b >= DAY * 1000 {
        let qa = (a * 1000) / (DAY as nat);
        assert(scale_of(a as int) == TimeScale::Day);
        lemma_rendered_millis_le(qa);
        lemma_div_below(a as int * 1000, DAY as int, 1_000_000);
        vstd::arithmetic::div_mod::lemma_div_is_ordered(DAY as int * 1000, b as int, DAY as int);
        vstd::arithmetic::div_mod::lemma_div_multiples_vanish(1000, DAY as int);
        vstd::arithmetic::mul::lemma_mul_inequality(1000, b as int / DAY as int, 1000);
    } else {
        let s = scale_of(a as int);
        let u = scale_unit(s);
        assert(u >= 1);
        vstd::arithmetic::div_mod::lemma_div_is_ordered(a as int * 1000, b as int * 1000, u);
        lemma_rendered_millis_monotonic((a * 1000) / (u as nat), (b * 1000) / (u as nat));
    }
}

/// The character for one decimal digit value, as a one-character slice.
fn digit_str(d: u128) -> (r: &'static str)
    requires
        d < 10,
    ensures
        r@ == seq![digit_char(d as int)],
{
    let r: &'static str = if d == 0 {
        "0"
    } else if d == 1 {
        "1"
    } else if d == 2 {
        "2"
    } else if d == 3 {
        "3"
    } else if d == 4 {
        "4"
    } else if d == 5 {
        "5"
    } else if d == 6 {
        "6"
    } else if d == 7 {
        "7"
    } else if d == 8 {
        "8"
    } else {
        "9"
    };
    proof {
        reveal_strlit("0");
        reveal_strlit("1");
        reveal_strlit("2");
        reveal_strlit("3");
        reveal_strlit("4");
        reveal_strlit("5");
        reveal_strlit("6");
        reveal_strlit("7");
        reveal_strlit("8");
        reveal_strlit("9");
        assert(r@ =~= seq![digit_char(d as int)]);
    }
    r
}

/// Renders `n` as its plain decimal digits.
pub fn format_u128(n: u128) -> (r: String)
    ensures
        r@ == dec_digits(n as nat),
    decreases n,
{
    if n < 10 {
        digit_str(n).to_owned()
    } else {
        let mut r = format_u128(n / 10);
        r.append(digit_str(n % 10));
        proof {
            assert(r@ =~= dec_digits(n as nat));
        }
        r
    }
}

/// Appends the low `w` decimal digits of `k`, zero-padded to width `w`.
fn append_padded(r: &mut String, k: u128, w: u32)
    ensures
        final(r)@ == old(r)@ + padded_digits(k as nat, w as nat),
    decreases w,
{
    if w > 0 {
        append_padded(r, k / 10, w - 1);
        r.append(digit_str(k % 10));
        proof {
            assert(r@ =~= old(r)@ + padded_digits(k as nat, w as nat));
        }
    } else {
        proof {
            assert(r@ =~= old(r)@ + padded_digits(k as nat, w as nat));
        }
    }
}

impl TimeScale {
    /// Determines the scale of time for representing a number of picoseconds.
    pub fn from_picos(picos: u128) -> (s: Self)
        ensures
            s == scale_of(picos as int),
            in_scale(s, picos as int),
    {
        if picos < NANOS {
            Self::PicoSec
        } else if picos < MICROS {
            Self::NanoSec
        } else if picos < MILLIS {
            Self::MicroSec
        } else if picos < SEC {
            Self::MilliSec
        } else if picos < MIN {
            Self::Sec
        } else if picos < HOUR {
            Self::Min
        } else if picos < DAY {
            Self::Hour
        } else {
            Self::Day
        }
    }

    /// Returns the number of picoseconds needed to reach this scale.
    pub fn picos(self) -> (unit: u128)
        ensures
            unit == scale_unit(self),
            unit >= 1,
    {
        match self {
            Self::PicoSec => 1,
            Self::NanoSec => NANOS,
            Self::MicroSec => MICROS,
            Self::MilliSec => MILLIS,
            Self::Sec => SEC,
            Self::Min => MIN,
            Self::Hour => HOUR,
            Self::Day => DAY,
        }
    }

    /// Returns the unit suffix.
    pub fn suffix(self) -> (r: &'static str)
        ensures
            r@ == suffix_chars(self),
    {
        let r: &'static str = match self {
            Self::PicoSec => "ps",
            Self::NanoSec => "ns",
            Self::MicroSec => "µs",
            Self::MilliSec => "ms",
            Self::Sec => "s",
            Self::Min => "m",
            Self::Hour => "h",
            Self::Day => "d",
        };
        proof {
            reveal_strlit("ps");
            reveal_strlit("ns");
            reveal_strlit("µs");
            reveal_strlit("ms");
            reveal_strlit("s");
            reveal_strlit("m");
            reveal_strlit("h");
            reveal_strlit("d");
            assert(r@ =~= suffix_chars(self));
        }
        r
    }
}

impl FineDuration {
    /// Lossless conversion from a nanosecond-resolution duration: exactly one
    /// thousand picoseconds per nanosecond, for every nanosecond count a
    /// coarser clock value can carry.
    pub fn from_nanos(nanos: u128) -> (r: Self)
        requires
            nanos <= MAX_CLOCK_NANOS,
        ensures
            r.picos == nanos * 1000,
    {
        FineDuration { picos: nanos * 1000 }
    }

    /// Renders this duration per `spec_duration_str`: the coarsest fitting
    /// scale, at most four significant digits, fractional tail truncated,
    /// and an exact integer day count at and above one thousand days.
    pub fn fmt(&self) -> (r: String)
        ensures
            r@ == spec_duration_str(self.picos as nat),
    {
        let picos = self.picos;
        if picos >= DAY * 1000 {
            let mut r = format_u128(picos / DAY);
            r.append("d");
            proof {
                reveal_strlit("d");
                assert(r@ =~= spec_duration_str(picos as nat));
            }
            r
        } else {
            let scale = TimeScale::from_picos(picos);
            let unit = scale.picos();
            proof {
                assert(picos * 1000 < 1_000_000 * scale_unit(scale));
                lemma_div_below(picos as int * 1000, scale_unit(scale), 1_000_000);
            }
            let q = (picos * 1000) / unit;
            let i = q / 1000;
            let f = q % 1000;
            proof {
                lemma_div_below(q as int, 1000, 1000);
            }
            let fd: u32 = if i >= 100 {
                1
            } else if i >= 10 {
                2
            } else {
                3
            };
            let m: u128 = if fd == 1 {
                100
            } else if fd == 2 {
                10
            } else {
                1
            };
            proof {
                assert(fd as nat == frac_width(i as nat));
                assert(m as nat == trunc_pow(fd as nat));
            }
            let mut k = f / m;
            let mut w = fd;
            let ghost kept0: nat = k as nat;
            while w > 0 && k % 10 == 0
                invariant
                    w <= fd,
                    frac_stripped(k as nat, w as nat) == frac_stripped(kept0, fd as nat),
                decreases w,
            {
                k = k / 10;
                w = w - 1;
            }
            let mut r = format_u128(i);
            if w > 0 {
                r.append(".");
                append_padded(&mut r, k, w);
                proof {
                    reveal_strlit(".");
                    assert(frac_stripped(k as nat, w as nat) == padded_digits(k as nat, w as nat));
                    assert(r@ =~= dec_digits(i as nat) + seq!['.'] + frac_stripped(kept0, fd as nat));
                }
            } else {
                proof {
                    assert(frac_stripped(kept0, fd as nat).len() == 0);
                }
            }
            r.append(scale.suffix());
            proof {
                assert(r@ =~= spec_duration_str(picos as nat));
            }
            r
        }
    }
}

} // verus!
