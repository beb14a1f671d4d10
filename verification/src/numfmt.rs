//! Decimal text of integers and of fixed-point numbers with six decimals.
//!
//! Every time on the timeline is a count of microseconds, and every other
//! fractional setting (brightness, volume, a text position, ...) a count of
//! millionths; both print as decimal numbers of seconds or units.

use vstd::prelude::*;
use crate::text::push_char;

verus! {

/// One million: the number of fixed-point units in one whole unit.
pub const UNIT: u64 = 1_000_000;

/// The character of decimal digit `d`.
pub open spec fn digit_char(d: int) -> char {
    (d + 48) as char
}

/// The decimal text of `n`, without leading zeros (`"0"` for zero).
pub open spec fn decimal(n: nat) -> Seq<char>
    decreases n,
{
    if n < 10 {
        seq![digit_char(n as int)]
    } else {
        decimal(n / 10).push(digit_char((n % 10) as int))
    }
}

/// The decimal text of `n`, with zeros in front up to `width` characters.
pub open spec fn zero_padded(n: nat, width: nat) -> Seq<char> {
    let d = decimal(n);
    if d.len() < width {
        Seq::new((width - d.len()) as nat, |i: int| '0') + d
    } else {
        d
    }
}

/// `s` without its trailing `'0'` characters.
pub open spec fn trim_trailing_zeros(s: Seq<char>) -> Seq<char>
    decreases s.len(),
{
    if s.len() > 0 && s.last() == '0' {
        trim_trailing_zeros(s.drop_last())
    } else {
        s
    }
}

/// The absolute value of `v`.
pub open spec fn abs(v: int) -> nat {
    if v < 0 { (-v) as nat } else { v as nat }
}

/// `"-"` for a negative value, nothing else.
pub open spec fn sign_text(v: int) -> Seq<char> {
    if v < 0 { seq!['-'] } else { seq![] }
}

/// A duration of `us` microseconds as seconds with exactly six decimals,
/// negative durations counting as zero (`"{:.6}"` of `max(d, 0)`).
pub open spec fn seconds_text(us: int) -> Seq<char> {
    let v: nat = if us < 0 { 0 } else { us as nat };
    decimal(v / 1_000_000) + seq!['.'] + zero_padded(v % 1_000_000, 6)
}

/// The shortest decimal text of `v` millionths: no decimal point for a
/// whole number, otherwise the six decimals without trailing zeros.
pub open spec fn fixed_text(v: int) -> Seq<char> {
    let a = abs(v);
    let frac = a % 1_000_000;
    if frac == 0 {
        sign_text(v) + decimal(a / 1_000_000)
    } else {
        sign_text(v) + decimal(a / 1_000_000) + seq!['.'] + trim_trailing_zeros(zero_padded(frac, 6))
    }
}

/// Two to the power `k`.
pub open spec fn pow2(k: nat) -> nat
    decreases k,
{
    if k == 0 { 1 } else { 2 * pow2((k - 1) as nat) }
}

/// The least value of a 53-bit significand, in millionths: `2^52 * 10^6`.
pub const SIG_LOW: u128 = 4_503_599_627_370_496_000_000;

/// How many doublings, from `s` on, bring `a` millionths up to a 53-bit
/// significand (at least `2^52`).
pub open spec fn scale_of(a: nat, s: nat) -> nat
    decreases 256 - s,
{
    if s >= 256 || a * pow2(s) >= SIG_LOW {
        s
    } else {
        scale_of(a, s + 1)
    }
}

/// `n / d` rounded to the nearest whole number, ties to the even one.
pub open spec fn half_even(n: nat, d: nat) -> nat {
    let q = n / d;
    let r = n % d;
    if 2 * r > d || (2 * r == d && q % 2 == 1) {
        q + 1
    } else {
        q
    }
}

/// `a` millionths in thousandths as `{:.3}` prints a double: the value is
/// first rounded to the nearest double (a 53-bit significand), and that
/// double's exact value is then rounded to thousandths, ties to even.
pub open spec fn double_millis(a: nat) -> nat {
    let s = scale_of(a, 0);
    half_even(half_even(a * pow2(s), 1_000_000) * 1000, pow2(s))
}

/// A time of `us` microseconds as seconds with three decimals, as
/// `"{:.3}"` prints the double nearest to it.
pub open spec fn millis_text(us: int) -> Seq<char> {
    let ms = double_millis(abs(us));
    sign_text(us) + decimal(ms / 1000) + seq!['.'] + zero_padded(ms % 1000, 3)
}

/// The character of decimal digit `d`.
pub fn digit(d: u64) -> (c: char)
    requires
        d < 10,
    ensures
        c == digit_char(d as int),
{
    match d {
        0 => '0',
        1 => '1',
        2 => '2',
        3 => '3',
        4 => '4',
        5 => '5',
        6 => '6',
        7 => '7',
        8 => '8',
        _ => '9',
    }
}

/// Appends the decimal text of `n` to `s`.
pub fn push_decimal(s: &mut String, n: u64)
    ensures
        final(s)@ == old(s)@ + decimal(n as nat),
    decreases n,
{
    if n >= 10 {
        push_decimal(s, n / 10);
    }
    push_char(s, digit(n % 10));
    assert(decimal(n as nat) == if n < 10 { seq![digit_char(n as int)] } else {
        decimal((n / 10) as nat).push(digit_char((n % 10) as int))
    });
}

/// Appends the decimal text of a wide number `n` to `s`.
pub fn push_decimal_wide(s: &mut String, n: u128)
    ensures
        final(s)@ == old(s)@ + decimal(n as nat),
    decreases n,
{
    if n >= 10 {
        push_decimal_wide(s, n / 10);
    }
    push_char(s, digit((n % 10) as u64));
    assert(decimal(n as nat) == if n < 10 { seq![digit_char(n as int)] } else {
        decimal((n / 10) as nat).push(digit_char((n % 10) as int))
    });
}

/// The decimal text of `n` (`n.to_string()`).
pub fn u64_text(n: u64) -> (r: String)
    ensures
        r@ == decimal(n as nat),
{
    let mut s = String::new();
    push_decimal(&mut s, n);
    assert(s@ =~= decimal(n as nat));
    s
}


/// Ten to the power `k`.
pub open spec fn pow10(k: nat) -> nat
    decreases k,
{
    if k == 0 { 1 } else { 10 * pow10((k - 1) as nat) }
}

/// A number below `10^k` has at most `k` decimal digits.
pub proof fn lemma_decimal_len(n: nat, k: nat)
    requires
        k >= 1,
        n < pow10(k),
    ensures
        1 <= decimal(n).len() <= k,
    decreases n,
{
    if n >= 10 {
        assert(k >= 2) by {
            if k == 1 {
                assert(pow10(1) == 10 * pow10(0));
            }
        }
        assert(pow10(k) == 10 * pow10((k - 1) as nat));
        assert(n / 10 < pow10((k - 1) as nat)) by (nonlinear_arith)
            requires
                n < 10 * pow10((k - 1) as nat),
        ;
        lemma_decimal_len(n / 10, (k - 1) as nat);
    }
}

/// The number of characters in the decimal text of `n`.
pub fn decimal_width(n: u64) -> (w: u64)
    ensures
        w == decimal(n as nat).len(),
        1 <= w <= 20,
    decreases n,
{
    proof {
        reveal_with_fuel(pow10, 21);
        lemma_decimal_len(n as nat, 20);
    }
    if n >= 10 {
        let w = decimal_width(n / 10);
        w + 1
    } else {
        1
    }
}

/// Appends the decimal text of `n` to `s`, zero-padded to `width`.
pub fn push_zero_padded(s: &mut String, n: u64, width: u64)
    ensures
        final(s)@ == old(s)@ + zero_padded(n as nat, width as nat),
{
    let w = decimal_width(n);
    let ghost start = s@;
    if w < width {
        let mut k: u64 = 0;
        while k < width - w
            invariant
                w < width,
                k <= width - w,
                s@ == start + Seq::new(k as nat, |i: int| '0'),
            decreases width - w - k,
        {
            push_char(s, '0');
            k = k + 1;
            assert(s@ =~= start + Seq::new(k as nat, |i: int| '0'));
        }
    }
    push_decimal(s, n);
    assert(s@ =~= start + zero_padded(n as nat, width as nat));
}

/// Appends the seconds text of `us` microseconds (six decimals).
pub fn push_seconds(s: &mut String, us: i64)
    ensures
        final(s)@ == old(s)@ + seconds_text(us as int),
{
    let v: u64 = if us < 0 { 0 } else { us as u64 };
    let ghost start = s@;
    push_decimal(s, v / UNIT);
    push_char(s, '.');
    push_zero_padded(s, v % UNIT, 6);
    assert(s@ =~= start + seconds_text(us as int));
}

/// A duration as seconds with six decimals, negative durations printing as
/// zero.
pub fn fmt_dur(us: i64) -> (r: String)
    ensures
        r@ == seconds_text(us as int),
{
    let mut s = String::new();
    push_seconds(&mut s, us);
    assert(s@ =~= seconds_text(us as int));
    s
}

/// The absolute value of `v`.
pub fn abs_u64(v: i64) -> (a: u64)
    ensures
        a == abs(v as int),
{
    if v < 0 {
        ((-(v + 1)) as u64) + 1
    } else {
        v as u64
    }
}

/// Appends `"-"` when `v` is negative.
fn push_sign(s: &mut String, v: i64)
    ensures
        final(s)@ == old(s)@ + sign_text(v as int),
{
    if v < 0 {
        push_char(s, '-');
    } else {
        assert(old(s)@ + sign_text(v as int) =~= old(s)@);
    }
}

/// Padding a multiple of ten drops one width and one trailing zero.
proof fn lemma_padded_trailing_zero(f: nat, w: nat)
    requires
        f > 0,
        f % 10 == 0,
        w >= 1,
    ensures
        zero_padded(f, w) == zero_padded(f / 10, (w - 1) as nat).push('0'),
{
    assert(f >= 10);
    assert(decimal(f) == decimal(f / 10).push(digit_char(0)));
    assert(digit_char(0) == '0');
    let d = decimal(f / 10);
    if d.len() < w - 1 {
        assert(zero_padded(f, w) =~= zero_padded(f / 10, (w - 1) as nat).push('0'));
    } else {
        assert(zero_padded(f, w) =~= zero_padded(f / 10, (w - 1) as nat).push('0'));
    }
}

/// The last character of a padded number is its last digit.
proof fn lemma_padded_last(f: nat, w: nat)
    ensures
        zero_padded(f, w).len() > 0,
        zero_padded(f, w).last() == digit_char((f % 10) as int),
{
    reveal_with_fuel(decimal, 2);
    let d = decimal(f);
    assert(d.len() > 0);
    assert(d.last() == digit_char((f % 10) as int));
    if d.len() < w {
        let z = Seq::new((w - d.len()) as nat, |i: int| '0');
        assert((z + d).last() == d.last());
    }
}

/// Trailing zeros of a padded number go with the factors of ten.
pub proof fn lemma_trim_padded(f: nat, w: nat)
    requires
        f > 0,
        f % 10 != 0 || w >= 1,
    ensures
        trim_trailing_zeros(zero_padded(f, w)) == (if f % 10 == 0 && w >= 1 {
            trim_trailing_zeros(zero_padded(f / 10, (w - 1) as nat))
        } else {
            zero_padded(f, w)
        }),
{
    lemma_padded_last(f, w);
    if f % 10 == 0 && w >= 1 {
        lemma_padded_trailing_zero(f, w);
        let p = zero_padded(f / 10, (w - 1) as nat);
        assert(p.push('0').drop_last() =~= p);
    } else {
        let d = (f % 10) as int;
        assert(1 <= d <= 9);
        assert(digit_char(d) != '0') by {
            if d == 1 { assert(digit_char(1) == '1'); }
            else if d == 2 { assert(digit_char(2) == '2'); }
            else if d == 3 { assert(digit_char(3) == '3'); }
            else if d == 4 { assert(digit_char(4) == '4'); }
            else if d == 5 { assert(digit_char(5) == '5'); }
            else if d == 6 { assert(digit_char(6) == '6'); }
            else if d == 7 { assert(digit_char(7) == '7'); }
            else if d == 8 { assert(digit_char(8) == '8'); }
            else { assert(digit_char(9) == '9'); }
        }
    }
}

/// Appends the six decimals of `frac` millionths without trailing zeros.
fn push_trimmed_fraction(s: &mut String, frac: u64)
    requires
        0 < frac < 1_000_000,
    ensures
        final(s)@ == old(s)@ + trim_trailing_zeros(zero_padded(frac as nat, 6)),
{
    let mut f = frac;
    let mut w: u64 = 6;
    proof {
        reveal_with_fuel(pow10, 7);
    }
    while f % 10 == 0 && w >= 1
        invariant
            0 < f <= frac,
            w <= 6,
            f < pow10(w as nat),
            trim_trailing_zeros(zero_padded(frac as nat, 6)) == trim_trailing_zeros(
                zero_padded(f as nat, w as nat),
            ),
        decreases w,
    {
        proof {
            lemma_trim_padded(f as nat, w as nat);
            assert(pow10(w as nat) == 10 * pow10((w - 1) as nat));
            assert(f / 10 < pow10((w - 1) as nat)) by (nonlinear_arith)
                requires
                    f < 10 * pow10((w - 1) as nat),
            ;
        }
        f = f / 10;
        w = w - 1;
    }
    proof {
        if w == 0 {
            assert(pow10(0) == 1);
        }
        lemma_trim_padded(f as nat, w as nat);
    }
    push_zero_padded(s, f, w);
}

/// Appends the shortest decimal text of `v` millionths.
pub fn push_fixed(s: &mut String, v: i64)
    ensures
        final(s)@ == old(s)@ + fixed_text(v as int),
{
    let ghost start = s@;
    let a = abs_u64(v);
    push_sign(s, v);
    push_decimal(s, a / UNIT);
    let frac = a % UNIT;
    if frac != 0 {
        push_char(s, '.');
        push_trimmed_fraction(s, frac);
    }
    assert(s@ =~= start + fixed_text(v as int));
}

/// The shortest decimal text of `v` millionths, as a number prints.
pub fn fmt_fixed(v: i64) -> (r: String)
    ensures
        r@ == fixed_text(v as int),
{
    let mut s = String::new();
    push_fixed(&mut s, v);
    assert(s@ =~= fixed_text(v as int));
    s
}

/// `double_millis` of `a` millionths.
fn millis_of(a: u64) -> (ms: u64)
    ensures
        ms == double_millis(a as nat),
{
    if a == 0 {
        proof {
            let s = scale_of(0, 0);
            let d = pow2(s);
            assert(0 * d == 0);
            lemma_pow2_pos(s);
            assert(half_even(0, 1_000_000) == 0);
            assert(0nat * 1000 == 0);
            assert(0nat / d == 0 && 0nat % d == 0) by (nonlinear_arith)
                requires
                    d >= 1,
            ;
        }
        return 0;
    }
    let mut n: u128 = a as u128;
    let mut p2: u128 = 1;
    let mut sc: u64 = 0;
    assert(pow2(0) == 1);
    while sc < 256 && n < SIG_LOW
        invariant
            a >= 1,
            sc <= 256,
            p2 == pow2(sc as nat),
            n == a * pow2(sc as nat),
            1 <= p2 <= n,
            n < 2 * SIG_LOW,
            scale_of(a as nat, 0) == scale_of(a as nat, sc as nat),
        decreases 256 - sc,
    {
        assert(pow2((sc + 1) as nat) == 2 * pow2(sc as nat));
        assert(a * pow2((sc + 1) as nat) == 2 * (a * pow2(sc as nat))) by (nonlinear_arith)
            requires
                pow2((sc + 1) as nat) == 2 * pow2(sc as nat),
        ;
        n = n * 2;
        p2 = p2 * 2;
        sc = sc + 1;
    }
    assert(scale_of(a as nat, sc as nat) == sc);
    let q = n / 1_000_000;
    let r = n % 1_000_000;
    let m: u128 = if 2 * r > 1_000_000 || (2 * r == 1_000_000 && q % 2 == 1) { q + 1 } else { q };
    assert(m == half_even(n as nat, 1_000_000));
    let t = m * 1000;
    let k = t / p2;
    let rem = t % p2;
    let ms: u128 = if 2 * rem > p2 || (2 * rem == p2 && k % 2 == 1) { k + 1 } else { k };
    assert(ms == half_even(t as nat, p2 as nat));
    assert(k <= t) by (nonlinear_arith)
        requires
            k == t / p2,
            p2 >= 1,
    ;
    ms as u64
}

/// Powers of two are positive.
proof fn lemma_pow2_pos(k: nat)
    ensures
        pow2(k) >= 1,
    decreases k,
{
    if k > 0 {
        lemma_pow2_pos((k - 1) as nat);
    }
}

/// Appends a time of `us` microseconds as seconds with three decimals.
pub fn push_millis(s: &mut String, us: i64)
    ensures
        final(s)@ == old(s)@ + millis_text(us as int),
{
    let ghost start = s@;
    let a = abs_u64(us);
    let ms = millis_of(a);
    push_sign(s, us);
    push_decimal(s, ms / 1000);
    push_char(s, '.');
    push_zero_padded(s, ms % 1000, 3);
    assert(s@ =~= start + millis_text(us as int));
}

} // verus!
