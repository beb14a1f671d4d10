//! Reading decimal seconds, as ffprobe and FFmpeg print them, into
//! microseconds.

use vstd::prelude::*;
use crate::model::MAX_MAGNITUDE;
use crate::numfmt::{pow10, decimal, digit_char, zero_padded, seconds_text, fixed_text, trim_trailing_zeros, sign_text, abs, lemma_trim_padded, lemma_decimal_len};
use crate::clipcmd::is_white_space;
use crate::text::chars_of;

verus! {

/// Whether `c` is a decimal digit.
pub open spec fn is_digit(c: char) -> bool {
    48 <= c as u32 <= 57
}

/// The value of decimal digit `c`.
pub open spec fn digit_value(c: char) -> nat {
    (c as u32 - 48) as nat
}

/// Whether every character of `s` is a decimal digit.
pub open spec fn all_digits(s: Seq<char>) -> bool {
    forall|i: int| 0 <= i < s.len() ==> is_digit(#[trigger] s[i])
}

/// The number that the digits `s` spell (zero for no digits).
pub open spec fn digits_value(s: Seq<char>) -> nat
    decreases s.len(),
{
    if s.len() == 0 {
        0
    } else {
        digits_value(s.drop_last()) * 10 + digit_value(s.last())
    }
}

/// Where the first `c` stands in `s` (`s.len()` when there is none).
pub open spec fn first_index(s: Seq<char>, c: char) -> int
    decreases s.len(),
{
    if s.len() == 0 {
        0
    } else if s[0] == c {
        0
    } else {
        1 + first_index(s.skip(1), c)
    }
}

/// The value in millionths of the decimals `f`: the first six digits,
/// later ones being dropped.
pub open spec fn fraction_micros(f: Seq<char>) -> nat {
    let n: nat = if f.len() < 6 { f.len() } else { 6 };
    digits_value(f.take(n as int)) * pow10((6 - n) as nat)
}

/// The value in millionths of an unsigned decimal number without an
/// exponent: digits with an optional decimal point, and at least one digit.
pub open spec fn plain_micros(b: Seq<char>) -> Option<nat> {
    let k = first_index(b, '.');
    let ip = b.take(k);
    let fp = if k < b.len() { b.skip(k + 1) } else { seq![] };
    if all_digits(ip) && all_digits(fp) && ip.len() + fp.len() > 0 {
        Some(digits_value(ip) * 1_000_000 + fraction_micros(fp))
    } else {
        None
    }
}

/// Where the exponent mark, `e` or `E`, first stands in `s` (`s.len()`
/// when there is none).
pub open spec fn exp_index(s: Seq<char>) -> int {
    let a = first_index(s, 'e');
    let b = first_index(s, 'E');
    if a <= b { a } else { b }
}

/// The value of an exponent: an optional sign, then one or more digits.
pub open spec fn exponent_value(x: Seq<char>) -> Option<int> {
    let neg = x.len() > 0 && x[0] == '-';
    let d = if x.len() > 0 && (x[0] == '-' || x[0] == '+') { x.skip(1) } else { x };
    if d.len() > 0 && all_digits(d) {
        Some(if neg { -digits_value(d) } else { digits_value(d) as int })
    } else {
        None
    }
}

/// The number that the digits `g` spell when the decimal point stands
/// after the first `p` of them, cut toward zero.
pub open spec fn shifted_value(g: Seq<char>, p: int) -> nat {
    if p <= 0 {
        0
    } else if p <= g.len() {
        digits_value(g.take(p))
    } else {
        digits_value(g) * pow10((p - g.len()) as nat)
    }
}

/// The value in millionths, cut toward zero, of an unsigned decimal
/// number: digits with an optional decimal point and at least one digit,
/// then optionally `e` or `E` and an exponent of ten.
#[verifier::opaque]
pub open spec fn unsigned_micros(b: Seq<char>) -> Option<nat> {
    let e = exp_index(b);
    if e >= b.len() {
        plain_micros(b)
    } else {
        let m = b.take(e);
        let k = first_index(m, '.');
        let ip = m.take(k);
        let fp = if k < m.len() { m.skip(k + 1) } else { seq![] };
        match exponent_value(b.skip(e + 1)) {
            Some(x) => if all_digits(ip) && all_digits(fp) && ip.len() + fp.len() > 0 {
                Some(shifted_value(ip + fp, ip.len() + x + 6))
            } else {
                None
            },
            None => None,
        }
    }
}

/// The value in millionths of a decimal number with an optional sign,
/// when it is well formed and its magnitude is within range.
pub open spec fn decimal_micros(s: Seq<char>) -> Option<int> {
    let neg = s.len() > 0 && s[0] == '-';
    let b = if s.len() > 0 && (s[0] == '-' || s[0] == '+') { s.skip(1) } else { s };
    match unsigned_micros(b) {
        Some(v) => if v <= MAX_MAGNITUDE {
            Some(if neg { -v } else { v as int })
        } else {
            None
        },
        None => None,
    }
}

/// Whether `c` is a decimal digit.
pub fn char_is_digit(c: char) -> (r: bool)
    ensures
        r == is_digit(c),
{
    let u = c as u32;
    48 <= u && u <= 57
}

/// The digits of a prefix spell no more than all of them.
proof fn lemma_digits_prefix(s: Seq<char>, i: int)
    requires
        0 <= i <= s.len(),
    ensures
        digits_value(s.take(i)) <= digits_value(s),
    decreases s.len(),
{
    if i < s.len() {
        lemma_digits_prefix(s.drop_last(), i);
        assert(s.drop_last().take(i) =~= s.take(i));
    } else {
        assert(s.take(i) =~= s);
    }
}

/// Where the first `c` stands, when the characters before `j` are not `c`.
proof fn lemma_first_index(s: Seq<char>, c: char, j: int)
    requires
        0 <= j <= s.len(),
        forall|i: int| 0 <= i < j ==> s[i] != c,
    ensures
        first_index(s, c) >= j,
        j < s.len() && s[j] == c ==> first_index(s, c) == j,
        first_index(s, c) <= s.len(),
        first_index(s, c) < s.len() ==> s[first_index(s, c)] == c,
        forall|i: int| 0 <= i < first_index(s, c) ==> s[i] != c,
    decreases s.len(),
{
    if s.len() > 0 && s[0] != c {
        let t = s.skip(1);
        assert forall|i: int| 0 <= i < j - 1 implies t[i] != c by {
            assert(t[i] == s[i + 1]);
        }
        if j >= 1 {
            lemma_first_index(t, c, j - 1);
        } else {
            lemma_first_index(t, c, 0);
        }
        assert forall|i: int| 0 <= i < first_index(s, c) implies s[i] != c by {
            if i > 0 {
                assert(s[i] == t[i - 1]);
            }
        }
    }
}

/// Ten to a power of at most six is at most a million.
proof fn lemma_pow10_small(k: nat)
    requires
        k <= 6,
    ensures
        1 <= pow10(k) <= 1_000_000,
{
    reveal_with_fuel(pow10, 7);
    if k == 0 {
    } else if k == 1 {
    } else if k == 2 {
    } else if k == 3 {
    } else if k == 4 {
    } else if k == 5 {
    } else {
    }
}

/// Digits are never a decimal point.
proof fn lemma_digits_no_dot(b: Seq<char>, j: int)
    requires
        0 <= j <= b.len(),
        all_digits(b.take(j)),
    ensures
        forall|i: int| 0 <= i < j ==> b[i] != '.',
{
    assert forall|i: int| 0 <= i < j implies b[i] != '.' by {
        assert(is_digit(b.take(j)[i]));
        assert(b.take(j)[i] == b[i]);
    }
}

/// Where the first `c` stands: before it, no character is `c`.
pub proof fn lemma_first_index_props(s: Seq<char>, c: char)
    ensures
        0 <= first_index(s, c) <= s.len(),
        first_index(s, c) < s.len() ==> s[first_index(s, c)] == c,
        forall|i: int| 0 <= i < first_index(s, c) ==> s[i] != c,
{
    lemma_first_index(s, c, 0);
}

/// Text without `e` or `E` has no exponent.
proof fn lemma_no_exponent(b: Seq<char>)
    requires
        forall|j: int| 0 <= j < b.len() ==> b[j] != 'e' && b[j] != 'E',
    ensures
        exp_index(b) == b.len(),
        unsigned_micros(b) == plain_micros(b),
{
    reveal(unsigned_micros);
    lemma_first_index(b, 'e', b.len() as int);
    lemma_first_index(b, 'E', b.len() as int);
}

/// Reads the decimals `v[lo..hi]` into millionths, when they are all
/// digits.
fn parse_fraction(v: &Vec<char>, lo: usize, hi: usize) -> (r: Option<u64>)
    requires
        lo <= hi <= v@.len(),
    ensures
        r matches Some(x) ==> all_digits(v@.subrange(lo as int, hi as int)) && x == fraction_micros(
            v@.subrange(lo as int, hi as int),
        ) && x < 1_000_000,
        r is None ==> !all_digits(v@.subrange(lo as int, hi as int)),
{
    let ghost fp = v@.subrange(lo as int, hi as int);
    let mut i = lo;
    let mut frac: u64 = 0;
    let mut count: u64 = 0;
    assert(fp.take(0) =~= Seq::<char>::empty());
    proof {
        reveal_with_fuel(pow10, 2);
    }
    while i < hi && char_is_digit(v[i])
        invariant
            lo <= i <= hi <= v@.len(),
            fp == v@.subrange(lo as int, hi as int),
            all_digits(fp.take(i - lo)),
            count == (if i - lo < 6 { i - lo } else { 6 }),
            frac == digits_value(fp.take(count as int)),
            frac < pow10(count as nat),
        decreases hi - i,
    {
        if count < 6 {
            let d = v[i] as u32 - 48;
            assert(fp.take(count + 1).drop_last() =~= fp.take(count as int));
            assert(fp.take(count + 1).last() == v@[i as int]);
            proof {
                lemma_pow10_small((count + 1) as nat);
                assert(pow10((count + 1) as nat) == 10 * pow10(count as nat));
            }
            assert(frac * 10 + d < pow10((count + 1) as nat)) by (nonlinear_arith)
                requires
                    frac < pow10(count as nat),
                    d <= 9,
                    pow10((count + 1) as nat) == 10 * pow10(count as nat),
            ;
            frac = frac * 10 + d as u64;
            count = count + 1;
        }
        i = i + 1;
        assert(all_digits(fp.take(i - lo)));
    }
    if i < hi {
        assert(!is_digit(fp[i - lo]));
        return None;
    }
    assert(fp.take(i - lo) =~= fp);
    assert(pow10(0) == 1);
    let ghost n = count;
    let mut c = count;
    assert(pow10((c - n) as nat) == 1);
    assert(frac == digits_value(fp.take(count as int)));
    while c < 6
        invariant
            n <= c <= 6,
            frac == digits_value(fp.take(n as int)) * pow10((c - n) as nat),
            frac < pow10(c as nat),
        decreases 6 - c,
    {
        assert(pow10((c + 1 - n) as nat) == 10 * pow10((c - n) as nat));
        assert(pow10((c + 1) as nat) == 10 * pow10(c as nat));
        let ghost dv = digits_value(fp.take(n as int));
        proof {
            lemma_pow10_small((c + 1) as nat);
        }
        assert(frac * 10 == dv * pow10((c + 1 - n) as nat)) by (nonlinear_arith)
            requires
                frac == dv * pow10((c - n) as nat),
                pow10((c + 1 - n) as nat) == 10 * pow10((c - n) as nat),
        ;
        frac = frac * 10;
        c = c + 1;
    }
    proof {
        lemma_pow10_small(6);
        reveal_with_fuel(pow10, 7);
    }
    Some(frac)
}

/// Reads the unsigned decimal number `v[lo..hi]` into millionths, when it
/// is well formed and within range.
fn parse_unsigned(v: &Vec<char>, lo: usize, hi: usize) -> (r: Option<u64>)
    requires
        lo <= hi <= v@.len(),
    ensures
        r matches Some(x) ==> plain_micros(v@.subrange(lo as int, hi as int)) == Some(x as nat)
            && x <= MAX_MAGNITUDE,
        r is None ==> (plain_micros(v@.subrange(lo as int, hi as int)) matches Some(x) ==> x
            > MAX_MAGNITUDE),
{
    let ghost b = v@.subrange(lo as int, hi as int);
    let mut i = lo;
    let mut ip: u64 = 0;
    assert(b.take(0) =~= Seq::<char>::empty());
    while i < hi && char_is_digit(v[i])
        invariant
            lo <= i <= hi <= v@.len(),
            b == v@.subrange(lo as int, hi as int),
            all_digits(b.take(i - lo)),
            ip == digits_value(b.take(i - lo)),
            ip <= 1_000_000_000,
        decreases hi - i,
    {
        let d = v[i] as u32 - 48;
        assert(b.take(i - lo + 1).drop_last() =~= b.take(i - lo));
        assert(b.take(i - lo + 1).last() == v@[i as int]);
        ip = ip * 10 + d as u64;
        i = i + 1;
        assert(all_digits(b.take(i - lo)));
        assert(ip == digits_value(b.take(i - lo)));
        if ip > 1_000_000_000 {
            proof {
                lemma_digits_no_dot(b, i - lo);
                lemma_first_index(b, '.', i - lo);
                let k = first_index(b, '.');
                lemma_digits_prefix(b.take(k), i - lo);
                assert(b.take(k).take(i - lo) =~= b.take(i - lo));
                let dv = digits_value(b.take(k));
                assert(dv * 1_000_000 > MAX_MAGNITUDE) by (nonlinear_arith)
                    requires
                        dv > 1_000_000_000,
                ;
            }
            return None;
        }
    }
    let ip_end = i;
    proof {
        lemma_digits_no_dot(b, ip_end - lo);
        lemma_first_index(b, '.', ip_end - lo);
    }
    let ghost k = first_index(b, '.');
    let frac: u64;
    if i < hi && v[i] == '.' {
        assert(k == ip_end - lo);
        assert(b.skip(k + 1) =~= v@.subrange(ip_end + 1, hi as int));
        match parse_fraction(v, ip_end + 1, hi) {
            Some(f) => {
                frac = f;
            },
            None => {
                return None;
            },
        }
        if ip_end == lo && ip_end + 1 == hi {
            return None;
        }
    } else {
        if i < hi {
            assert(k > ip_end - lo || k == b.len()) by {
                if k == ip_end - lo {
                    assert(b[k] == v@[i as int]);
                }
            }
            assert(!all_digits(b.take(k))) by {
                assert(!is_digit(b.take(k)[ip_end - lo]));
            }
            return None;
        }
        if ip_end == lo {
            return None;
        }
        assert(k == b.len());
        let ghost e: Seq<char> = seq![];
        assert(e.take(0) =~= e);
        proof {
            reveal_with_fuel(pow10, 7);
        }
        assert(digits_value(e.take(0)) == 0);
        let ghost pw = pow10(6);
        let ghost z = digits_value(e.take(0));
        assert(z * pw == 0) by (nonlinear_arith)
            requires
                z == 0,
        ;
        assert(fraction_micros(e) == digits_value(e.take(0)) * pw);
        assert(fraction_micros(e) == 0);
        frac = 0;
    }
    assert(b.take(k) =~= b.take(ip_end - lo));
    assert(plain_micros(b) == Some((ip * 1_000_000 + frac) as nat));
    if ip == 1_000_000_000 && frac > 0 {
        return None;
    }
    Some(ip * 1_000_000 + frac)
}

/// An exponent beyond this size reads the same as one just beyond it: every
/// mantissa is then either zero or far out of range.
pub const EXP_CAP: i128 = 100_000_000_000_000_000_000;

/// Powers of ten never fall as the exponent grows.
proof fn lemma_pow10_mono(a: nat, b: nat)
    requires
        a <= b,
    ensures
        1 <= pow10(a) <= pow10(b),
    decreases b,
{
    if b > a {
        lemma_pow10_mono(a, (b - 1) as nat);
    } else if a > 0 {
        lemma_pow10_mono((a - 1) as nat, (a - 1) as nat);
    }
}

/// Digits moved sixteen places or more past their end are either all
/// zero or out of range.
proof fn lemma_shift_far(g: Seq<char>, p: int)
    requires
        p >= g.len() + 16,
    ensures
        digits_value(g) == 0 ==> shifted_value(g, p) == 0,
        digits_value(g) >= 1 ==> shifted_value(g, p) > MAX_MAGNITUDE,
{
    lemma_pow10_mono(16, (p - g.len()) as nat);
    reveal_with_fuel(pow10, 17);
    let dv = digits_value(g);
    let pw = pow10((p - g.len()) as nat);
    assert(pw >= 10_000_000_000_000_000);
    if dv >= 1 {
        assert(dv * pw > MAX_MAGNITUDE) by (nonlinear_arith)
            requires
                dv >= 1,
                pw >= 10_000_000_000_000_000,
        ;
    }
}

/// Whether the characters `v[lo..hi]` are all digits.
fn digits_in(v: &Vec<char>, lo: usize, hi: usize) -> (r: bool)
    requires
        lo <= hi <= v@.len(),
    ensures
        r == all_digits(v@.subrange(lo as int, hi as int)),
{
    let ghost d = v@.subrange(lo as int, hi as int);
    let mut i = lo;
    while i < hi
        invariant
            lo <= i <= hi <= v@.len(),
            d == v@.subrange(lo as int, hi as int),
            forall|k: int| 0 <= k < i - lo ==> is_digit(#[trigger] d[k]),
        decreases hi - i,
    {
        if !char_is_digit(v[i]) {
            assert(!is_digit(d[i - lo]));
            return false;
        }
        i = i + 1;
    }
    true
}

/// Reads the exponent `v[lo..hi]`, held within `EXP_CAP` (and one past it).
fn parse_exponent(v: &Vec<char>, lo: usize, hi: usize) -> (r: Option<i128>)
    requires
        lo <= hi <= v@.len(),
    ensures
        r is None ==> exponent_value(v@.subrange(lo as int, hi as int)) is None,
        r matches Some(c) ==> exponent_value(v@.subrange(lo as int, hi as int)) matches Some(x) && (if x
            > EXP_CAP {
            c == EXP_CAP + 1
        } else if x < -EXP_CAP {
            c == -EXP_CAP - 1
        } else {
            c == x
        }),
{
    let ghost x = v@.subrange(lo as int, hi as int);
    let mut i = lo;
    let mut neg = false;
    if i < hi && (v[i] == '-' || v[i] == '+') {
        neg = v[i] == '-';
        i = i + 1;
    }
    let start = i;
    let ghost d = v@.subrange(start as int, hi as int);
    assert(d =~= (if x.len() > 0 && (x[0] == '-' || x[0] == '+') { x.skip(1) } else { x }));
    if i >= hi {
        assert(d.len() == 0);
        return None;
    }
    let mut mag: u128 = 0;
    let mut big = false;
    assert(d.take(0) =~= Seq::<char>::empty());
    while i < hi
        invariant
            start <= i <= hi <= v@.len(),
            d == v@.subrange(start as int, hi as int),
            x == v@.subrange(lo as int, hi as int),
            d == (if x.len() > 0 && (x[0] == '-' || x[0] == '+') { x.skip(1) } else { x }),
            neg == (x.len() > 0 && x[0] == '-'),
            all_digits(d.take(i - start)),
            !big ==> mag == digits_value(d.take(i - start)) && mag <= EXP_CAP,
            big ==> digits_value(d.take(i - start)) > EXP_CAP,
        decreases hi - i,
    {
        if !char_is_digit(v[i]) {
            assert(!is_digit(d[i - start]));
            assert(!all_digits(d));
            return None;
        }
        let dd = v[i] as u32 - 48;
        assert(d.take(i - start + 1).drop_last() =~= d.take(i - start));
        assert(d.take(i - start + 1).last() == v@[i as int]);
        if !big {
            let nm = mag * 10 + dd as u128;
            if nm > 100_000_000_000_000_000_000u128 {
                big = true;
            } else {
                mag = nm;
            }
        }
        i = i + 1;
        assert(all_digits(d.take(i - start)));
    }
    assert(d.take(i - start) =~= d);
    let c: i128 = if big { EXP_CAP + 1 } else { mag as i128 };
    if neg {
        Some(-c)
    } else {
        Some(c)
    }
}

/// `shifted_value` of the digits `g`, when it is within range.
fn shift_digits(g: &Vec<char>, p: i128) -> (r: Option<u64>)
    requires
        all_digits(g@),
    ensures
        r matches Some(x) ==> shifted_value(g@, p as int) == x && x <= MAX_MAGNITUDE,
        r is None ==> shifted_value(g@, p as int) > MAX_MAGNITUDE,
{
    if p <= 0 {
        return Some(0);
    }
    let max: u64 = 1_000_000_000_000_000;
    let n = g.len();
    let q: usize = if p < n as i128 { p as usize } else { n };
    let mut acc: u64 = 0;
    let mut j: usize = 0;
    assert(g@.take(0) =~= Seq::<char>::empty());
    while j < q
        invariant
            j <= q <= n == g@.len(),
            all_digits(g@),
            0 < p,
            q as int == (if p < n { p as int } else { n as int }),
            acc == digits_value(g@.take(j as int)),
            acc <= max,
            max == MAX_MAGNITUDE,
        decreases q - j,
    {
        assert(is_digit(g@[j as int]));
        let dd = g[j] as u32 - 48;
        assert(g@.take(j + 1).drop_last() =~= g@.take(j as int));
        assert(g@.take(j + 1).last() == g@[j as int]);
        let na = acc * 10 + dd as u64;
        if na > max {
            proof {
                let dv1 = digits_value(g@.take(j + 1));
                if p <= n {
                    lemma_digits_prefix(g@.take(p as int), j + 1);
                    assert(g@.take(p as int).take(j + 1) =~= g@.take(j + 1));
                } else {
                    lemma_digits_prefix(g@, j + 1);
                    lemma_pow10_mono(0, (p - n) as nat);
                    let dv = digits_value(g@);
                    let pw = pow10((p - n) as nat);
                    assert(dv * pw >= dv) by (nonlinear_arith)
                        requires
                            pw >= 1,
                            dv >= 0,
                    ;
                }
            }
            return None;
        }
        acc = na;
        j = j + 1;
    }
    if p <= n as i128 {
        return Some(acc);
    }
    assert(g@.take(n as int) =~= g@);
    let extra: i128 = p - n as i128;
    if acc == 0 {
        proof {
            let pw = pow10((p - n) as nat);
            let dv0 = digits_value(g@);
            assert(dv0 * pw == 0) by (nonlinear_arith)
                requires
                    dv0 == 0,
            ;
        }
        return Some(0);
    }
    let ghost dv = digits_value(g@);
    let mut t: i128 = 0;
    assert(pow10(0) == 1);
    assert(acc == dv * pow10(0)) by (nonlinear_arith)
        requires
            acc == dv,
            pow10(0) == 1,
    ;
    while t < extra
        invariant
            0 <= t <= extra,
            extra == p - n,
            p > n,
            n == g@.len(),
            dv == digits_value(g@),
            acc == dv * pow10(t as nat),
            1 <= acc <= max,
            max == MAX_MAGNITUDE,
        decreases extra - t,
    {
        assert(pow10((t + 1) as nat) == 10 * pow10(t as nat));
        if acc > 100_000_000_000_000 {
            proof {
                lemma_pow10_mono((t + 1) as nat, extra as nat);
                let a = pow10((t + 1) as nat);
                let b = pow10(extra as nat);
                assert(dv * b >= dv * a) by (nonlinear_arith)
                    requires
                        b >= a,
                        dv >= 0,
                ;
                assert(dv * a == acc * 10) by (nonlinear_arith)
                    requires
                        a == 10 * pow10(t as nat),
                        acc == dv * pow10(t as nat),
                ;
            }
            return None;
        }
        assert(dv * pow10((t + 1) as nat) == acc * 10) by (nonlinear_arith)
            requires
                pow10((t + 1) as nat) == 10 * pow10(t as nat),
                acc == dv * pow10(t as nat),
        ;
        acc = acc * 10;
        t = t + 1;
    }
    Some(acc)
}

/// The characters `v[a..b]` followed by `v[c..d]`.
fn joined(v: &Vec<char>, a: usize, b: usize, c: usize, d: usize) -> (g: Vec<char>)
    requires
        a <= b <= v@.len(),
        c <= d <= v@.len(),
    ensures
        g@ == v@.subrange(a as int, b as int) + v@.subrange(c as int, d as int),
{
    let mut g: Vec<char> = Vec::new();
    let mut i = a;
    while i < b
        invariant
            a <= i <= b <= v@.len(),
            g@ == v@.subrange(a as int, i as int),
        decreases b - i,
    {
        g.push(v[i]);
        assert(v@.subrange(a as int, i + 1) =~= v@.subrange(a as int, i as int).push(v@[i as int]));
        i = i + 1;
    }
    let ghost gi = g@;
    let mut i = c;
    while i < d
        invariant
            c <= i <= d <= v@.len(),
            g@ == gi + v@.subrange(c as int, i as int),
        decreases d - i,
    {
        g.push(v[i]);
        assert(v@.subrange(c as int, i + 1) =~= v@.subrange(c as int, i as int).push(v@[i as int]));
        i = i + 1;
    }
    g
}

/// Reads the unsigned decimal number `v[lo..hi]`, whose exponent mark
/// stands at `e`, into millionths, when it is well formed and within
/// range.
#[verifier::rlimit(40)]
fn parse_scientific(v: &Vec<char>, lo: usize, hi: usize, e: usize) -> (r: Option<u64>)
    requires
        lo <= e < hi <= v@.len(),
        exp_index(v@.subrange(lo as int, hi as int)) == e - lo,
    ensures
        r matches Some(x) ==> unsigned_micros(v@.subrange(lo as int, hi as int)) == Some(x as nat)
            && x <= MAX_MAGNITUDE,
        r is None ==> (unsigned_micros(v@.subrange(lo as int, hi as int)) matches Some(x) ==> x
            > MAX_MAGNITUDE),
{
    reveal(unsigned_micros);
    let ghost b = v@.subrange(lo as int, hi as int);
    let ghost m = b.take(e - lo);
    assert(m =~= v@.subrange(lo as int, e as int));
    let k = index_in(v, lo, e, '.');
    proof {
        lemma_first_index_props(m, '.');
    }
    let ghost ip = m.take(k as int);
    let ghost fp = if k < m.len() { m.skip(k + 1) } else { seq![] };
    assert(ip =~= v@.subrange(lo as int, (lo + k) as int));
    let fp_lo = if k < e - lo { lo + k + 1 } else { e };
    assert(fp =~= v@.subrange(fp_lo as int, e as int));
    assert(b.skip(e - lo + 1) =~= v@.subrange(e + 1, hi as int));
    let ip_ok = digits_in(v, lo, lo + k);
    let fp_ok = digits_in(v, fp_lo, e);
    let c = match parse_exponent(v, e + 1, hi) {
        Some(c) => c,
        None => {
            return None;
        },
    };
    if !ip_ok || !fp_ok || (k == 0 && fp_lo == e) {
        return None;
    }
    let g = joined(v, lo, lo + k, fp_lo, e);
    let ghost x = exponent_value(b.skip(e - lo + 1)).unwrap();
    let ghost pt = ip.len() + x + 6;
    assert(unsigned_micros(b) == Some(shifted_value(ip + fp, pt)));
    assert(all_digits(g@)) by {
        assert forall|j: int| 0 <= j < g@.len() implies is_digit(#[trigger] g@[j]) by {
            if j < ip.len() {
                assert(g@[j] == ip[j]);
            } else {
                assert(g@[j] == fp[j - ip.len()]);
            }
        }
    }
    assert(g@.len() <= v@.len());
    let p: i128 = k as i128 + c + 6;
    let r = shift_digits(&g, p);
    proof {
        if x > EXP_CAP {
            lemma_shift_far(g@, p as int);
            lemma_shift_far(g@, pt);
        } else if x < -EXP_CAP {
        }
    }
    r
}

/// Reads the decimal number `v[lo..hi]` (optional sign, digits, optional
/// decimals, optional exponent) into millionths, when it is well formed
/// and within range.
pub fn parse_decimal_micros(v: &Vec<char>, lo: usize, hi: usize) -> (r: Option<i64>)
    requires
        lo <= hi <= v@.len(),
    ensures
        r matches Some(x) ==> decimal_micros(v@.subrange(lo as int, hi as int)) == Some(x as int),
        r is None ==> decimal_micros(v@.subrange(lo as int, hi as int)) is None,
{
    let ghost s = v@.subrange(lo as int, hi as int);
    let mut i = lo;
    let mut neg = false;
    if i < hi && (v[i] == '-' || v[i] == '+') {
        neg = v[i] == '-';
        i = i + 1;
    }
    assert(v@.subrange(i as int, hi as int) =~= if s.len() > 0 && (s[0] == '-' || s[0] == '+') {
        s.skip(1)
    } else {
        s
    });
    let ea = index_in(v, i, hi, 'e');
    let eb = index_in(v, i, hi, 'E');
    let e_rel = if ea <= eb { ea } else { eb };
    let parsed = if e_rel >= hi - i {
        proof {
            reveal(unsigned_micros);
        }
        parse_unsigned(v, i, hi)
    } else {
        parse_scientific(v, i, hi, i + e_rel)
    };
    match parsed {
        Some(x) => {
            let value = x as i64;
            if neg {
                Some(-value)
            } else {
                Some(value)
            }
        },
        None => None,
    }
}


/// Where the first `pat` starts in `s` at or after `from`; `s.len()` when
/// there is none.
pub open spec fn find_from(s: Seq<char>, pat: Seq<char>, from: int) -> int
    decreases s.len() - from,
{
    if from < 0 || from >= s.len() || from + pat.len() > s.len() {
        s.len() as int
    } else if s.subrange(from, from + pat.len()) == pat {
        from
    } else {
        find_from(s, pat, from + 1)
    }
}

/// The first word of `s`: after any white space, the characters up to the
/// next white space.
pub open spec fn first_word(s: Seq<char>) -> Option<Seq<char>> {
    let a = first_non_space(s, 0);
    if a >= s.len() {
        None
    } else {
        Some(s.subrange(a, first_space(s, a)))
    }
}

/// Where the first character that is not white space stands at or after
/// `from`.
pub open spec fn first_non_space(s: Seq<char>, from: int) -> int
    decreases s.len() - from,
{
    if from < 0 || from >= s.len() {
        s.len() as int
    } else if !is_white_space(s[from]) {
        from
    } else {
        first_non_space(s, from + 1)
    }
}

/// Where the first white space stands at or after `from`.
pub open spec fn first_space(s: Seq<char>, from: int) -> int
    decreases s.len() - from,
{
    if from < 0 || from >= s.len() {
        s.len() as int
    } else if is_white_space(s[from]) {
        from
    } else {
        first_space(s, from + 1)
    }
}

/// The time stamp of an FFmpeg progress line: the first word of the text
/// between the first `time=` and the next one.
pub open spec fn time_word(line: Seq<char>) -> Option<Seq<char>> {
    let m = find_from(line, "time="@, 0);
    if m >= line.len() {
        None
    } else {
        let a = m + "time="@.len();
        first_word(line.subrange(a, find_from(line, "time="@, a)))
    }
}

/// The value in microseconds of a time stamp: `H:M:S` as hours, minutes
/// and seconds, or plain seconds; each part a decimal number.
pub open spec fn clock_micros(w: Seq<char>) -> Option<int> {
    let c1 = first_index(w, ':');
    if c1 >= w.len() {
        decimal_micros(w)
    } else {
        let r1 = w.skip(c1 + 1);
        let c2 = first_index(r1, ':');
        if c2 >= r1.len() {
            None
        } else {
            let r2 = r1.skip(c2 + 1);
            if first_index(r2, ':') < r2.len() {
                None
            } else {
                match (decimal_micros(w.take(c1)), decimal_micros(r1.take(c2)), decimal_micros(r2)) {
                    (Some(h), Some(m), Some(s)) => Some(h * 3600 + m * 60 + s),
                    _ => None,
                }
            }
        }
    }
}

/// The time an FFmpeg progress line reports, in microseconds.
pub open spec fn progress_time(line: Seq<char>) -> Option<int> {
    match time_word(line) {
        Some(w) => clock_micros(w),
        None => None,
    }
}

/// Where the first `pat` starts in `v` at or after `from`.
pub(crate) fn find_pattern(v: &Vec<char>, pat: &Vec<char>, from: usize) -> (r: usize)
    requires
        from <= v@.len(),
    ensures
        r as int == find_from(v@, pat@, from as int),
        r <= v@.len(),
{
    let n = v.len();
    let mut i = from;
    while i < v.len() && pat.len() <= v.len() - i
        invariant
            n == v@.len(),
            from <= i <= v@.len(),
            find_from(v@, pat@, from as int) == find_from(v@, pat@, i as int),
        decreases v.len() - i,
    {
        let mut j: usize = 0;
        let mut same = true;
        while j < pat.len()
            invariant
                n == v@.len(),
                i + pat@.len() <= n,
                j <= pat@.len(),
                same == (forall|k: int| 0 <= k < j ==> v@[i + k] == pat@[k]),
            decreases pat.len() - j,
        {
            let x = v[i + j];
            if x != pat[j] {
                same = false;
            }
            j = j + 1;
        }
        if same {
            assert(v@.subrange(i as int, i + pat@.len()) =~= pat@);
            return i;
        }
        assert(v@.subrange(i as int, i + pat@.len()) != pat@) by {
            let k = choose|k: int| 0 <= k < j && v@[i + k] != pat@[k];
            assert(v@.subrange(i as int, i + pat@.len())[k] == v@[i + k]);
        }
        i = i + 1;
    }
    v.len()
}

/// A match that `find_from` reports lies within `s`.
pub proof fn lemma_find_from_bound(s: Seq<char>, pat: Seq<char>, from: int)
    ensures
        find_from(s, pat, from) < s.len() ==> from <= find_from(s, pat, from) && find_from(s, pat, from) + pat.len() <= s.len(),
        find_from(s, pat, from) <= s.len(),
    decreases s.len() - from,
{
    if !(from < 0 || from >= s.len() || from + pat.len() > s.len()) && s.subrange(from, from + pat.len()) != pat {
        lemma_find_from_bound(s, pat, from + 1);
    }
}

/// Where, in `v[lo..hi]` and counted from `lo`, the first character at or
/// after `from` that is white space (with `space`) or is not (without)
/// stands; the length when there is none.
fn scan_space(v: &Vec<char>, lo: usize, hi: usize, from: usize, space: bool) -> (r: usize)
    requires
        lo <= hi <= v@.len(),
        from <= hi - lo,
    ensures
        space ==> r as int == first_space(v@.subrange(lo as int, hi as int), from as int),
        !space ==> r as int == first_non_space(v@.subrange(lo as int, hi as int), from as int),
        from <= r <= hi - lo,
{
    let ghost s = v@.subrange(lo as int, hi as int);
    let mut i = from;
    while i < hi - lo
        invariant
            lo <= hi <= v@.len(),
            from <= i <= hi - lo,
            s == v@.subrange(lo as int, hi as int),
            space ==> first_space(s, from as int) == first_space(s, i as int),
            !space ==> first_non_space(s, from as int) == first_non_space(s, i as int),
        decreases hi - lo - i,
    {
        let u = v[lo + i] as u32;
        let w = (9 <= u && u <= 13) || u == 32 || u == 0x85 || u == 0xa0 || u == 0x1680 || (0x2000
            <= u && u <= 0x200a) || u == 0x2028 || u == 0x2029 || u == 0x202f || u == 0x205f || u
            == 0x3000;
        assert(s[i as int] == v@[lo + i]);
        assert(w == is_white_space(s[i as int]));
        if w == space {
            return i;
        }
        i = i + 1;
    }
    i
}

/// Where the first `c` stands in `v[lo..hi]`, counted from `lo`.
pub(crate) fn index_in(v: &Vec<char>, lo: usize, hi: usize, c: char) -> (r: usize)
    requires
        lo <= hi <= v@.len(),
    ensures
        r as int == first_index(v@.subrange(lo as int, hi as int), c),
        r <= hi - lo,
{
    let ghost s = v@.subrange(lo as int, hi as int);
    let mut i = lo;
    while i < hi && v[i] != c
        invariant
            lo <= i <= hi <= v@.len(),
            s == v@.subrange(lo as int, hi as int),
            forall|k: int| 0 <= k < i - lo ==> s[k] != c,
        decreases hi - i,
    {
        i = i + 1;
    }
    proof {
        lemma_first_index(s, c, i - lo);
    }
    i - lo
}

/// Reads a time stamp `v[lo..hi]`: `H:M:S` or plain seconds.
fn parse_clock(v: &Vec<char>, lo: usize, hi: usize) -> (r: Option<i64>)
    requires
        lo <= hi <= v@.len(),
    ensures
        r matches Some(x) ==> clock_micros(v@.subrange(lo as int, hi as int)) == Some(x as int),
        r is None ==> clock_micros(v@.subrange(lo as int, hi as int)) is None,
{
    let ghost w = v@.subrange(lo as int, hi as int);
    let c1 = index_in(v, lo, hi, ':');
    if c1 >= hi - lo {
        return parse_decimal_micros(v, lo, hi);
    }
    let lo1 = lo + c1 + 1;
    let ghost r1 = w.skip(c1 + 1);
    assert(r1 =~= v@.subrange(lo1 as int, hi as int));
    let c2 = index_in(v, lo1, hi, ':');
    if c2 >= hi - lo1 {
        return None;
    }
    let lo2 = lo1 + c2 + 1;
    let ghost r2 = r1.skip(c2 + 1);
    assert(r2 =~= v@.subrange(lo2 as int, hi as int));
    let c3 = index_in(v, lo2, hi, ':');
    if c3 < hi - lo2 {
        return None;
    }
    assert(w.take(c1 as int) =~= v@.subrange(lo as int, (lo + c1) as int));
    assert(r1.take(c2 as int) =~= v@.subrange(lo1 as int, (lo1 + c2) as int));
    let h = parse_decimal_micros(v, lo, lo + c1);
    let m = parse_decimal_micros(v, lo1, lo1 + c2);
    let s = parse_decimal_micros(v, lo2, hi);
    match (h, m, s) {
        (Some(h), Some(m), Some(s)) => {
            Some(h * 3600 + m * 60 + s)
        },
        _ => None,
    }
}

/// The time an FFmpeg progress line reports (its `time=H:M:S` field), in
/// microseconds.
pub fn parse_ffmpeg_time(line: &str) -> (r: Option<i64>)
    ensures
        r matches Some(x) ==> progress_time(line@) == Some(x as int),
        r is None ==> progress_time(line@) is None,
{
    let v = chars_of(line);
    let pat = chars_of("time=");
    let m = find_pattern(&v, &pat, 0);
    proof {
        lemma_find_from_bound(v@, pat@, 0);
    }
    if m >= v.len() {
        return None;
    }
    let a = m + pat.len();
    proof {
        lemma_find_from_bound(v@, pat@, a as int);
    }
    let b = find_pattern(&v, &pat, a);
    let ghost rest = v@.subrange(a as int, b as int);
    let ws = scan_space(&v, a, b, 0, false);
    if ws >= b - a {
        return None;
    }
    let we = scan_space(&v, a, b, ws, true);
    assert(rest.subrange(ws as int, we as int) =~= v@.subrange(a + ws, a + we));
    parse_clock(&v, a + ws, a + we)
}


/// A digit's character is a digit of that value.
proof fn lemma_digit_char(k: int)
    requires
        0 <= k <= 9,
    ensures
        is_digit(digit_char(k)),
        digit_value(digit_char(k)) == k,
{
    if k == 0 { assert(digit_char(0) == '0'); }
    else if k == 1 { assert(digit_char(1) == '1'); }
    else if k == 2 { assert(digit_char(2) == '2'); }
    else if k == 3 { assert(digit_char(3) == '3'); }
    else if k == 4 { assert(digit_char(4) == '4'); }
    else if k == 5 { assert(digit_char(5) == '5'); }
    else if k == 6 { assert(digit_char(6) == '6'); }
    else if k == 7 { assert(digit_char(7) == '7'); }
    else if k == 8 { assert(digit_char(8) == '8'); }
    else { assert(digit_char(9) == '9'); }
}

/// The decimal text of a number is digits that spell that number.
pub proof fn lemma_decimal_digits(n: nat)
    ensures
        all_digits(decimal(n)),
        digits_value(decimal(n)) == n,
        decimal(n).len() >= 1,
    decreases n,
{
    let d = decimal(n);
    lemma_digit_char((n % 10) as int);
    if n >= 10 {
        lemma_decimal_digits(n / 10);
        assert(d.drop_last() =~= decimal(n / 10));
        assert(d.last() == digit_char((n % 10) as int));
        assert(digits_value(d) == digits_value(d.drop_last()) * 10 + digit_value(d.last()));
        assert(n == (n / 10) * 10 + n % 10);
        assert(digits_value(d) == n);
    } else {
        assert(d.drop_last() =~= Seq::<char>::empty());
        assert(digits_value(Seq::<char>::empty()) == 0);
        assert(n % 10 == n);
        assert(d.last() == digit_char(n as int));
        assert(digits_value(d) == digits_value(d.drop_last()) * 10 + digit_value(d.last()));
    }
    assert forall|i: int| 0 <= i < d.len() implies is_digit(#[trigger] d[i]) by {
        if n >= 10 && i < d.len() - 1 {
            assert(d[i] == decimal(n / 10)[i]);
        }
    }
}

/// Zeros in front do not change what digits spell.
proof fn lemma_leading_zeros(k: nat, s: Seq<char>)
    ensures
        digits_value(Seq::new(k, |i: int| '0') + s) == digits_value(s),
    decreases s.len(), k,
{
    let z = Seq::new(k, |i: int| '0');
    if s.len() == 0 {
        assert(z + s =~= z);
        if k > 0 {
            lemma_leading_zeros((k - 1) as nat, s);
            assert(z.drop_last() =~= Seq::new((k - 1) as nat, |i: int| '0'));
            assert(Seq::new((k - 1) as nat, |i: int| '0') + s =~= Seq::new((k - 1) as nat, |i: int| '0'));
            assert(digit_value('0') == 0);
        }
    } else {
        lemma_leading_zeros(k, s.drop_last());
        assert((z + s).drop_last() =~= z + s.drop_last());
        assert((z + s).last() == s.last());
    }
}

/// A zero-padded number is digits that spell it.
pub proof fn lemma_zero_padded_digits(n: nat, w: nat)
    ensures
        all_digits(zero_padded(n, w)),
        digits_value(zero_padded(n, w)) == n,
        zero_padded(n, w).len() == if decimal(n).len() < w { w } else { decimal(n).len() },
{
    lemma_decimal_digits(n);
    let d = decimal(n);
    if d.len() < w {
        let z = Seq::new((w - d.len()) as nat, |i: int| '0');
        lemma_leading_zeros((w - d.len()) as nat, d);
        assert forall|i: int| 0 <= i < (z + d).len() implies is_digit(#[trigger] (z + d)[i]) by {
            if i < z.len() {
                assert((z + d)[i] == '0');
            } else {
                assert((z + d)[i] == d[i - z.len()]);
            }
        }
    }
}

/// No match of a pattern starts at or after `from` when none of the
/// characters there is the pattern's first.
proof fn lemma_find_none(s: Seq<char>, pat: Seq<char>, from: int)
    requires
        pat.len() > 0,
        0 <= from,
        forall|j: int| from <= j < s.len() ==> s[j] != pat[0],
    ensures
        find_from(s, pat, from) == s.len(),
    decreases s.len() - from,
{
    if from < s.len() && from + pat.len() <= s.len() {
        assert(s.subrange(from, from + pat.len())[0] != pat[0]);
        lemma_find_none(s, pat, from + 1);
    }
}

/// Past white-space-free text, there is no white space.
proof fn lemma_first_space_none(t: Seq<char>, from: int)
    requires
        0 <= from <= t.len(),
        forall|j: int| 0 <= j < t.len() ==> !is_white_space(#[trigger] t[j]),
    ensures
        first_space(t, from) == t.len(),
    decreases t.len() - from,
{
    if from < t.len() {
        lemma_first_space_none(t, from + 1);
    }
}

/// Whether `t` is digits, a decimal point, then six digits.
pub open spec fn is_six_decimals(t: Seq<char>, ip: Seq<char>, fp: Seq<char>) -> bool {
    &&& t == ip + seq!['.'] + fp
    &&& ip.len() >= 1
    &&& all_digits(ip)
    &&& all_digits(fp)
    &&& fp.len() == 6
}

/// A number with six decimals is the time stamp of the progress line
/// `time=<number>`.
proof fn lemma_time_word(t: Seq<char>, ip: Seq<char>, fp: Seq<char>)
    requires
        is_six_decimals(t, ip, fp),
    ensures
        time_word("time="@ + t) == Some(t),
{
    reveal_strlit("time=");
    let line = "time="@ + t;
    assert(line.subrange(0, 5) =~= "time="@);
    assert(find_from(line, "time="@, 0) == 0);
    assert forall|j: int| 0 <= j < t.len() implies !is_white_space(#[trigger] t[j]) && t[j] != 't' by {
        if j < ip.len() {
            assert(t[j] == ip[j]);
            assert(is_digit(ip[j]));
        } else if j > ip.len() {
            assert(t[j] == fp[j - ip.len() - 1]);
            assert(is_digit(fp[j - ip.len() - 1]));
        } else {
            assert(t[j] == '.');
        }
    }
    assert forall|j: int| 5 <= j < line.len() implies line[j] != "time="@[0] by {
        assert(line[j] == t[j - 5]);
    }
    lemma_find_none(line, "time="@, 5);
    assert(line.subrange(5, line.len() as int) =~= t);
    lemma_first_space_none(t, 0);
    assert(!is_white_space(t[0]));
    assert(first_non_space(t, 0) == 0);
    assert(t.subrange(0, t.len() as int) =~= t);
}

/// Digits, a point and six digits read as the number they spell, in
/// millionths.
proof fn lemma_read_six_decimals(t: Seq<char>, ip: Seq<char>, fp: Seq<char>)
    requires
        is_six_decimals(t, ip, fp),
        digits_value(ip) * 1_000_000 + digits_value(fp) <= MAX_MAGNITUDE,
    ensures
        clock_micros(t) == Some((digits_value(ip) * 1_000_000 + digits_value(fp)) as int),
{
    assert forall|j: int| 0 <= j < t.len() implies t[j] != ':' && t[j] != 'e' && t[j] != 'E' by {
        if j < ip.len() {
            assert(t[j] == ip[j]);
            assert(is_digit(ip[j]));
        } else if j > ip.len() {
            assert(t[j] == fp[j - ip.len() - 1]);
            assert(is_digit(fp[j - ip.len() - 1]));
        }
    }
    lemma_first_index(t, ':', t.len() as int);
    lemma_no_exponent(t);
    assert forall|i: int| 0 <= i < ip.len() implies t[i] != '.' by {
        assert(t[i] == ip[i]);
        assert(is_digit(ip[i]));
    }
    lemma_first_index(t, '.', ip.len() as int);
    assert(t[ip.len() as int] == '.');
    assert(t[0] == ip[0]);
    assert(is_digit(ip[0]));
    assert(t.take(ip.len() as int) =~= ip);
    assert(t.skip(ip.len() as int + 1) =~= fp);
    assert(fp.take(6) =~= fp);
    reveal_with_fuel(pow10, 2);
    assert(pow10(0) == 1);
    let ghost six: nat = 6;
    assert(fp.take(six as int) =~= fp);
    let ghost a = digits_value(fp.take(six as int));
    assert(a == digits_value(fp));
    let ghost pw = pow10((six - six) as nat);
    assert(pw == 1);
    assert(a * pw == a) by (nonlinear_arith)
        requires
            pw == 1,
    ;
    assert(fraction_micros(fp) == a * pw);
    assert(fraction_micros(fp) == digits_value(fp));
}

/// What `fmt_dur` prints, the progress reader reads back: a progress line
/// `time=<seconds>` reports the duration that was printed (a negative
/// duration prints, and so reads, as zero).
pub proof fn lemma_seconds_text_read_back(us: int)
    requires
        us <= MAX_MAGNITUDE,
    ensures
        progress_time("time="@ + seconds_text(us)) == Some(if us < 0 { 0 } else { us }),
{
    let v: nat = if us < 0 { 0 } else { us as nat };
    let q = v / 1_000_000;
    let r = v % 1_000_000;
    let ip = decimal(q);
    let fp = zero_padded(r, 6);
    let t = seconds_text(us);
    lemma_decimal_digits(q);
    lemma_zero_padded_digits(r, 6);
    reveal_with_fuel(pow10, 7);
    crate::numfmt::lemma_decimal_len(r, 6);
    assert(is_six_decimals(t, ip, fp));
    lemma_time_word(t, ip, fp);
    lemma_read_six_decimals(t, ip, fp);
}


/// The decimals of a number without trailing zeros are digits, at least
/// one, that scaled back to `w` places give the number.
proof fn lemma_trimmed_fraction(f: nat, w: nat)
    requires
        0 < f < pow10(w),
    ensures
        ({
            let t = trim_trailing_zeros(zero_padded(f, w));
            &&& all_digits(t)
            &&& 1 <= t.len() <= w
            &&& digits_value(t) * pow10((w - t.len()) as nat) == f
        }),
    decreases w,
{
    let t = trim_trailing_zeros(zero_padded(f, w));
    if w == 0 {
        assert(pow10(0) == 1);
    } else if f % 10 == 0 {
        lemma_trim_padded(f, w);
        assert(pow10(w) == 10 * pow10((w - 1) as nat));
        assert(f / 10 < pow10((w - 1) as nat)) by (nonlinear_arith)
            requires
                f < 10 * pow10((w - 1) as nat),
        ;
        assert(f / 10 > 0);
        lemma_trimmed_fraction(f / 10, (w - 1) as nat);
        let k = (w - 1 - t.len()) as nat;
        assert(pow10((w - t.len()) as nat) == 10 * pow10(k));
        let dv = digits_value(t);
        assert(dv * pow10((w - t.len()) as nat) == f) by (nonlinear_arith)
            requires
                dv * pow10(k) == f / 10,
                pow10((w - t.len()) as nat) == 10 * pow10(k),
                f % 10 == 0,
        ;
    } else {
        lemma_trim_padded(f, w);
        assert(t == zero_padded(f, w));
        lemma_zero_padded_digits(f, w);
        lemma_decimal_len(f, w);
        assert(t.len() == w);
        assert(pow10(0) == 1);
        assert(digits_value(t) * pow10(0) == f);
    }
}

/// What `fmt_fixed` prints, the decimal reader reads back: the printed
/// text of a number within range is read as that number.
pub proof fn lemma_fixed_text_read_back(v: int)
    requires
        -MAX_MAGNITUDE <= v <= MAX_MAGNITUDE,
    ensures
        decimal_micros(fixed_text(v)) == Some(v),
{
    let a = abs(v);
    let q = a / 1_000_000;
    let frac = a % 1_000_000;
    let ip = decimal(q);
    lemma_decimal_digits(q);
    let text = fixed_text(v);
    let body = if frac == 0 { ip } else { ip + seq!['.'] + trim_trailing_zeros(zero_padded(frac, 6)) };
    assert(text == sign_text(v) + body);
    assert(body[0] == ip[0]);
    assert(is_digit(ip[0]));
    let b = if text.len() > 0 && (text[0] == '-' || text[0] == '+') { text.skip(1) } else { text };
    if v < 0 {
        assert(text[0] == '-');
        assert(b =~= body);
    } else {
        assert(text =~= body);
        assert(b == body);
    }
    reveal_with_fuel(pow10, 7);
    if frac == 0 {
        assert forall|i: int| 0 <= i < b.len() implies b[i] != '.' by {
            assert(is_digit(ip[i]));
        }
        lemma_first_index(b, '.', b.len() as int);
        assert(b.take(b.len() as int) =~= ip);
        let e: Seq<char> = seq![];
        assert(e.take(0) =~= e);
        let z = digits_value(e.take(0));
        let pw = pow10(6);
        assert(z * pw == 0) by (nonlinear_arith)
            requires
                z == 0,
        ;
        assert(fraction_micros(e) == 0);
        assert(plain_micros(b) == Some(q * 1_000_000));
        assert forall|j: int| 0 <= j < b.len() implies b[j] != 'e' && b[j] != 'E' by {
            assert(is_digit(ip[j]));
        }
        lemma_no_exponent(b);
    } else {
        let t = trim_trailing_zeros(zero_padded(frac, 6));
        lemma_trimmed_fraction(frac, 6);
        assert forall|i: int| 0 <= i < ip.len() implies b[i] != '.' by {
            assert(b[i] == ip[i]);
            assert(is_digit(ip[i]));
        }
        lemma_first_index(b, '.', ip.len() as int);
        assert(b[ip.len() as int] == '.');
        assert(b.take(ip.len() as int) =~= ip);
        assert(b.skip(ip.len() as int + 1) =~= t);
        assert(t.take(t.len() as int) =~= t);
        assert(fraction_micros(t) == frac);
        assert(plain_micros(b) == Some(q * 1_000_000 + frac));
        assert forall|j: int| 0 <= j < b.len() implies b[j] != 'e' && b[j] != 'E' by {
            if j < ip.len() {
                assert(b[j] == ip[j]);
                assert(is_digit(ip[j]));
            } else if j > ip.len() {
                assert(b[j] == t[j - ip.len() - 1]);
                assert(is_digit(t[j - ip.len() - 1]));
            }
        }
        lemma_no_exponent(b);
    }
}

/// The characters of a decimal number: digits, a point, signs and the
/// exponent mark.
pub open spec fn is_number_char(c: char) -> bool {
    is_digit(c) || c == '.' || c == '-' || c == '+' || c == 'e' || c == 'E'
}

/// A number without exponent that the reader accepts is one or more
/// digits and points.
proof fn lemma_plain_chars(b: Seq<char>)
    requires
        plain_micros(b) is Some,
    ensures
        b.len() >= 1,
        forall|j: int| 0 <= j < b.len() ==> is_number_char(#[trigger] b[j]),
{
    let k = first_index(b, '.');
    lemma_first_index_props(b, '.');
    let ip = b.take(k);
    let fp = if k < b.len() { b.skip(k + 1) } else { seq![] };
    assert(all_digits(ip) && all_digits(fp) && ip.len() + fp.len() > 0);
    assert forall|j: int| 0 <= j < b.len() implies is_number_char(#[trigger] b[j]) by {
        if j < k {
            assert(ip[j] == b[j]);
            assert(is_digit(ip[j]));
        } else if j > k {
            assert(fp[j - k - 1] == b[j]);
            assert(is_digit(fp[j - k - 1]));
        }
    }
}

/// A number that the decimal reader accepts is one or more characters of
/// a decimal number.
proof fn lemma_decimal_chars(t: Seq<char>)
    requires
        decimal_micros(t) is Some,
    ensures
        t.len() >= 1,
        forall|j: int| 0 <= j < t.len() ==> is_number_char(#[trigger] t[j]),
{
    reveal(unsigned_micros);
    let signed = t.len() > 0 && (t[0] == '-' || t[0] == '+');
    let b = if signed { t.skip(1) } else { t };
    let e = exp_index(b);
    lemma_first_index_props(b, 'e');
    lemma_first_index_props(b, 'E');
    if e >= b.len() {
        lemma_plain_chars(b);
    } else {
        let m = b.take(e);
        let x = b.skip(e + 1);
        assert(plain_micros(m) is Some);
        lemma_plain_chars(m);
        let d = if x.len() > 0 && (x[0] == '-' || x[0] == '+') { x.skip(1) } else { x };
        assert(all_digits(d));
        assert forall|j: int| 0 <= j < b.len() implies is_number_char(#[trigger] b[j]) by {
            if j < e {
                assert(b[j] == m[j]);
            } else if j > e {
                assert(b[j] == x[j - e - 1]);
                if x.len() > 0 && (x[0] == '-' || x[0] == '+') {
                    if j - e - 1 > 0 {
                        assert(x[j - e - 1] == d[j - e - 2]);
                        assert(is_digit(d[j - e - 2]));
                    }
                } else {
                    assert(is_digit(d[j - e - 1]));
                }
            }
        }
    }
    assert forall|j: int| 0 <= j < t.len() implies is_number_char(#[trigger] t[j]) by {
        if signed {
            if j > 0 {
                assert(t[j] == b[j - 1]);
            }
        } else {
            assert(t[j] == b[j]);
        }
    }
}

/// When `find_from` reports no match at or after `from`, no window there
/// is the pattern.
proof fn lemma_no_match(s: Seq<char>, pat: Seq<char>, from: int)
    requires
        0 <= from,
        pat.len() > 0,
        find_from(s, pat, from) == s.len(),
    ensures
        forall|i: int| from <= i && i + pat.len() <= s.len() ==> #[trigger] s.subrange(i, i + pat.len()) != pat,
    decreases s.len() - from,
{
    if from < s.len() && from + pat.len() <= s.len() {
        lemma_no_match(s, pat, from + 1);
    }
}

/// The first match at or after `from` is `target` when no window before
/// it matches.
proof fn lemma_find_at(s: Seq<char>, pat: Seq<char>, from: int, target: int)
    requires
        0 <= from <= target,
        pat.len() > 0,
        target + pat.len() <= s.len(),
        s.subrange(target, target + pat.len()) == pat,
        forall|i: int| from <= i < target ==> #[trigger] s.subrange(i, i + pat.len()) != pat,
    ensures
        find_from(s, pat, from) == target,
    decreases target - from,
{
    if from < target {
        lemma_find_at(s, pat, from + 1, target);
    }
}

/// Characters that are not the pattern's first cannot start a match.
proof fn lemma_find_skips(s: Seq<char>, pat: Seq<char>, from: int, to: int)
    requires
        0 <= from <= to <= s.len(),
        pat.len() > 0,
        forall|j: int| from <= j < to ==> s[j] != pat[0],
    ensures
        find_from(s, pat, from) == find_from(s, pat, to),
    decreases to - from,
{
    if from < to {
        if from + pat.len() <= s.len() {
            assert(s.subrange(from, from + pat.len())[0] == s[from]);
        }
        lemma_find_skips(s, pat, from + 1, to);
    }
}

/// A search from `from` ends at or after `from`.
proof fn lemma_find_from_range(s: Seq<char>, pat: Seq<char>, from: int)
    requires
        0 <= from <= s.len(),
    ensures
        from <= find_from(s, pat, from) <= s.len(),
    decreases s.len() - from,
{
    if from < s.len() && from + pat.len() <= s.len() && s.subrange(from, from + pat.len()) != pat {
        lemma_find_from_range(s, pat, from + 1);
    }
}

/// The first white space at or after `from` is at `target`.
proof fn lemma_first_space_at(t: Seq<char>, from: int, target: int)
    requires
        0 <= from <= target <= t.len(),
        forall|j: int| from <= j < target ==> !is_white_space(#[trigger] t[j]),
        target == t.len() || is_white_space(t[target]),
    ensures
        first_space(t, from) == target,
    decreases target - from,
{
    if from < target {
        lemma_first_space_at(t, from + 1, target);
    }
}

/// The first `time=` of a line is the one after a prefix that holds none.
proof fn lemma_first_time_field(prefix: Seq<char>, rest: Seq<char>)
    requires
        find_from(prefix, "time="@, 0) == prefix.len(),
    ensures
        find_from(prefix + "time="@ + rest, "time="@, 0) == prefix.len(),
{
    reveal_strlit("time=");
    let pat = "time="@;
    let line = prefix + pat + rest;
    let p = prefix.len() as int;
    assert(line.subrange(p, p + 5) =~= pat);
    lemma_no_match(prefix, pat, 0);
    assert forall|i: int| 0 <= i < p implies #[trigger] line.subrange(i, i + pat.len()) != pat by {
        if i + 5 <= p {
            assert(line.subrange(i, i + 5) =~= prefix.subrange(i, i + 5));
        } else {
            let d = p - i;
            assert(line.subrange(i, i + 5)[d] == line[p]);
            assert(line[p] == 't');
        }
    }
    lemma_find_at(line, pat, 0, p);
}

/// The time stamp of a progress line whose first `time=` comes after
/// `prefix` is the word that follows that `time=`.
proof fn lemma_time_word_after(prefix: Seq<char>, w: Seq<char>, suffix: Seq<char>)
    requires
        find_from(prefix, "time="@, 0) == prefix.len(),
        w.len() >= 1,
        forall|j: int| 0 <= j < w.len() ==> is_number_char(#[trigger] w[j]) || w[j] == ':',
        suffix.len() == 0 || is_white_space(suffix[0]),
    ensures
        time_word(prefix + "time="@ + (w + suffix)) == Some(w),
{
    reveal_strlit("time=");
    let pat = "time="@;
    let line = prefix + pat + (w + suffix);
    lemma_first_time_field(prefix, w + suffix);
    let p = prefix.len() as int;
    let a = p + 5;
    let e = a + w.len();
    assert forall|j: int| a <= j < e implies line[j] != pat[0] by {
        assert(line[j] == w[j - a]);
    }
    lemma_find_skips(line, pat, a, e);
    lemma_find_from_range(line, pat, e);
    let nx = find_from(line, pat, a);
    let seg = line.subrange(a, nx);
    assert forall|j: int| 0 <= j < w.len() implies !is_white_space(#[trigger] seg[j]) by {
        assert(seg[j] == w[j]);
    }
    if nx > e {
        assert(seg[w.len() as int] == suffix[0]);
    }
    assert(seg[0] == w[0]);
    assert(first_non_space(seg, 0) == 0);
    lemma_first_space_at(seg, 0, w.len() as int);
    assert(seg.subrange(0, w.len() as int) =~= w);
}

/// `H:M:S` reads as hours, minutes and seconds, and a plain number as
/// seconds.
proof fn lemma_clock_parts(hp: Seq<char>, mp: Seq<char>, sp: Seq<char>)
    requires
        decimal_micros(hp) is Some,
        decimal_micros(mp) is Some,
        decimal_micros(sp) is Some,
    ensures
        clock_micros(hp + seq![':'] + mp + seq![':'] + sp) == Some(
            decimal_micros(hp).unwrap() * 3600 + decimal_micros(mp).unwrap() * 60 + decimal_micros(sp).unwrap(),
        ),
        clock_micros(sp) == decimal_micros(sp),
{
    lemma_decimal_chars(hp);
    lemma_decimal_chars(mp);
    lemma_decimal_chars(sp);
    let w = hp + seq![':'] + mp + seq![':'] + sp;
    let h = hp.len() as int;
    assert forall|i: int| 0 <= i < h implies w[i] != ':' by {
        assert(w[i] == hp[i]);
        assert(is_number_char(hp[i]));
    }
    lemma_first_index(w, ':', h);
    assert(w[h] == ':');
    let r1 = w.skip(h + 1);
    assert(r1 =~= mp + seq![':'] + sp);
    let m = mp.len() as int;
    assert forall|i: int| 0 <= i < m implies r1[i] != ':' by {
        assert(r1[i] == mp[i]);
        assert(is_number_char(mp[i]));
    }
    lemma_first_index(r1, ':', m);
    assert(r1[m] == ':');
    let r2 = r1.skip(m + 1);
    assert(r2 =~= sp);
    assert forall|i: int| 0 <= i < sp.len() implies sp[i] != ':' by {
        assert(is_number_char(sp[i]));
    }
    lemma_first_index(sp, ':', sp.len() as int);
    assert(w.take(h) =~= hp);
    assert(r1.take(m) =~= mp);
}

/// A progress line reports the time of its first `time=` field, whatever
/// text holding no `time=` stands before it and whatever follows it from
/// a white space on: `H:M:S` reads back as H hours, M minutes and S
/// seconds, and a plain number as that many seconds.
pub proof fn lemma_progress_line_read_back(
    prefix: Seq<char>,
    hp: Seq<char>,
    mp: Seq<char>,
    sp: Seq<char>,
    suffix: Seq<char>,
)
    requires
        find_from(prefix, "time="@, 0) == prefix.len(),
        decimal_micros(hp) is Some,
        decimal_micros(mp) is Some,
        decimal_micros(sp) is Some,
        suffix.len() == 0 || is_white_space(suffix[0]),
    ensures
        progress_time(prefix + "time="@ + (hp + seq![':'] + mp + seq![':'] + sp + suffix)) == Some(
            decimal_micros(hp).unwrap() * 3600 + decimal_micros(mp).unwrap() * 60 + decimal_micros(sp).unwrap(),
        ),
        progress_time(prefix + "time="@ + (sp + suffix)) == decimal_micros(sp),
{
    lemma_decimal_chars(hp);
    lemma_decimal_chars(mp);
    lemma_decimal_chars(sp);
    let w = hp + seq![':'] + mp + seq![':'] + sp;
    assert forall|j: int| 0 <= j < w.len() implies is_number_char(#[trigger] w[j]) || w[j] == ':' by {
        if j < hp.len() {
            assert(w[j] == hp[j]);
        } else if hp.len() < j < hp.len() + 1 + mp.len() {
            assert(w[j] == mp[j - hp.len() - 1]);
        } else if j > hp.len() + 1 + mp.len() {
            assert(w[j] == sp[j - hp.len() - mp.len() - 2]);
        }
    }
    assert(w + suffix =~= hp + seq![':'] + mp + seq![':'] + sp + suffix);
    lemma_time_word_after(prefix, w, suffix);
    lemma_time_word_after(prefix, sp, suffix);
    lemma_clock_parts(hp, mp, sp);
}

/// A progress line that prints hours, minutes and seconds as `fmt_fixed`
/// does, after text holding no `time=` and before text that starts with a
/// white space, reports `H * 3600 + M * 60 + S`.
pub proof fn lemma_printed_clock_read_back(prefix: Seq<char>, h: int, m: int, s: int, suffix: Seq<char>)
    requires
        find_from(prefix, "time="@, 0) == prefix.len(),
        -MAX_MAGNITUDE <= h <= MAX_MAGNITUDE,
        -MAX_MAGNITUDE <= m <= MAX_MAGNITUDE,
        -MAX_MAGNITUDE <= s <= MAX_MAGNITUDE,
        suffix.len() == 0 || is_white_space(suffix[0]),
    ensures
        progress_time(
            prefix + "time="@ + (fixed_text(h) + seq![':'] + fixed_text(m) + seq![':'] + fixed_text(s) + suffix),
        ) == Some(h * 3600 + m * 60 + s),
        progress_time(prefix + "time="@ + (fixed_text(s) + suffix)) == Some(s),
{
    lemma_fixed_text_read_back(h);
    lemma_fixed_text_read_back(m);
    lemma_fixed_text_read_back(s);
    lemma_progress_line_read_back(prefix, fixed_text(h), fixed_text(m), fixed_text(s), suffix);
}

} // verus!
