//! Numbers as text, and decimal quantities held exactly.
//!
//! Readings arrive as decimals: a link rate of 1.5 Mbit/s, a pack of
//! 57.02 Wh. [`Decimal`] holds one in millionths, so comparing two of them is
//! comparing integers.

use vstd::prelude::*;
use crate::text::{chars_of, is_digit};

verus! {

// ---------------------------------------------------------------------------
// writing
// ---------------------------------------------------------------------------

/// The character of one decimal digit.
pub open spec fn digit_char(d: nat) -> char {
    ((48 + d) as u8) as char
}

/// A number in decimal, without leading zeros.
pub open spec fn dec(n: nat) -> Seq<char>
    decreases n,
{
    if n < 10 {
        seq![digit_char(n)]
    } else {
        dec(n / 10).push(digit_char(n % 10))
    }
}

fn push_dec(out: &mut String, n: u128)
    ensures
        final(out)@ == old(out)@ + dec(n as nat),
    decreases n,
{
    let ghost before = out@;
    if n >= 10 {
        push_dec(out, n / 10);
    }
    let d: u8 = (n % 10) as u8;
    out.push((48 + d) as char);
    assert(out@ =~= before + dec(n as nat));
}

pub fn number(n: u64) -> (r: String)
    ensures
        r@ == dec(n as nat),
{
    let mut out = String::new();
    push_dec(&mut out, n as u128);
    assert(out@ =~= dec(n as nat));
    out
}

/// An integer in decimal, with a minus sign where it is negative.
pub open spec fn dec_int(i: int) -> Seq<char> {
    if i < 0 {
        seq!['-'] + dec((-i) as nat)
    } else {
        dec(i as nat)
    }
}

pub fn integer(i: i64) -> (r: String)
    ensures
        r@ == dec_int(i as int),
{
    if i < 0 {
        let mut out = String::new();
        out.push('-');
        let n: u64 = (-(i as i128)) as u64;
        push_dec(&mut out, n as u128);
        assert(out@ =~= seq!['-'] + dec((-i) as nat));
        out
    } else {
        number(i as u64)
    }
}

/// The last `width` digits of a number, zeros in front where it is shorter.
pub open spec fn dec_fixed(n: nat, width: nat) -> Seq<char>
    decreases width,
{
    if width == 0 {
        Seq::empty()
    } else {
        dec_fixed(n / 10, (width - 1) as nat).push(digit_char(n % 10))
    }
}

pub fn push_fixed(out: &mut String, n: u64, width: usize)
    ensures
        final(out)@ == old(out)@ + dec_fixed(n as nat, width as nat),
    decreases width,
{
    let ghost before = out@;
    if width > 0 {
        push_fixed(out, n / 10, width - 1);
        let d: u8 = (n % 10) as u8;
        out.push((48 + d) as char);
    }
    assert(out@ =~= before + dec_fixed(n as nat, width as nat));
}

/// The character of one hexadecimal digit, in lower case.
pub open spec fn hex_char(d: nat) -> char {
    if d < 10 {
        digit_char(d)
    } else {
        ((87 + d) as u8) as char
    }
}

/// The last `width` hexadecimal digits of a number, zeros in front.
pub open spec fn hex_fixed(n: nat, width: nat) -> Seq<char>
    decreases width,
{
    if width == 0 {
        Seq::empty()
    } else {
        hex_fixed(n / 16, (width - 1) as nat).push(hex_char(n % 16))
    }
}

/// Digits written are digits, and read back as the number.
pub proof fn lemma_hex_fixed(n: nat, width: nat)
    ensures
        hex_fixed(n, width).len() == width,
        forall|i: int| 0 <= i < width ==> hex_value(#[trigger] hex_fixed(n, width)[i]) is Some,
        n < vstd::arithmetic::power::pow(16, width) ==> hex_number(hex_fixed(n, width)) == Some(n),
    decreases width,
{
    reveal(vstd::arithmetic::power::pow);
    if width > 0 {
        lemma_hex_fixed(n / 16, (width - 1) as nat);
        let all = hex_fixed(n, width);
        assert(all.drop_last() =~= hex_fixed(n / 16, (width - 1) as nat));
        assert(hex_value(hex_char(n % 16)) == Some(n % 16));
    }
}

pub fn push_hex(out: &mut String, n: u32, width: usize)
    ensures
        final(out)@ == old(out)@ + hex_fixed(n as nat, width as nat),
    decreases width,
{
    let ghost before = out@;
    if width > 0 {
        push_hex(out, n / 16, width - 1);
        let d: u8 = (n % 16) as u8;
        if d < 10 {
            out.push((48 + d) as char);
        } else {
            out.push((87 + d) as char);
        }
    }
    assert(out@ =~= before + hex_fixed(n as nat, width as nat));
}

/// Four hexadecimal digits, the way vendor and product ids are written.
pub fn hex4(n: u16) -> (r: String)
    ensures
        r@ == hex_fixed(n as nat, 4),
{
    let mut out = String::new();
    push_hex(&mut out, n as u32, 4);
    assert(out@ =~= hex_fixed(n as nat, 4));
    out
}

/// The digits after the point, without the zeros at the end.
pub open spec fn fraction_digits(f: nat, width: nat) -> Seq<char>
    decreases width,
{
    if f == 0 || width == 0 {
        Seq::empty()
    } else if f % 10 == 0 {
        fraction_digits(f / 10, (width - 1) as nat)
    } else {
        dec_fixed(f, width)
    }
}

/// `whole.fraction`, where the fraction has `width` digits and loses the zeros
/// at its end, and the point goes with them when none are left.
pub open spec fn shortest(whole: nat, fraction: nat, width: nat) -> Seq<char> {
    let tail = fraction_digits(fraction, width);
    if tail.len() == 0 {
        dec(whole)
    } else {
        dec(whole) + seq!['.'] + tail
    }
}

proof fn lemma_fixed_len(n: nat, width: nat)
    ensures
        dec_fixed(n, width).len() == width,
    decreases width,
{
    if width > 0 {
        lemma_fixed_len(n / 10, (width - 1) as nat);
    }
}

pub fn shortest_text(whole: u64, fraction: u64, width: usize) -> (r: String)
    ensures
        r@ == shortest(whole as nat, fraction as nat, width as nat),
{
    let mut f: u64 = fraction;
    let mut w: usize = width;
    while f != 0 && w != 0 && f % 10 == 0
        invariant
            w <= width,
            fraction_digits(f as nat, w as nat) == fraction_digits(fraction as nat, width as nat),
        decreases w,
    {
        f = f / 10;
        w = w - 1;
    }
    let mut out = number(whole);
    if f == 0 || w == 0 {
        return out;
    }
    proof {
        lemma_fixed_len(f as nat, w as nat);
    }
    out.push('.');
    push_fixed(&mut out, f, w);
    assert(out@ =~= dec(whole as nat) + seq!['.'] + dec_fixed(f as nat, w as nat));
    out
}

/// A scaled integer written with exactly one digit after the point.
pub open spec fn tenths(n: nat) -> Seq<char> {
    dec(n / 10) + seq!['.'] + seq![digit_char(n % 10)]
}

pub fn tenths_text(n: u64) -> (r: String)
    ensures
        r@ == tenths(n as nat),
{
    let mut out = number(n / 10);
    out.push('.');
    let d: u8 = (n % 10) as u8;
    out.push((48 + d) as char);
    assert(out@ =~= tenths(n as nat));
    out
}

// ---------------------------------------------------------------------------
// rounding
// ---------------------------------------------------------------------------

/// `n` doubled until the quotient by `d` has the fifty-three significant bits
/// that a double keeps.
pub open spec fn widened(n: nat, d: nat) -> nat
    decreases
            if n < d * 0x10_0000_0000_0000 {
                d * 0x10_0000_0000_0000 - n
            } else {
                0
            },
{
    if n == 0 || d == 0 || n >= d * 0x10_0000_0000_0000 {
        n
    } else {
        widened(2 * n, d)
    }
}

/// Where the double nearest to `n / d` lies: below it (-1), on it (0) or above
/// it (1).
pub open spec fn double_side(n: nat, d: nat) -> int {
    let w = widened(n, d);
    let q = w / d;
    let r = w % d;
    if r == 0 {
        0
    } else if 2 * r < d || (2 * r == d && q % 2 == 0) {
        -1
    } else {
        1
    }
}

/// `n / d` to the nearest whole number, the way a double prints it: a quotient
/// that falls half-way goes to the side its double lies on, and to the even
/// neighbour where the double is exact.
pub open spec fn rounded(n: nat, d: nat, side: int) -> nat {
    let q = n / d;
    let r = n % d;
    if 2 * r < d {
        q
    } else if 2 * r > d {
        q + 1
    } else if side < 0 {
        q
    } else if side > 0 {
        q + 1
    } else if q % 2 == 0 {
        q
    } else {
        q + 1
    }
}

/// Where the double nearest to `n / d` lies.
pub fn side_of(n: u64, d: u64) -> (r: i8)
    requires
        0 < d <= 1_000_000_000,
    ensures
        r as int == double_side(n as nat, d as nat),
{
    let top: u128 = d as u128 * 0x10_0000_0000_0000;
    let mut w: u128 = n as u128;
    if n > 0 {
        while w < top
            invariant
                top == d * 0x10_0000_0000_0000,
                0 < d <= 1_000_000_000,
                0 < w <= 0xffff_ffff_ffff_ffff || w < 2 * top,
                0 < w,
                widened(w as nat, d as nat) == widened(n as nat, d as nat),
            decreases
                    if w < top {
                        top - w
                    } else {
                        0
                    },
        {
            w = 2 * w;
        }
    }
    let dd: u128 = d as u128;
    let q: u128 = w / dd;
    let m: u128 = w % dd;
    if m == 0 {
        0
    } else if 2 * m < dd || (2 * m == dd && q % 2 == 0) {
        -1
    } else {
        1
    }
}

pub fn round_div(n: u64, d: u64, side: i8) -> (r: u64)
    requires
        0 < d <= 0x7fff_ffff_ffff_ffff,
    ensures
        r as nat == rounded(n as nat, d as nat, side as int),
{
    let q: u64 = n / d;
    let m: u64 = n % d;
    if 2 * m < d {
        q
    } else {
        proof {
            assert(q + 1 <= u64::MAX) by (nonlinear_arith)
                requires
                    q == n / d,
                    m == n % d,
                    m > 0 || d > 1,
                    d > 0,
                    2 * m >= d,
                    n <= u64::MAX,
            ;
        }
        if 2 * m > d {
            q + 1
        } else if side < 0 {
            q
        } else if side > 0 {
            q + 1
        } else if q % 2 == 0 {
            q
        } else {
            q + 1
        }
    }
}

/// The double nearest to `a / b`, where that is at least 2^52 and so is whole.
pub open spec fn wide_double(a: nat, b: nat) -> nat
    decreases a - b,
{
    if b == 0 || a < b * 0x20_0000_0000_0000 {
        rounded(a, b, 0)
    } else {
        2 * wide_double(a, 2 * b)
    }
}

/// The double nearest to a whole number.
pub open spec fn whole_double(n: nat) -> nat {
    wide_double(n, 1)
}

/// The double nearest to `a / b`, as a whole number over a power of two.
pub open spec fn double_of(a: nat, b: nat) -> (nat, nat)
    decreases
            if a < b * 0x10_0000_0000_0000 {
                b * 0x10_0000_0000_0000 - a
            } else {
                0
            },
{
    if a == 0 || b == 0 || a >= b * 0x10_0000_0000_0000 {
        (wide_double(a, b), 1)
    } else {
        let (p, q) = double_of(2 * a, b);
        (p, 2 * q)
    }
}

/// What dividing two whole numbers and multiplying by a hundred comes to where
/// each step is kept as a double: a whole number over a power of two.
pub open spec fn percent_double(n: nat, d: nat) -> (nat, nat) {
    let (p, q) = double_of(whole_double(n), whole_double(d));
    (whole_double(100 * p), q)
}

fn round_even(n: u128, d: u128) -> (r: u128)
    requires
        0 < d < 0x4000_0000_0000_0000_0000_0000_0000_0000,
        n < 0x4000_0000_0000_0000_0000_0000_0000_0000,
    ensures
        r as nat == rounded(n as nat, d as nat, 0),
{
    let q: u128 = n / d;
    let m: u128 = n % d;
    proof {
        assert(q <= n) by (nonlinear_arith)
            requires
                q == n / d,
                d > 0,
                n >= 0,
        ;
    }
    if 2 * m < d {
        q
    } else if 2 * m > d {
        q + 1
    } else if q % 2 == 0 {
        q
    } else {
        q + 1
    }
}

proof fn lemma_rounded(a: nat, b: nat)
    requires
        b > 0,
    ensures
        2 * rounded(a, b, 0) * b <= 2 * a + b,
{
    let q = a / b;
    let r = a % b;
    assert(a == q * b + r && 0 <= r < b) by (nonlinear_arith)
        requires
            q == a / b,
            r == a % b,
            b > 0,
    ;
    let n = rounded(a, b, 0);
    if n == q {
        assert(2 * q * b <= 2 * a + b) by (nonlinear_arith)
            requires
                a == q * b + r,
                r >= 0,
                b > 0,
        ;
    } else {
        assert(2 * (q + 1) * b <= 2 * a + b) by (nonlinear_arith)
            requires
                a == q * b + r,
                2 * r >= b,
        ;
    }
}

/// A double is never more than twice what it stands for.
proof fn lemma_wide_double(a: nat, b: nat)
    requires
        b > 0,
        a >= b,
    ensures
        wide_double(a, b) * b <= 2 * a,
    decreases a - b,
{
    if a < b * 0x20_0000_0000_0000 {
        lemma_rounded(a, b);
        let n = rounded(a, b, 0);
        assert(n * b <= 2 * a) by (nonlinear_arith)
            requires
                2 * n * b <= 2 * a + b,
                a >= b,
                a >= 0,
        ;
    } else {
        lemma_wide_double(a, 2 * b);
        let n = wide_double(a, 2 * b);
        assert((2 * n) * b == n * (2 * b)) by (nonlinear_arith);
    }
}

fn as_wide_double(a: u128, b: u128) -> (r: u128)
    requires
        0 < b,
        b <= 0x2_0000_0000_0000_0000 || b * 0x10_0000_0000_0000 <= a,
        a < 0x100_0000_0000_0000_0000_0000_0000_0000,
    ensures
        r as nat == wide_double(a as nat, b as nat),
    decreases a - b,
{
    if a < b * 0x20_0000_0000_0000 {
        return round_even(a, b);
    }
    let half: u128 = as_wide_double(a, 2 * b);
    proof {
        lemma_wide_double(a as nat, (2 * b) as nat);
        assert(half * 1 <= half * (2 * b)) by (nonlinear_arith)
            requires
                b > 0,
                half >= 0,
        ;
    }
    2 * half
}

fn as_double(a: u128, b: u128) -> (r: (u128, u128))
    requires
        0 < b <= 0x2_0000_0000_0000_0000,
        a <= 0x2_0000_0000_0000_0000 || a < b * 0x20_0000_0000_0000,
    ensures
        (r.0 as nat, r.1 as nat) == double_of(a as nat, b as nat),
        r.0 <= 0x4_0000_0000_0000_0000,
        r.1 >= 1,
        r.1 == 1 || r.1 * a <= b * 0x20_0000_0000_0000,
    decreases
            if a < b * 0x10_0000_0000_0000 {
                b * 0x10_0000_0000_0000 - a
            } else {
                0
            },
{
    if a == 0 || a >= b * 0x10_0000_0000_0000 {
        let p: u128 = as_wide_double(a, b);
        proof {
            if a > 0 {
                if a < b * 0x20_0000_0000_0000 {
                    lemma_rounded(a as nat, b as nat);
                    assert(p <= 0x20_0000_0000_0000) by (nonlinear_arith)
                        requires
                            2 * p * b <= 2 * a + b,
                            a < b * 0x20_0000_0000_0000,
                            b > 0,
                    ;
                } else {
                    lemma_wide_double(a as nat, b as nat);
                    assert(p * 1 <= p * b) by (nonlinear_arith)
                        requires
                            b > 0,
                            p >= 0,
                    ;
                }
            } else {
                assert(0nat / (b as nat) == 0 && 0nat % (b as nat) == 0) by (nonlinear_arith)
                    requires
                        b > 0,
                ;
            }
        }
        return (p, 1);
    }
    let (p, q) = as_double(2 * a, b);
    proof {
        assert(q * (2 * a) == (2 * q) * a) by (nonlinear_arith);
        if q > 1 {
            assert(q * 2 <= q * (2 * a)) by (nonlinear_arith)
                requires
                    a > 0,
                    q > 0,
            ;
        }
    }
    (p, 2 * q)
}

proof fn lemma_whole_double(n: nat)
    ensures
        whole_double(n) <= 2 * n,
        n > 0 ==> whole_double(n) > 0,
{
    if n > 0 {
        lemma_wide_double(n, 1);
        lemma_wide_positive(n, 1);
    } else {
        assert(rounded(0, 1, 0) == 0);
    }
}

proof fn lemma_wide_positive(a: nat, b: nat)
    requires
        b > 0,
        a >= b,
    ensures
        wide_double(a, b) > 0,
    decreases a - b,
{
    if a < b * 0x20_0000_0000_0000 {
        assert(a / b >= 1) by (nonlinear_arith)
            requires
                a >= b,
                b > 0,
        ;
    } else {
        lemma_wide_positive(a, 2 * b);
    }
}

fn percent_as_double(n: u64, d: u64) -> (r: (u128, u128))
    requires
        0 < d,
    ensures
        (r.0 as nat, r.1 as nat) == percent_double(n as nat, d as nat),
        r.0 < 0x800_0000_0000_0000_0000,
        0 < r.1 < 0x4000_0000_0000_0000_0000_0000_0000_0000,
{
    proof {
        lemma_whole_double(n as nat);
        lemma_whole_double(d as nat);
    }
    let a: u128 = as_wide_double(n as u128, 1);
    let b: u128 = as_wide_double(d as u128, 1);
    let (p, q) = as_double(a, b);
    proof {
        lemma_whole_double((100 * p) as nat);
        if q > 1 && a > 0 {
            assert(q * 1 <= q * a) by (nonlinear_arith)
                requires
                    a > 0,
                    q > 0,
            ;
        }
    }
    let x: u128 = as_wide_double(100 * p, 1);
    (x, q)
}

/// `n / (10 * unit)` with one place, the way a double prints it.
pub open spec fn one_place(n: nat, unit: nat) -> Seq<char> {
    tenths(rounded(n, unit, double_side(n, 10 * unit)))
}

pub fn one_place_text(n: u64, unit: u64) -> (r: String)
    requires
        0 < unit <= 100_000_000,
    ensures
        r@ == one_place(n as nat, unit as nat),
{
    tenths_text(round_div(n, unit, side_of(n, 10 * unit)))
}

/// Milliseconds in seconds, with one place.
pub open spec fn seconds(ms: u64) -> Seq<char> {
    one_place(ms as nat, 100)
}

pub fn seconds_text(ms: u64) -> (r: String)
    ensures
        r@ == seconds(ms),
{
    one_place_text(ms, 100)
}

/// A number of hundredths with both digits after the point.
pub open spec fn hundredths(n: nat) -> Seq<char> {
    dec(n / 100) + seq!['.'] + dec_fixed(n, 2)
}

pub fn hundredths_text(n: u64) -> (r: String)
    ensures
        r@ == hundredths(n as nat),
{
    let mut out = number(n / 100);
    out.push('.');
    push_fixed(&mut out, n, 2);
    assert(out@ =~= hundredths(n as nat));
    out
}

// ---------------------------------------------------------------------------
// reading
// ---------------------------------------------------------------------------

/// The value of a run of decimal digits.
pub open spec fn digits_value(s: Seq<char>) -> nat
    decreases s.len(),
{
    if s.len() == 0 {
        0
    } else {
        10 * digits_value(s.drop_last()) + ((s.last() as nat) - 48) as nat
    }
}

/// Whether a text is a non-empty run of decimal digits.
pub open spec fn is_number(s: Seq<char>) -> bool {
    s.len() > 0 && crate::text::all_digits(s)
}

/// A number at most `max`, optionally with a plus sign in front.
pub open spec fn parsed(s: Seq<char>, max: nat) -> Option<nat> {
    let body = if s.len() > 0 && s[0] == '+' {
        s.skip(1)
    } else {
        s
    };
    if is_number(body) && digits_value(body) <= max {
        Some(digits_value(body))
    } else {
        None
    }
}

/// The value of the digits `from..to`, if they are digits and it is at most `max`.
pub fn digits_between(cs: &Vec<char>, from: usize, to: usize, max: u64) -> (r: Option<u64>)
    requires
        from <= to <= cs.len(),
    ensures
        ({
            let s = cs@.subrange(from as int, to as int);
            match r {
                Some(v) => is_number(s) && digits_value(s) == v && v <= max,
                None => !is_number(s) || digits_value(s) > max,
            }
        }),
{
    let ghost s = cs@.subrange(from as int, to as int);
    if from == to {
        return None;
    }
    let mut acc: u128 = 0;
    let mut over = false;
    let mut i: usize = from;
    while i < to
        invariant
            from <= i <= to <= cs.len(),
            s == cs@.subrange(from as int, to as int),
            forall|k: int| 0 <= k < i - from ==> is_digit(#[trigger] s[k]),
            !over ==> acc == digits_value(s.take(i - from)) && acc <= max,
            over ==> digits_value(s.take(i - from)) > max,
        decreases to - i,
    {
        let c = cs[i];
        proof {
            assert(s[i - from] == c);
            assert(s.take(i - from + 1).drop_last() == s.take(i - from));
        }
        if !('0' <= c && c <= '9') {
            assert(!is_digit(s[i - from]));
            return None;
        }
        if !over {
            let d: u128 = (c as u8 - 48) as u128;
            acc = 10 * acc + d;
            if acc > max as u128 {
                over = true;
            }
        }
        i += 1;
    }
    assert(s.take(i - from) == s);
    if over {
        None
    } else {
        Some(acc as u64)
    }
}

/// Reads a number the way `str::parse` reads an unsigned integer.
pub fn parse_number(t: &str, max: u64) -> (r: Option<u64>)
    ensures
        match r {
            Some(v) => parsed(t@, max as nat) == Some(v as nat),
            None => parsed(t@, max as nat) is None,
        },
{
    let cs = chars_of(t);
    let from: usize = if cs.len() > 0 && cs[0] == '+' {
        1
    } else {
        0
    };
    proof {
        assert(cs@.subrange(0, cs.len() as int) == t@);
        if cs.len() > 0 {
            assert(cs@.subrange(1, cs.len() as int) == t@.skip(1));
        }
    }
    digits_between(&cs, from, cs.len(), max)
}

/// The value of one hexadecimal digit.
pub open spec fn hex_value(c: char) -> Option<nat> {
    if '0' <= c <= '9' {
        Some((c as nat - 48) as nat)
    } else if 'a' <= c <= 'f' {
        Some((c as nat - 87) as nat)
    } else if 'A' <= c <= 'F' {
        Some((c as nat - 55) as nat)
    } else {
        None
    }
}

pub fn hex_digit(c: char) -> (r: Option<u8>)
    ensures
        match r {
            Some(v) => hex_value(c) == Some(v as nat) && v < 16,
            None => hex_value(c) is None,
        },
{
    if '0' <= c && c <= '9' {
        Some(c as u8 - 48)
    } else if 'a' <= c && c <= 'f' {
        Some(c as u8 - 87)
    } else if 'A' <= c && c <= 'F' {
        Some(c as u8 - 55)
    } else {
        None
    }
}

/// The value of a run of hexadecimal digits, if every character is one.
pub open spec fn hex_number(s: Seq<char>) -> Option<nat>
    decreases s.len(),
{
    if s.len() == 0 {
        Some(0)
    } else {
        match (hex_number(s.drop_last()), hex_value(s.last())) {
            (Some(h), Some(d)) => Some(16 * h + d),
            _ => None,
        }
    }
}

/// Thirty-two bits in hexadecimal, optionally with a plus sign in front.
pub open spec fn parsed_hex(s: Seq<char>) -> Option<nat> {
    let body = if s.len() > 0 && s[0] == '+' {
        s.skip(1)
    } else {
        s
    };
    match hex_number(body) {
        Some(v) if body.len() > 0 && v <= 0xffff_ffff => Some(v),
        _ => None,
    }
}

proof fn lemma_hex_prefix(s: Seq<char>, i: int)
    requires
        0 <= i <= s.len(),
    ensures
        hex_number(s) is Some ==> hex_number(s.take(i)) is Some,
        hex_number(s) matches Some(v) ==> hex_number(s.take(i))->0 <= v,
    decreases s.len() - i,
{
    if i < s.len() {
        lemma_hex_prefix(s, i + 1);
        assert(s.take(i + 1).drop_last() == s.take(i));
    } else {
        assert(s.take(i) == s);
    }
}

/// Reads a 32-bit hexadecimal number the way `u32::from_str_radix` does.
pub fn parse_hex(t: &str) -> (r: Option<u32>)
    ensures
        match r {
            Some(v) => parsed_hex(t@) == Some(v as nat),
            None => parsed_hex(t@) is None,
        },
{
    let cs = chars_of(t);
    let from: usize = if cs.len() > 0 && cs[0] == '+' {
        1
    } else {
        0
    };
    let ghost s = cs@.subrange(from as int, cs.len() as int);
    proof {
        assert(cs@.subrange(0, cs.len() as int) == t@);
        if cs.len() > 0 {
            assert(cs@.subrange(1, cs.len() as int) == t@.skip(1));
        }
    }
    if from == cs.len() {
        return None;
    }
    let mut acc: u64 = 0;
    let mut i: usize = from;
    while i < cs.len()
        invariant
            from <= i <= cs.len(),
            s == cs@.subrange(from as int, cs.len() as int),
            hex_number(s.take(i - from)) == Some(acc as nat),
            acc <= 0xffff_ffff,
            parsed_hex(t@) == (match hex_number(s) {
                Some(v) if s.len() > 0 && v <= 0xffff_ffff => Some(v),
                _ => None,
            }),
        decreases cs.len() - i,
    {
        proof {
            assert(s[i - from] == cs[i as int]);
            assert(s.take(i - from + 1).drop_last() == s.take(i - from));
            lemma_hex_prefix(s, i - from + 1);
        }
        match hex_digit(cs[i]) {
            None => {
                return None;
            },
            Some(d) => {
                acc = 16 * acc + d as u64;
                if acc > 0xffff_ffff {
                    return None;
                }
            },
        }
        i += 1;
    }
    assert(s.take(i - from) == s);
    Some(acc as u32)
}

// ---------------------------------------------------------------------------
// decimals
// ---------------------------------------------------------------------------

/// A non-negative decimal with six places, held in millionths.
#[derive(Debug, Clone, Copy, PartialEq, Eq, PartialOrd, Ord, Hash, Structural)]
pub struct Decimal {
    pub micros: u64,
}

/// One, in millionths.
pub const MILLION: u64 = 1_000_000;

impl Decimal {
    /// A whole number.
    pub open spec fn of(n: nat) -> Decimal {
        Decimal { micros: (n * MILLION) as u64 }
    }

    /// A whole number.
    pub fn whole(n: u32) -> (r: Decimal)
        ensures
            r.micros == n * MILLION,
            r == Decimal::of(n as nat),
    {
        Decimal { micros: n as u64 * MILLION }
    }

    /// The shortest form that names the value: `480`, `1.5`, `0.000001`.
    pub open spec fn text(self) -> Seq<char> {
        shortest(self.micros as nat / 1_000_000, self.micros as nat % 1_000_000, 6)
    }

    pub fn display(&self) -> (r: String)
        ensures
            r@ == self.text(),
    {
        shortest_text(self.micros / MILLION, self.micros % MILLION, 6)
    }

    /// With one place, e.g. `57.0`.
    pub fn one_place(&self) -> (r: String)
        ensures
            r@ == one_place(self.micros as nat, 100_000),
    {
        one_place_text(self.micros, 100_000)
    }

    /// The larger of two.
    pub open spec fn larger(self, other: Decimal) -> Decimal {
        if self.micros >= other.micros {
            self
        } else {
            other
        }
    }

    /// The difference, or zero where `other` is larger.
    pub open spec fn less_by(self, other: Decimal) -> Decimal {
        if self.micros >= other.micros {
            Decimal { micros: (self.micros - other.micros) as u64 }
        } else {
            Decimal { micros: 0 }
        }
    }

    pub fn minus(&self, other: &Decimal) -> (r: Decimal)
        ensures
            r == self.less_by(*other),
    {
        if self.micros >= other.micros {
            Decimal { micros: self.micros - other.micros }
        } else {
            Decimal { micros: 0 }
        }
    }
}

// ---------------------------------------------------------------------------
// quotients
// ---------------------------------------------------------------------------

/// A quotient kept as the two numbers it is of.
#[derive(Debug, Clone, Copy, PartialEq, Eq, Structural)]
pub struct Ratio {
    pub num: u64,
    pub den: u64,
}

impl Ratio {
    /// Whether the quotient is at least `a / b`.
    pub open spec fn at_least(self, a: nat, b: nat) -> bool {
        self.num * b >= a * self.den
    }

    /// Whether the quotient is more than `a / b`.
    pub open spec fn more_than(self, a: nat, b: nat) -> bool {
        self.num * b > a * self.den
    }

    /// As a percentage with one place, e.g. `99.4`.
    pub open spec fn percent(self) -> Seq<char> {
        let (x, q) = percent_double(self.num as nat, self.den as nat);
        tenths(rounded(10 * x, q, 0))
    }

    pub fn percent_text(&self) -> (r: String)
        requires
            0 < self.den,
        ensures
            r@ == self.percent(),
    {
        let (x, q) = percent_as_double(self.num, self.den);
        let n: u128 = round_even(10 * x, q);
        let mut out = String::new();
        push_dec(&mut out, n / 10);
        out.push('.');
        let d: u8 = (n % 10) as u8;
        out.push((48 + d) as char);
        assert(out@ =~= tenths(n as nat));
        out
    }

    /// As a percentage with two places, e.g. `0.25`.
    pub open spec fn fine_percent(self) -> Seq<char> {
        let (x, q) = percent_double(self.num as nat, self.den as nat);
        hundredths(rounded(100 * x, q, 0))
    }

    pub fn fine_percent_text(&self) -> (r: String)
        requires
            0 < self.den,
        ensures
            r@ == self.fine_percent(),
    {
        let (x, q) = percent_as_double(self.num, self.den);
        let n: u128 = round_even(100 * x, q);
        let mut out = String::new();
        push_dec(&mut out, n / 100);
        out.push('.');
        let a: u8 = (n / 10 % 10) as u8;
        let b: u8 = (n % 10) as u8;
        out.push((48 + a) as char);
        out.push((48 + b) as char);
        proof {
            reveal_with_fuel(dec_fixed, 3);
            assert(dec_fixed(n as nat, 2) =~= seq![(48 + a) as char, (48 + b) as char]);
        }
        assert(out@ =~= hundredths(n as nat));
        out
    }

    pub fn is_more_than(&self, a: u32, b: u32) -> (r: bool)
        ensures
            r == self.more_than(a as nat, b as nat),
    {
        proof {
            lemma_wide(self.num, b as u64);
            lemma_wide(a as u64, self.den);
        }
        self.num as u128 * b as u128 > a as u128 * self.den as u128
    }

    pub fn is_at_least(&self, a: u32, b: u32) -> (r: bool)
        ensures
            r == self.at_least(a as nat, b as nat),
    {
        proof {
            lemma_wide(self.num, b as u64);
            lemma_wide(a as u64, self.den);
        }
        self.num as u128 * b as u128 >= a as u128 * self.den as u128
    }
}

pub proof fn lemma_wide(a: u64, b: u64)
    ensures
        0 <= a * b <= 0xffff_ffff_ffff_ffff * 0xffff_ffff_ffff_ffff,
        a as u128 * b as u128 == a * b,
{
    assert(0 <= a * b <= 0xffff_ffff_ffff_ffff * 0xffff_ffff_ffff_ffff) by (nonlinear_arith)
        requires
            0 <= a <= 0xffff_ffff_ffff_ffff,
            0 <= b <= 0xffff_ffff_ffff_ffff,
    ;
}

/// `num * scale / den` to the nearest whole number, or the largest `u64` where
/// it is beyond that.
pub open spec fn scaled(num: nat, den: nat, scale: nat) -> nat {
    let r = rounded(num * scale, den, 0);
    if r <= u64::MAX {
        r
    } else {
        u64::MAX as nat
    }
}

pub fn scale_to_nearest(num: u64, den: u64, scale: u64) -> (r: u64)
    requires
        0 < den,
    ensures
        r as nat == scaled(num as nat, den as nat, scale as nat),
{
    proof {
        lemma_wide(num, scale);
    }
    let n: u128 = num as u128 * scale as u128;
    let d: u128 = den as u128;
    let q: u128 = n / d;
    let m: u128 = n % d;
    proof {
        assert(q <= n) by (nonlinear_arith)
            requires
                q == n / d,
                d > 0,
                n >= 0,
        ;
    }
    let up: u128 = if 2 * m < d {
        q
    } else if 2 * m > d {
        q + 1
    } else if q % 2 == 0 {
        q
    } else {
        q + 1
    };
    if up <= u64::MAX as u128 {
        up as u64
    } else {
        u64::MAX
    }
}

} // verus!
