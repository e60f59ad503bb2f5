//! Seconds since boot are kept as doubles: what a numeral is read as, what two
//! of them differ by and which comes first are what binary floating point makes
//! of them, to the last bit.

use vstd::prelude::*;
use crate::big::{lemma_two_grows, two, Big};
use crate::number::{digits_value, is_number, rounded};
use crate::text::{chars_of, is_digit, lower, lowered, same, slice};

verus! {

/// The smallest mantissa of a double that has not run out of exponents.
pub const HALF_MANTISSA: u64 = 0x10_0000_0000_0000;

/// The bits of infinity. What lies above is no number.
pub const INFINITY: u64 = 0x7ff0_0000_0000_0000;

/// The bits of the value that is no number.
pub const NOT_A_NUMBER: u64 = 0x7ff8_0000_0000_0000;

/// The bit of the sign.
pub const SIGN: u64 = 0x8000_0000_0000_0000;

// ---------------------------------------------------------------------------
// rounding
// ---------------------------------------------------------------------------

/// The divisor and the power of two at which `n / d * 2^e` has at most
/// fifty-three binary places before the point.
pub open spec fn coarser(n: nat, d: nat, e: int) -> (nat, int)
    decreases n + 1 - d,
{
    if d > 0 && n >= d * 0x20_0000_0000_0000 {
        coarser(n, 2 * d, e + 1)
    } else {
        (d, e)
    }
}

/// The dividend and the power of two at which `n / d * 2^e` has fifty-three
/// binary places before the point, or as many as the least power allows.
pub open spec fn finer(n: nat, d: nat, e: int) -> (nat, int)
    decreases e + 1074,
{
    if n < d * HALF_MANTISSA && e > -1074 {
        finer(2 * n, d, e - 1)
    } else {
        (n, e)
    }
}

/// The bits of the double nearest to `n / d * 2^e`, the even one where two are
/// as near.
pub open spec fn nearest(n: nat, d: nat, e: int) -> nat {
    let (b, at) = coarser(n, d, e);
    let (a, p) = finer(n, b, at);
    let bits = (p + 1074) * HALF_MANTISSA + rounded(a, b, 0);
    if bits < INFINITY {
        bits as nat
    } else {
        INFINITY as nat
    }
}

proof fn lemma_coarser(n: nat, d: nat, e: int)
    requires
        d > 0,
    ensures
        ({
            let (b, at) = coarser(n, d, e);
            &&& b >= d
            &&& at >= e
            &&& n < b * 0x20_0000_0000_0000
            &&& n >= d * 0x20_0000_0000_0000 ==> n >= b * HALF_MANTISSA && at > e
        }),
    decreases n + 1 - d,
{
    if n >= d * 0x20_0000_0000_0000 {
        lemma_coarser(n, 2 * d, e + 1);
    }
}

proof fn lemma_finer(n: nat, d: nat, e: int)
    requires
        d > 0,
        e >= -1074,
        n < d * 0x20_0000_0000_0000,
    ensures
        ({
            let (a, p) = finer(n, d, e);
            &&& -1074 <= p <= e
            &&& a < d * 0x20_0000_0000_0000
        }),
    decreases e + 1074,
{
    if n < d * HALF_MANTISSA && e > -1074 {
        lemma_finer(2 * n, d, e - 1);
    }
}

proof fn lemma_quotient(n: nat, d: nat, q: nat, r: nat)
    requires
        n == q * d + r,
        r < d,
    ensures
        q == n / d,
        r == n % d,
{
    vstd::arithmetic::div_mod::lemma_fundamental_div_mod_converse(
        n as int,
        d as int,
        q as int,
        r as int,
    );
}

/// A quotient of at least a mantissa rounds to at least one.
proof fn lemma_rounds_up(n: nat, d: nat)
    requires
        d > 0,
        n >= d * HALF_MANTISSA,
    ensures
        rounded(n, d, 0) >= HALF_MANTISSA,
{
    assert(n / d >= 0x10_0000_0000_0000) by (nonlinear_arith)
        requires
            d > 0,
            n >= d * 0x10_0000_0000_0000,
    ;
}

proof fn lemma_too_large(n: nat, d: nat, e: int)
    requires
        d > 0,
        n >= d * 0x20_0000_0000_0000,
        coarser(n, d, e).1 >= 972,
    ensures
        nearest(n, d, e) == INFINITY,
{
    lemma_coarser(n, d, e);
    let (b, at) = coarser(n, d, e);
    lemma_rounds_up(n, b);
}

/// What is left of `n` after taking `d` out of it as often as it goes, and how
/// often it went.
fn divide(n: &Big, d: &Big, k: u8) -> (r: (u64, Big))
    requires
        d@ > 0,
        k <= 53,
        n@ < d@ * two(k as nat),
    ensures
        r.0 < two(k as nat),
        n@ == r.0 * d@ + r.1@,
        r.1@ < d@,
    decreases k,
{
    if k == 0 {
        proof {
            assert(d@ * 1 == d@) by (nonlinear_arith);
            assert(0 * d@ == 0) by (nonlinear_arith);
        }
        let same = n.times(1, 0);
        assert(n@ * 1 == n@) by (nonlinear_arith);
        return (0, same);
    }
    let twice = d.double();
    proof {
        let t = two((k - 1) as nat);
        assert(d@ * (2 * t) == (2 * d@) * t) by (nonlinear_arith);
        lemma_two_small((k - 1) as nat);
    }
    let (q, rest) = divide(n, &twice, k - 1);
    if rest.below(d) {
        proof {
            let t = d@;
            assert(q * (2 * t) == (2 * q) * t) by (nonlinear_arith);
        }
        (2 * q, rest)
    } else {
        proof {
            let t = d@;
            assert(q * (2 * t) + t == (2 * q + 1) * t) by (nonlinear_arith);
        }
        (2 * q + 1, rest.minus(d))
    }
}

proof fn lemma_two_small(k: nat)
    requires
        k <= 53,
    ensures
        1 <= two(k) <= 0x20_0000_0000_0000,
        k == 53 ==> two(k) == 0x20_0000_0000_0000,
{
    lemma_two_grows(k, 53);
    reveal_with_fuel(two, 10);
    assert(two(9) == 0x200);
    assert(two(18) == 0x4_0000);
    assert(two(27) == 0x800_0000);
    assert(two(36) == 0x10_0000_0000);
    assert(two(45) == 0x2000_0000_0000);
    assert(two(53) == 0x20_0000_0000_0000);
}

/// Rounds a quotient to a double.
fn find_nearest(dividend: &Big, divisor: &Big, power: i32) -> (r: u64)
    requires
        divisor@ > 0,
        -1074 <= power <= 2000,
    ensures
        r == nearest(dividend@, divisor@, power as int),
        r <= INFINITY,
{
    let ghost n0 = dividend@;
    let ghost d0 = divisor@;
    let ghost e0 = power as int;
    let mut d = divisor.times(1, 0);
    let mut top = d.times(0x800_0000, 0).times(0x400_0000, 0);
    let mut e: i32 = power;
    assert(d@ == d0 && top@ == d@ * 0x20_0000_0000_0000) by {
        assert(d0 * 1 == d0) by (nonlinear_arith);
        assert(d0 * 0x800_0000 * 0x400_0000 == d0 * 0x20_0000_0000_0000) by (nonlinear_arith);
    }
    while !dividend.below(&top) && e < 2040
        invariant
            n0 == dividend@,
            d@ > 0,
            top@ == d@ * 0x20_0000_0000_0000,
            -1074 <= e <= 2040,
            coarser(n0, d@, e as int) == coarser(n0, d0, e0),
            d@ > d0 ==> n0 >= d@ * HALF_MANTISSA,
            d@ >= d0,
        decreases 2040 - e,
    {
        d = d.double();
        top = top.double();
        e += 1;
    }
    if !dividend.below(&top) {
        proof {
            lemma_coarser(n0, d@, e as int);
            lemma_coarser(n0, d0, e0);
            lemma_too_large(n0, d0, e0);
        }
        return INFINITY;
    }
    assert(coarser(n0, d0, e0) == (d@, e as int));
    let half = d.times(0x400_0000, 0).times(0x400_0000, 0);
    assert(half@ == d@ * HALF_MANTISSA) by {
        let t = d@;
        assert(t * 0x400_0000 * 0x400_0000 == t * 0x10_0000_0000_0000) by (nonlinear_arith);
    }
    let mut n = dividend.times(1, 0);
    assert(n@ == n0) by {
        assert(n0 * 1 == n0) by (nonlinear_arith);
    }
    let ghost e1 = e as int;
    while e > -1074 && n.below(&half)
        invariant
            half@ == d@ * HALF_MANTISSA,
            -1074 <= e <= 2040,
            n@ < d@ * 0x20_0000_0000_0000,
            finer(n@, d@, e as int) == finer(n0, d@, e1),
        decreases e + 1074,
    {
        n = n.double();
        e -= 1;
    }
    assert(finer(n0, d@, e1) == (n@, e as int));
    proof {
        lemma_two_small(53);
    }
    let (q, rest) = divide(&n, &d, 53);
    proof {
        lemma_quotient(n@, d@, q as nat, rest@);
    }
    let twice = rest.double();
    let m: u64 = if twice.below(&d) {
        q
    } else if d.below(&twice) {
        q + 1
    } else if q % 2 == 0 {
        q
    } else {
        q + 1
    };
    let bits: u64 = (e + 1074) as u64 * HALF_MANTISSA + m;
    if bits < INFINITY {
        bits
    } else {
        INFINITY
    }
}

// ---------------------------------------------------------------------------
// doubles
// ---------------------------------------------------------------------------

/// A double, by its bits.
#[derive(Debug, Clone, Copy, PartialEq, Eq, Structural)]
pub struct Double {
    pub bits: u64,
}

impl Double {
    /// A sign and a magnitude.
    pub open spec fn signed(negative: bool, magnitude: nat) -> Double {
        Double {
            bits: if negative {
                (SIGN + magnitude) as u64
            } else {
                magnitude as u64
            },
        }
    }

    pub open spec fn negative(self) -> bool {
        self.bits >= SIGN
    }

    /// The bits without the sign.
    pub open spec fn magnitude(self) -> nat {
        self.bits as nat % SIGN as nat
    }

    /// No number at all.
    pub open spec fn is_nan(self) -> bool {
        self.magnitude() > INFINITY
    }

    pub open spec fn finite(self) -> bool {
        self.magnitude() < INFINITY
    }

    /// The mantissa of a finite double. Its size is this times two to
    /// [`Double::power`].
    pub open spec fn mantissa(self) -> nat {
        if self.magnitude() < HALF_MANTISSA {
            self.magnitude()
        } else {
            HALF_MANTISSA as nat + self.magnitude() % HALF_MANTISSA as nat
        }
    }

    pub open spec fn power(self) -> int {
        if self.magnitude() < HALF_MANTISSA {
            -1074
        } else {
            self.magnitude() / HALF_MANTISSA as nat - 1075
        }
    }

    /// Where a double that is a number stands among the others. The magnitudes
    /// grow with the values, and the two zeros stand in one place.
    pub open spec fn rank(self) -> int {
        if self.negative() {
            -(self.magnitude() as int)
        } else {
            self.magnitude() as int
        }
    }

    /// `self >= other`, which does not hold of what is no number.
    pub open spec fn at_least(self, other: Double) -> bool {
        !self.is_nan() && !other.is_nan() && self.rank() >= other.rank()
    }

    pub fn is_at_least(&self, other: &Double) -> (r: bool)
        ensures
            r == self.at_least(*other),
    {
        let a: u64 = self.bits % SIGN;
        let b: u64 = other.bits % SIGN;
        if a > INFINITY || b > INFINITY {
            return false;
        }
        if self.bits >= SIGN {
            if other.bits >= SIGN {
                a <= b
            } else {
                a == 0 && b == 0
            }
        } else {
            other.bits >= SIGN || a >= b
        }
    }

    /// A whole number.
    pub open spec fn whole(n: nat) -> Double {
        Double { bits: nearest(n, 1, 0) as u64 }
    }

    /// A double that is not negative, divided by a whole number.
    pub open spec fn over(self, d: nat) -> Double {
        if self.finite() {
            Double { bits: nearest(self.mantissa(), d, self.power()) as u64 }
        } else {
            self
        }
    }

    /// A whole number divided by another, each step kept as a double.
    pub fn quotient(n: u64, d: u32) -> (r: Double)
        requires
            d > 0,
        ensures
            r == Double::whole(n as nat).over(d as nat),
            !r.negative(),
    {
        let w = Double { bits: find_nearest(&Big::of(n), &Big::of(1), 0) };
        if w.bits == INFINITY {
            return w;
        }
        let (m, p) = w.parts();
        Double { bits: find_nearest(&Big::of(m), &Big::of(d as u64), p) }
    }

    /// The mantissa and the power of a finite double.
    fn parts(&self) -> (r: (u64, i32))
        requires
            self.finite(),
        ensures
            r.0 == self.mantissa(),
            r.1 == self.power(),
            -1074 <= r.1 <= 971,
    {
        let m: u64 = self.bits % SIGN;
        if m < HALF_MANTISSA {
            (m, -1074)
        } else {
            (HALF_MANTISSA + m % HALF_MANTISSA, (m / HALF_MANTISSA) as i32 - 1075)
        }
    }

    /// `self - other`, or zero where that is below zero or no number. `other` is
    /// not negative.
    pub open spec fn since(self, other: Double) -> Double {
        if self.is_nan() || self.negative() || !other.finite() {
            Double { bits: 0 }
        } else if !self.finite() {
            self
        } else {
            let p = if self.power() <= other.power() {
                self.power()
            } else {
                other.power()
            };
            let a = self.mantissa() * two((self.power() - p) as nat);
            let b = other.mantissa() * two((other.power() - p) as nat);
            if a < b {
                Double { bits: 0 }
            } else {
                Double { bits: nearest((a - b) as nat, 1, p) as u64 }
            }
        }
    }

    pub fn time_since(&self, other: &Double) -> (r: Double)
        requires
            !other.negative(),
        ensures
            r == self.since(*other),
    {
        if self.bits > INFINITY || other.bits >= INFINITY {
            return Double { bits: 0 };
        }
        if self.bits == INFINITY {
            return Double { bits: INFINITY };
        }
        let (m, p) = self.parts();
        let (n, q) = other.parts();
        let least: i32 = if p <= q {
            p
        } else {
            q
        };
        let a = Big::of(m).raised((p - least) as u32);
        let b = Big::of(n).raised((q - least) as u32);
        if a.below(&b) {
            return Double { bits: 0 };
        }
        Double { bits: find_nearest(&a.minus(&b), &Big::of(1), least) }
    }

    /// A numeral: digits with a point somewhere among them or none, and an
    /// exponent or none; or infinity, or what is no number, by name. With or
    /// without a sign.
    pub open spec fn parsed(s: Seq<char>) -> Option<Double> {
        let negative = s.len() > 0 && s[0] == '-';
        let body = s.skip(sign_len(s));
        let x = exponent_at(body);
        if lowered(body) == "inf"@ || lowered(body) == "infinity"@ {
            Some(Double::signed(negative, INFINITY as nat))
        } else if lowered(body) == "nan"@ {
            Some(Double::signed(negative, NOT_A_NUMBER as nat))
        } else {
            match (mantissa(body.take(x)), exponent(body.skip(x))) {
                (Some((digits, whole)), Some(e)) => Some(
                    Double::signed(
                        negative,
                        decimal(digits_value(digits), e + whole - digits.len()),
                    ),
                ),
                _ => None,
            }
        }
    }
}

// ---------------------------------------------------------------------------
// numerals
// ---------------------------------------------------------------------------

/// A power of ten.
pub open spec fn ten(k: nat) -> nat
    decreases k,
{
    if k == 0 {
        1
    } else {
        10 * ten((k - 1) as nat)
    }
}

/// The bits of the double nearest to `v * 10^k`.
pub open spec fn decimal(v: nat, k: int) -> nat {
    if k >= 0 {
        nearest(v * ten(k as nat), 1, 0)
    } else {
        nearest(v, ten((-k) as nat), 0)
    }
}

/// How many characters a sign in front takes.
pub open spec fn sign_len(s: Seq<char>) -> int {
    if s.len() > 0 && (s[0] == '+' || s[0] == '-') {
        1
    } else {
        0
    }
}

/// Where an exponent begins, or the end.
pub open spec fn exponent_at(s: Seq<char>) -> int
    decreases s.len(),
{
    if s.len() == 0 || s[0] == 'e' || s[0] == 'E' {
        0
    } else {
        1 + exponent_at(s.skip(1))
    }
}

/// The power of ten that an exponent names, from its letter on. None at all is
/// the power 0.
pub open spec fn exponent(s: Seq<char>) -> Option<int> {
    if s.len() == 0 {
        Some(0)
    } else {
        let t = s.skip(1);
        let n = t.skip(sign_len(t));
        if !is_number(n) {
            None
        } else if t[0] == '-' {
            Some(-(digits_value(n) as int))
        } else {
            Some(digits_value(n) as int)
        }
    }
}

/// The digits of a numeral, and how many of them stand before its point.
pub open spec fn mantissa(s: Seq<char>) -> Option<(Seq<char>, int)> {
    let n = crate::text::first_char(s, '.');
    let digits = if n < s.len() {
        s.take(n) + s.skip(n + 1)
    } else {
        s
    };
    if is_number(digits) {
        Some((digits, n))
    } else {
        None
    }
}

/// Beyond this an exponent makes no difference.
const FAR: i128 = 0x40_0000_0000_0000_0000;

/// The digits from some place on as a number, or [`FAR`] where it is beyond
/// that.
fn far_number(cs: &Vec<char>, from: usize) -> (r: Option<i128>)
    requires
        from <= cs.len(),
    ensures
        ({
            let s = cs@.skip(from as int);
            match r {
                Some(v) => is_number(s) && 0 <= v <= FAR && (v == digits_value(s) || (v == FAR
                    && digits_value(s) > FAR)),
                None => !is_number(s),
            }
        }),
{
    let ghost s = cs@.skip(from as int);
    if from == cs.len() {
        return None;
    }
    let mut acc: i128 = 0;
    let mut over = false;
    let mut i: usize = from;
    while i < cs.len()
        invariant
            from <= i <= cs.len(),
            s == cs@.skip(from as int),
            forall|k: int| 0 <= k < i - from ==> is_digit(#[trigger] s[k]),
            !over ==> acc == digits_value(s.take(i - from)) && 0 <= acc <= FAR,
            over ==> digits_value(s.take(i - from)) > FAR,
        decreases cs.len() - i,
    {
        let c = cs[i];
        proof {
            assert(s[i - from] == c);
            assert(s.take(i - from + 1).drop_last() == s.take(i - from));
        }
        if !('0' <= c && c <= '9') {
            assert(!is_digit(s[i - from]));
            return None;
        }
        if !over {
            let d: i128 = (c as u8 - 48) as i128;
            acc = 10 * acc + d;
            if acc > FAR {
                over = true;
            }
        }
        i += 1;
    }
    assert(s.take(i - from) == s);
    if over {
        Some(FAR)
    } else {
        Some(acc)
    }
}

fn find_exponent(cs: &Vec<char>, from: usize) -> (r: usize)
    requires
        from <= cs.len(),
    ensures
        from <= r <= cs.len(),
        r == from + exponent_at(cs@.skip(from as int)),
{
    let mut i: usize = from;
    while i < cs.len() && cs[i] != 'e' && cs[i] != 'E'
        invariant
            from <= i <= cs.len(),
            i + exponent_at(cs@.skip(i as int)) == from + exponent_at(cs@.skip(from as int)),
        decreases cs.len() - i,
    {
        assert(cs@.skip(i as int).skip(1) =~= cs@.skip(i + 1));
        i += 1;
    }
    i
}

fn sign_at(cs: &Vec<char>, from: usize) -> (r: usize)
    requires
        from <= cs.len(),
    ensures
        from <= r <= cs.len(),
        r == from + sign_len(cs@.skip(from as int)),
{
    if from < cs.len() && (cs[from] == '+' || cs[from] == '-') {
        from + 1
    } else {
        from
    }
}

/// An exponent, no further off than [`FAR`].
fn read_exponent(cs: &Vec<char>, x: usize) -> (r: Option<i128>)
    requires
        x <= cs.len(),
    ensures
        match (r, exponent(cs@.skip(x as int))) {
            (Some(v), Some(e)) => v == e || (v == FAR && e > FAR) || (v == -FAR && e < -FAR),
            (None, None) => true,
            _ => false,
        },
        r matches Some(v) ==> -FAR <= v <= FAR,
{
    if x == cs.len() {
        return Some(0);
    }
    let ghost t = cs@.skip(x as int).skip(1);
    assert(t =~= cs@.skip(x + 1));
    let from: usize = sign_at(cs, x + 1);
    assert(t.skip(sign_len(t)) =~= cs@.skip(from as int));
    match far_number(cs, from) {
        Some(v) => if cs[x + 1] == '-' {
            Some(-v)
        } else {
            Some(v)
        },
        None => None,
    }
}

/// The digits between two places, with or without a point among them, and how
/// many stand before it.
fn read_mantissa(cs: &Vec<char>, from: usize, to: usize) -> (r: Option<(Vec<char>, usize)>)
    requires
        from <= to <= cs.len(),
    ensures
        match (r, mantissa(cs@.subrange(from as int, to as int))) {
            (Some((ds, n)), Some((digits, whole))) => ds@ == digits && n == whole && n <= ds@.len()
                && is_number(digits),
            (None, None) => true,
            _ => false,
        },
{
    let ghost s = cs@.subrange(from as int, to as int);
    let mut n: usize = from;
    while n < to && cs[n] != '.'
        invariant
            from <= n <= to <= cs.len(),
            forall|k: int| from <= k < n ==> cs@[k] != '.',
        decreases to - n,
    {
        n += 1;
    }
    let whole: usize = n - from;
    proof {
        assert forall|k: int| 0 <= k < whole implies #[trigger] s[k] != '.' by {
            assert(cs@[from + k] != '.');
        }
        crate::text::lemma_first_char(s, '.', whole as int);
    }
    let ghost digits = if whole < s.len() {
        s.take(whole as int) + s.skip(whole + 1)
    } else {
        s
    };
    let mut ds: Vec<char> = Vec::new();
    let mut i: usize = from;
    while i < to
        invariant
            from <= i <= to <= cs.len(),
            s == cs@.subrange(from as int, to as int),
            from <= n <= to,
            whole == n - from,
            whole == crate::text::first_char(s, '.'),
            n < to ==> cs@[n as int] == '.',
            digits == (if whole < s.len() {
                s.take(whole as int) + s.skip(whole + 1)
            } else {
                s
            }),
            ds@ == digits.take(
                if i <= n {
                    i - from
                } else {
                    i - from - 1
                },
            ),
            crate::text::all_digits(ds@),
        decreases to - i,
    {
        if i != n {
            let c = cs[i];
            let ghost k: int = if i < n {
                i - from
            } else {
                i - from - 1
            };
            assert(digits[k] == c);
            if !('0' <= c && c <= '9') {
                assert(!is_digit(digits[k]));
                return None;
            }
            let ghost before = ds@;
            ds.push(c);
            assert(ds@ =~= digits.take(k + 1));
        } else {
            assert(digits.take(i - from) =~= digits.take(i + 1 - from - 1));
        }
        i += 1;
    }
    assert(ds@ =~= digits);
    if ds.len() == 0 {
        None
    } else {
        Some((ds, whole))
    }
}

proof fn lemma_ten_two(k: nat)
    ensures
        ten(k) >= two(3 * k),
    decreases k,
{
    if k > 0 {
        lemma_ten_two((k - 1) as nat);
        reveal_with_fuel(two, 4);
        assert(two(3 * k) == 8 * two((3 * k - 3) as nat));
    }
}

proof fn lemma_ten_grows(j: nat, k: nat)
    requires
        j <= k,
    ensures
        1 <= ten(j) <= ten(k),
    decreases k,
{
    if j < k {
        lemma_ten_grows(j, (k - 1) as nat);
    } else if k > 0 {
        lemma_ten_grows((j - 1) as nat, (k - 1) as nat);
    }
}

proof fn lemma_ten_sum(j: nat, k: nat)
    ensures
        ten(j + k) == ten(j) * ten(k),
    decreases k,
{
    let a = ten(j);
    if k == 0 {
        assert(a * 1 == a) by (nonlinear_arith);
    } else {
        lemma_ten_sum(j, (k - 1) as nat);
        let b = ten((k - 1) as nat);
        assert(10 * (a * b) == a * (10 * b)) by (nonlinear_arith);
    }
}

proof fn lemma_digits_bound(s: Seq<char>)
    requires
        crate::text::all_digits(s),
    ensures
        digits_value(s) < ten(s.len()),
    decreases s.len(),
{
    if s.len() > 0 {
        assert(is_digit(s.last()));
        lemma_digits_bound(s.drop_last());
    }
}

proof fn lemma_coarser_far(n: nat, d: nat, e: int, j: nat)
    requires
        d > 0,
        n >= d * two(53 + j),
    ensures
        coarser(n, d, e).1 >= e + j,
    decreases j,
{
    if j == 0 {
        lemma_coarser(n, d, e);
    } else {
        let t = two((53 + j - 1) as nat);
        assert(two(53 + j) == 2 * t);
        lemma_two_small(53);
        lemma_two_grows(53, (53 + j) as nat);
        let u = two(53 + j);
        assert(d * u >= d * 0x20_0000_0000_0000) by (nonlinear_arith)
            requires
                u >= 0x20_0000_0000_0000,
        ;
        assert(d * (2 * t) == (2 * d) * t) by (nonlinear_arith);
        lemma_coarser_far(n, 2 * d, e + 1, (j - 1) as nat);
    }
}

/// Far enough up, everything but nothing is infinite.
proof fn lemma_far_up(v: nat, k: int)
    requires
        v > 0,
        k >= 400,
    ensures
        decimal(v, k) == INFINITY,
{
    let t = ten(k as nat);
    let n = v * t;
    lemma_ten_grows(400, k as nat);
    lemma_ten_two(400);
    lemma_two_grows(1053, 1200);
    lemma_two_small(53);
    lemma_two_grows(53, 1053);
    assert(n >= t) by (nonlinear_arith)
        requires
            n == v * t,
            v >= 1,
    ;
    assert(1 * two(1053) == two(1053)) by (nonlinear_arith);
    lemma_coarser_far(n, 1, 0, 1000);
    lemma_too_large(n, 1, 0);
}

proof fn lemma_finer_down(n: nat, d: nat, e: int)
    requires
        e >= -1074,
        n * two((e + 1074) as nat) < d * HALF_MANTISSA,
    ensures
        finer(n, d, e) == (n * two((e + 1074) as nat), -1074int),
    decreases e + 1074,
{
    if e > -1074 {
        let t = two((e - 1 + 1074) as nat);
        assert(two((e + 1074) as nat) == 2 * t);
        assert((2 * n) * t == n * (2 * t)) by (nonlinear_arith);
        lemma_two_grows(0, (e + 1074) as nat);
        let u = two((e + 1074) as nat);
        assert(n <= n * u) by (nonlinear_arith)
            requires
                u >= 1,
                n >= 0,
        ;
        lemma_finer_down(2 * n, d, e - 1);
    } else {
        assert(n * 1 == n) by (nonlinear_arith);
    }
}

/// What is small enough against its divisor comes to nothing.
proof fn lemma_vanishes(n: nat, d: nat)
    requires
        n * two(1200) <= d,
        d > 0,
    ensures
        nearest(n, d, 0) == 0,
{
    lemma_two_grows(1076, 1200);
    lemma_two_grows(1074, 1076);
    lemma_two_grows(0, 1074);
    reveal_with_fuel(two, 3);
    let a = two(1074);
    let b = two(1200);
    assert(two(1076) == 4 * a);
    let m = n * a;
    assert(n <= m && 4 * m <= n * b) by (nonlinear_arith)
        requires
            m == n * a,
            a >= 1,
            4 * a <= b,
            n >= 0,
    ;
    assert(coarser(n, d, 0) == (d, 0int));
    lemma_finer_down(n, d, 0);
    lemma_quotient(m, d, 0, m);
}

/// Far enough down, everything is nothing.
proof fn lemma_far_down(s: Seq<char>, k: int)
    requires
        is_number(s),
        -k >= s.len() + 400,
    ensures
        decimal(digits_value(s), k) == 0,
{
    let n = digits_value(s);
    lemma_digits_bound(s);
    lemma_ten_sum(s.len(), 400);
    lemma_ten_grows((s.len() + 400) as nat, (-k) as nat);
    lemma_ten_two(400);
    let a = ten(s.len());
    let b = ten(400);
    let c = two(1200);
    assert(n * c <= a * b) by (nonlinear_arith)
        requires
            0 <= n <= a,
            0 <= c <= b,
    ;
    lemma_vanishes(n, ten((-k) as nat));
}

fn digits_number(ds: &Vec<char>) -> (r: Big)
    requires
        crate::text::all_digits(ds@),
    ensures
        r@ == digits_value(ds@),
{
    let ghost s = ds@;
    let mut out = Big::zero();
    let mut i: usize = 0;
    while i < ds.len()
        invariant
            s == ds@,
            crate::text::all_digits(s),
            i <= s.len(),
            out@ == digits_value(s.take(i as int)),
        decreases s.len() - i,
    {
        proof {
            assert(is_digit(s[i as int]));
            assert(s.take(i + 1).drop_last() =~= s.take(i as int));
        }
        let d: u32 = (ds[i] as u8 - 48) as u32;
        out = out.times(10, d);
        i += 1;
    }
    assert(s.take(i as int) =~= s);
    out
}

/// `n * 10^k`
fn times_ten(n: &Big, k: u128) -> (r: Big)
    ensures
        r@ == n@ * ten(k as nat),
{
    let mut out = n.times(1, 0);
    assert(out@ == n@ * ten(0)) by {
        let t = n@;
        assert(t * 1 == t) by (nonlinear_arith);
    }
    let mut i: u128 = 0;
    while i < k
        invariant
            i <= k,
            out@ == n@ * ten(i as nat),
        decreases k - i,
    {
        proof {
            let t = n@;
            let p = ten(i as nat);
            assert(ten((i + 1) as nat) == 10 * p);
            assert((t * p) * 10 == t * (10 * p)) by (nonlinear_arith);
        }
        out = out.times(10, 0);
        i += 1;
    }
    out
}

/// The bits of the double nearest to the digits times a power of ten, where
/// `e` may have been cut to [`FAR`].
fn find_decimal(ds: &Vec<char>, whole: usize, e: i128, exact: Ghost<int>) -> (r: u64)
    requires
        is_number(ds@),
        whole <= ds@.len(),
        -FAR <= e <= FAR,
        e == exact@ || (e == FAR && exact@ > FAR) || (e == -FAR && exact@ < -FAR),
    ensures
        r == decimal(digits_value(ds@), exact@ + whole - ds@.len()),
        r <= INFINITY,
{
    let ghost v = digits_value(ds@);
    let ghost far = exact@ + whole - ds@.len();
    let k: i128 = e + whole as i128 - ds.len() as i128;
    let n = digits_number(ds);
    let one = Big::of(1);
    if n.below(&one) {
        proof {
            let d = if far >= 0 {
                1nat
            } else {
                ten((-far) as nat)
            };
            if far < 0 {
                lemma_ten_grows(0, (-far) as nat);
            }
            assert(0 * two(1200) == 0) by (nonlinear_arith);
            assert(0 * ten(far as nat) == 0) by (nonlinear_arith);
            lemma_vanishes(0, d);
        }
        return 0;
    }
    if k >= 400 {
        proof {
            lemma_far_up(v, far);
        }
        return INFINITY;
    }
    if k >= 0 {
        return find_nearest(&times_ten(&n, k as u128), &one, 0);
    }
    if -k >= ds.len() as i128 + 400 {
        proof {
            lemma_far_down(ds@, far);
        }
        return 0;
    }
    proof {
        lemma_ten_grows(0, (-far) as nat);
        let t = ten((-far) as nat);
        assert(1 * t == t) by (nonlinear_arith);
    }
    find_nearest(&n, &times_ten(&one, (-k) as u128), 0)
}

/// Reads a numeral.
pub fn parse_double(t: &str) -> (r: Option<Double>)
    ensures
        r == Double::parsed(t@),
{
    let cs = chars_of(t);
    let from: usize = sign_at(&cs, 0);
    let negative = cs.len() > 0 && cs[0] == '-';
    let sign: u64 = if negative {
        SIGN
    } else {
        0
    };
    let ghost body = t@.skip(sign_len(t@));
    proof {
        assert(cs@.skip(0) =~= t@);
        assert(cs@.skip(from as int) =~= body);
        assert(cs@.subrange(from as int, cs@.len() as int) =~= body);
    }
    let word = slice(&cs, from, cs.len());
    let name = lower(word.as_str());
    if same(name.as_str(), "inf") || same(name.as_str(), "infinity") {
        return Some(Double { bits: sign + INFINITY });
    }
    if same(name.as_str(), "nan") {
        return Some(Double { bits: sign + NOT_A_NUMBER });
    }
    let x: usize = find_exponent(&cs, from);
    proof {
        assert(cs@.subrange(from as int, x as int) =~= body.take(exponent_at(body)));
        assert(cs@.skip(x as int) =~= body.skip(exponent_at(body)));
    }
    let (ds, whole) = match read_mantissa(&cs, from, x) {
        Some(m) => m,
        None => {
            return None;
        },
    };
    let e: i128 = match read_exponent(&cs, x) {
        Some(e) => e,
        None => {
            return None;
        },
    };
    let ghost exact = exponent(body.skip(exponent_at(body)))->0;
    Some(Double { bits: sign + find_decimal(&ds, whole, e, Ghost(exact)) })
}

// ---------------------------------------------------------------------------
// laws
// ---------------------------------------------------------------------------

proof fn lemma_coarser_scale(n: nat, d: nat, e: int)
    requires
        d > 0,
    ensures
        coarser(n, d, e).1 >= e,
        coarser(n, d, e).0 == d * two((coarser(n, d, e).1 - e) as nat),
    decreases n + 1 - d,
{
    if n >= d * 0x20_0000_0000_0000 {
        lemma_coarser_scale(n, 2 * d, e + 1);
        let t = two((coarser(n, d, e).1 - e - 1) as nat);
        assert((2 * d) * t == d * (2 * t)) by (nonlinear_arith);
    } else {
        assert(d * 1 == d) by (nonlinear_arith);
    }
}

proof fn lemma_finer_scale(n: nat, d: nat, e: int)
    requires
        e >= -1074,
    ensures
        finer(n, d, e).1 <= e,
        finer(n, d, e).0 == n * two((e - finer(n, d, e).1) as nat),
        finer(n, d, e).1 == -1074 || finer(n, d, e).0 >= d * HALF_MANTISSA,
    decreases e + 1074,
{
    if n < d * HALF_MANTISSA && e > -1074 {
        lemma_finer_scale(2 * n, d, e - 1);
        let t = two((e - 1 - finer(n, d, e).1) as nat);
        assert((2 * n) * t == n * (2 * t)) by (nonlinear_arith);
    } else {
        assert(n * 1 == n) by (nonlinear_arith);
    }
}

/// Rounding only moves the point before it rounds, it keeps every binary place
/// that a double has, and what it gives is off by half the last one at most.
pub proof fn rounding_is_to_the_nearest(n: nat, d: nat, e: int)
    requires
        d > 0,
        e >= -1074,
    ensures
        ({
            let (b, at) = coarser(n, d, e);
            let (a, p) = finer(n, b, at);
            let m = rounded(a, b, 0);
            &&& b == d * two((at - e) as nat)
            &&& a == n * two((at - p) as nat)
            &&& p == -1074 || a >= b * HALF_MANTISSA
            &&& a < b * 0x20_0000_0000_0000
            &&& 2 * a <= (2 * m + 1) * b
            &&& (2 * m - 1) * b <= 2 * a
        }),
{
    lemma_coarser(n, d, e);
    lemma_coarser_scale(n, d, e);
    let (b, at) = coarser(n, d, e);
    lemma_finer(n, b, at);
    lemma_finer_scale(n, b, at);
    let (a, p) = finer(n, b, at);
    let q = a / b;
    let r = a % b;
    vstd::arithmetic::div_mod::lemma_fundamental_div_mod(a as int, b as int);
    vstd::arithmetic::div_mod::lemma_mod_bound(a as int, b as int);
    let m = rounded(a, b, 0);
    if m == q {
        assert(2 * a <= (2 * m + 1) * b && (2 * m - 1) * b <= 2 * a) by (nonlinear_arith)
            requires
                a == b * q + r,
                m == q,
                0 <= r,
                2 * r <= b,
        ;
    } else {
        assert(2 * a <= (2 * m + 1) * b && (2 * m - 1) * b <= 2 * a) by (nonlinear_arith)
            requires
                a == b * q + r,
                m == q + 1,
                r < b,
                2 * r >= b,
        ;
    }
}

/// Of two sizes, the one with the larger bits is the larger.
pub proof fn magnitudes_grow_with_the_values(x: Double, y: Double)
    requires
        x.finite(),
        y.finite(),
        x.magnitude() < y.magnitude(),
    ensures
        x.mantissa() * two((x.power() + 1074) as nat) < y.mantissa() * two(
            (y.power() + 1074) as nat,
        ),
{
    let p = (x.power() + 1074) as nat;
    let q = (y.power() + 1074) as nat;
    let m = x.mantissa();
    let n = y.mantissa();
    lemma_two_grows(0, p);
    let a = two(p);
    let b = two(q);
    if p == q {
        assert(m < n);
        assert(m * a < n * a) by (nonlinear_arith)
            requires
                m < n,
                a >= 1,
        ;
    } else {
        assert(p < q && n >= HALF_MANTISSA && m < 2 * HALF_MANTISSA);
        lemma_two_grows(p + 1, q);
        assert(two(p + 1) == 2 * a);
        assert(m * a < n * b) by (nonlinear_arith)
            requires
                0 <= m < 2 * 0x10_0000_0000_0000,
                n >= 0x10_0000_0000_0000,
                a >= 1,
                b >= 2 * a,
        ;
    }
}

/// A time since another is a number and never below zero.
pub proof fn a_time_since_is_never_below_zero(x: Double, y: Double)
    requires
        !y.negative(),
    ensures
        x.since(y).at_least(Double { bits: 0 }),
{
    if x.finite() && y.finite() {
        let p = if x.power() <= y.power() {
            x.power()
        } else {
            y.power()
        };
        let n = x.mantissa() * two((x.power() - p) as nat) - y.mantissa() * two(
            (y.power() - p) as nat,
        );
        if n >= 0 {
            lemma_coarser(n as nat, 1, p);
            let (b, at) = coarser(n as nat, 1, p);
            lemma_finer(n as nat, b, at);
        }
    }
}

} // verus!
