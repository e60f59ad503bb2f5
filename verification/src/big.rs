//! Whole numbers of any size, for arithmetic that has to be exact before it is
//! rounded.

use vstd::prelude::*;

verus! {

/// What one limb counts up to.
pub const LIMB: u64 = 0x1_0000_0000;

/// A power of two.
pub open spec fn two(k: nat) -> nat
    decreases k,
{
    if k == 0 {
        1
    } else {
        2 * two((k - 1) as nat)
    }
}

pub proof fn lemma_two_grows(j: nat, k: nat)
    requires
        j <= k,
    ensures
        1 <= two(j) <= two(k),
    decreases k,
{
    if j < k {
        lemma_two_grows(j, (k - 1) as nat);
    } else if k > 0 {
        lemma_two_grows((j - 1) as nat, (k - 1) as nat);
    }
}

/// The weight of a limb.
pub open spec fn place(i: nat) -> nat
    decreases i,
{
    if i == 0 {
        1
    } else {
        LIMB as nat * place((i - 1) as nat)
    }
}

/// A limb, or zero beyond the last.
pub open spec fn limb(s: Seq<u32>, i: int) -> nat {
    if 0 <= i < s.len() {
        s[i] as nat
    } else {
        0
    }
}

/// What the lowest `n` limbs come to.
pub open spec fn low(s: Seq<u32>, n: nat) -> nat
    decreases n,
{
    if n == 0 {
        0
    } else {
        low(s, (n - 1) as nat) + limb(s, n - 1) * place((n - 1) as nat)
    }
}

proof fn lemma_same_low(s: Seq<u32>, t: Seq<u32>, n: nat)
    requires
        forall|i: int| 0 <= i < n ==> limb(s, i) == limb(t, i),
    ensures
        low(s, n) == low(t, n),
    decreases n,
{
    if n > 0 {
        lemma_same_low(s, t, (n - 1) as nat);
    }
}

proof fn lemma_low_push(s: Seq<u32>, x: u32)
    ensures
        low(s.push(x), s.len() + 1) == low(s, s.len()) + x * place(s.len()),
{
    lemma_same_low(s.push(x), s, s.len());
}

proof fn lemma_low_beyond(s: Seq<u32>, n: nat)
    requires
        n >= s.len(),
    ensures
        low(s, n) == low(s, s.len()),
    decreases n,
{
    if n > s.len() {
        lemma_low_beyond(s, (n - 1) as nat);
        assert(0 * place((n - 1) as nat) == 0) by (nonlinear_arith);
    }
}

proof fn lemma_low_bound(s: Seq<u32>, n: nat)
    ensures
        low(s, n) < place(n),
    decreases n,
{
    if n > 0 {
        lemma_low_bound(s, (n - 1) as nat);
        let p = place((n - 1) as nat);
        let a = low(s, (n - 1) as nat);
        let x = limb(s, n - 1);
        assert(a + x * p < 0x1_0000_0000 * p) by (nonlinear_arith)
            requires
                a < p,
                0 <= x <= 0xffff_ffff,
        ;
    }
}

/// A whole number, lowest limb first.
#[derive(Debug)]
pub struct Big {
    limbs: Vec<u32>,
}

impl View for Big {
    type V = nat;

    closed spec fn view(&self) -> nat {
        low(self.limbs@, self.limbs@.len())
    }
}

impl Big {
    pub fn zero() -> (r: Big)
        ensures
            r@ == 0,
    {
        Big { limbs: Vec::new() }
    }

    /// `self * m + a`
    pub fn times(&self, m: u32, a: u32) -> (r: Big)
        ensures
            r@ == self@ * m + a,
    {
        let ghost s = self.limbs@;
        let mut out: Vec<u32> = Vec::new();
        let mut carry: u64 = a as u64;
        let mut i: usize = 0;
        assert(low(s, 0) * m + a == low(out@, 0) + carry * place(0)) by {
            assert(0 * m == 0) by (nonlinear_arith);
            assert(carry * 1 == carry) by (nonlinear_arith);
        }
        while i < self.limbs.len()
            invariant
                i <= s.len(),
                s == self.limbs@,
                out@.len() == i,
                carry <= 0xffff_ffff,
                low(s, i as nat) * m + a == low(out@, i as nat) + carry * place(i as nat),
            decreases s.len() - i,
        {
            let x: u32 = self.limbs[i];
            proof {
                assert(0 <= x * m <= 0xffff_ffff * 0xffff_ffff) by (nonlinear_arith)
                    requires
                        0 <= x <= 0xffff_ffff,
                        0 <= m <= 0xffff_ffff,
                ;
            }
            let t: u64 = x as u64 * m as u64 + carry;
            let l: u32 = (t % LIMB) as u32;
            let ghost before = out@;
            let ghost old_carry = carry;
            out.push(l);
            carry = t / LIMB;
            proof {
                lemma_low_push(before, l);
                let p = place(i as nat);
                let v = low(s, i as nat);
                let w = low(before, i as nat);
                assert(low(s, (i + 1) as nat) == v + x * p);
                assert(place((i + 1) as nat) == LIMB as nat * p);
                assert((v + x * p) * m + a == w + l * p + carry * (0x1_0000_0000 * p))
                    by (nonlinear_arith)
                    requires
                        v * m + a == w + old_carry * p,
                        x * m + old_carry == l + carry * 0x1_0000_0000,
                ;
            }
            i += 1;
        }
        if carry > 0 {
            let ghost before = out@;
            out.push(carry as u32);
            proof {
                lemma_low_push(before, carry as u32);
            }
        } else {
            assert(0 * place(i as nat) == 0) by (nonlinear_arith);
        }
        Big { limbs: out }
    }

    pub fn of(n: u64) -> (r: Big)
        ensures
            r@ == n,
    {
        let hi: u32 = (n / LIMB) as u32;
        let mid: u32 = (n / 0x1_0000 % 0x1_0000) as u32;
        let lo: u32 = (n % 0x1_0000) as u32;
        let zero = Big::zero();
        assert(zero@ * 1 == 0) by (nonlinear_arith)
            requires
                zero@ == 0,
        ;
        zero.times(1, hi).times(0x1_0000, mid).times(0x1_0000, lo)
    }

    /// `self * 2^k`
    pub fn raised(&self, k: u32) -> (r: Big)
        ensures
            r@ == self@ * two(k as nat),
    {
        let mut out = self.times(1, 0);
        assert(out@ == self@ * two(0)) by {
            let t = self@;
            assert(t * 1 == t) by (nonlinear_arith);
        }
        let mut i: u32 = 0;
        while i < k
            invariant
                i <= k,
                out@ == self@ * two(i as nat),
            decreases k - i,
        {
            proof {
                let t = self@;
                let p = two(i as nat);
                assert(two((i + 1) as nat) == 2 * p);
                assert(2 * (t * p) == t * (2 * p)) by (nonlinear_arith);
            }
            out = out.double();
            i += 1;
        }
        out
    }

    pub fn double(&self) -> (r: Big)
        ensures
            r@ == 2 * self@,
    {
        self.times(2, 0)
    }

    fn at(&self, i: usize) -> (r: u32)
        ensures
            r == limb(self.limbs@, i as int),
    {
        if i < self.limbs.len() {
            self.limbs[i]
        } else {
            0
        }
    }

    fn longer(&self, other: &Big) -> (r: usize)
        ensures
            r >= self.limbs@.len(),
            r >= other.limbs@.len(),
            low(self.limbs@, r as nat) == self@,
            low(other.limbs@, r as nat) == other@,
    {
        let n: usize = if self.limbs.len() >= other.limbs.len() {
            self.limbs.len()
        } else {
            other.limbs.len()
        };
        proof {
            lemma_low_beyond(self.limbs@, n as nat);
            lemma_low_beyond(other.limbs@, n as nat);
        }
        n
    }

    pub fn below(&self, other: &Big) -> (r: bool)
        ensures
            r == (self@ < other@),
    {
        let n: usize = self.longer(other);
        let mut r = false;
        let mut i: usize = 0;
        while i < n
            invariant
                i <= n,
                r == (low(self.limbs@, i as nat) < low(other.limbs@, i as nat)),
            decreases n - i,
        {
            let x: u32 = self.at(i);
            let y: u32 = other.at(i);
            proof {
                let p = place(i as nat);
                let a = low(self.limbs@, i as nat);
                let b = low(other.limbs@, i as nat);
                lemma_low_bound(self.limbs@, i as nat);
                lemma_low_bound(other.limbs@, i as nat);
                if x < y {
                    assert(a + x * p < b + y * p) by (nonlinear_arith)
                        requires
                            a < p,
                            0 <= b,
                            x + 1 <= y,
                    ;
                } else if x > y {
                    assert(a + x * p > b + y * p) by (nonlinear_arith)
                        requires
                            b < p,
                            0 <= a,
                            y + 1 <= x,
                    ;
                }
            }
            if x != y {
                r = x < y;
            }
            i += 1;
        }
        r
    }

    pub fn minus(&self, other: &Big) -> (r: Big)
        requires
            other@ <= self@,
        ensures
            r@ == self@ - other@,
    {
        let n: usize = self.longer(other);
        let mut out: Vec<u32> = Vec::new();
        let mut borrow: u64 = 0;
        let mut i: usize = 0;
        while i < n
            invariant
                i <= n,
                out@.len() == i,
                borrow <= 1,
                low(self.limbs@, i as nat) + borrow * place(i as nat) == low(
                    other.limbs@,
                    i as nat,
                ) + low(out@, i as nat),
            decreases n - i,
        {
            let x: u32 = self.at(i);
            let y: u32 = other.at(i);
            let t: u64 = LIMB + x as u64 - y as u64 - borrow;
            let l: u32 = (t % LIMB) as u32;
            let ghost before = out@;
            let ghost old_borrow = borrow;
            out.push(l);
            borrow = if t >= LIMB {
                0
            } else {
                1
            };
            proof {
                lemma_low_push(before, l);
                let p = place(i as nat);
                let a = low(self.limbs@, i as nat);
                let b = low(other.limbs@, i as nat);
                let c = low(before, i as nat);
                assert(place((i + 1) as nat) == LIMB as nat * p);
                assert(x + borrow * 0x1_0000_0000 == y + old_borrow + l);
                assert(a + x * p + borrow * (0x1_0000_0000 * p) == b + y * p + (c + l * p))
                    by (nonlinear_arith)
                    requires
                        a + old_borrow * p == b + c,
                        x + borrow * 0x1_0000_0000 == y + old_borrow + l,
                ;
            }
            i += 1;
        }
        proof {
            lemma_low_bound(out@, n as nat);
            let p = place(n as nat);
            if borrow == 1 {
                assert(borrow * p == p) by (nonlinear_arith)
                    requires
                        borrow == 1,
                ;
            } else {
                assert(borrow * p == 0) by (nonlinear_arith)
                    requires
                        borrow == 0,
                ;
            }
        }
        Big { limbs: out }
    }
}

} // verus!
