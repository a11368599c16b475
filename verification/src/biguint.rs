//! Unbounded natural numbers for token amounts, held as 32-bit limbs, least
//! significant first, with no zero limb at the top.

use vstd::prelude::*;
use vstd::arithmetic::div_mod::{lemma_fundamental_div_mod, lemma_fundamental_div_mod_converse};

verus! {

/// The base of the limbs: 2^32.
pub open spec fn limb_base() -> nat {
    0x1_0000_0000nat
}

/// `limb_base()` to the power `n`.
pub open spec fn base_pow(n: nat) -> nat
    decreases n,
{
    if n == 0 {
        1
    } else {
        limb_base() * base_pow((n - 1) as nat)
    }
}

/// The number that limbs stand for, least significant limb first.
pub open spec fn limbs_value(s: Seq<u32>) -> nat
    decreases s.len(),
{
    if s.len() == 0 {
        0
    } else {
        s[0] as nat + limb_base() * limbs_value(s.drop_first())
    }
}

/// A new most significant limb adds its weight.
pub proof fn lemma_value_push(s: Seq<u32>, x: u32)
    ensures
        limbs_value(s.push(x)) == limbs_value(s) + x * base_pow(s.len()),
    decreases s.len(),
{
    if s.len() == 0 {
        assert(s.push(x).drop_first() =~= Seq::<u32>::empty());
        assert(limbs_value(Seq::<u32>::empty()) == 0);
        assert(s.push(x)[0] == x);
        assert(base_pow(0) == 1);
        assert(limbs_value(s) == 0);
    } else {
        let d = s.drop_first();
        assert(s.push(x).drop_first() =~= d.push(x));
        assert(s.push(x)[0] == s[0]);
        lemma_value_push(d, x);
        let vd = limbs_value(d);
        let p = base_pow(d.len());
        let b = limb_base() as int;
        assert(base_pow(s.len()) == b * p);
        assert(b * (vd + x * p) == b * vd + x * (b * p)) by (nonlinear_arith);
    }
}

/// Limbs stand for less than the base to the power of their number.
pub proof fn lemma_value_bound(s: Seq<u32>)
    ensures
        limbs_value(s) < base_pow(s.len()),
    decreases s.len(),
{
    if s.len() > 0 {
        let d = s.drop_first();
        lemma_value_bound(d);
        let vd = limbs_value(d) as int;
        let p = base_pow(d.len()) as int;
        let x = s[0] as int;
        assert(x + 0x1_0000_0000 * vd < 0x1_0000_0000 * p) by (nonlinear_arith)
            requires
                0 <= x < 0x1_0000_0000,
                0 <= vd < p,
        ;
    }
}

/// A prefix one limb longer.
proof fn lemma_take_push(s: Seq<u32>, i: int)
    requires
        0 <= i < s.len(),
    ensures
        s.take(i + 1) == s.take(i).push(s[i]),
        limbs_value(s.take(i + 1)) == limbs_value(s.take(i)) + s[i] * base_pow(i as nat),
{
    assert(s.take(i + 1) =~= s.take(i).push(s[i]));
    lemma_value_push(s.take(i), s[i]);
}

/// A suffix one limb longer.
proof fn lemma_skip_front(s: Seq<u32>, i: int)
    requires
        0 <= i < s.len(),
    ensures
        limbs_value(s.skip(i)) == s[i] + limb_base() * limbs_value(s.skip(i + 1)),
{
    assert(s.skip(i).drop_first() =~= s.skip(i + 1));
    assert(s.skip(i)[0] == s[i]);
}

/// The limbs with zero limbs added on top, up to `n` limbs.
fn padded(v: &Vec<u32>, n: usize) -> (r: Vec<u32>)
    requires
        v.len() <= n,
    ensures
        r.len() == n,
        limbs_value(r@) == limbs_value(v@),
{
    let mut r: Vec<u32> = Vec::new();
    let mut k: usize = 0;
    while k < v.len()
        invariant
            0 <= k <= v.len(),
            r@ == v@.take(k as int),
        decreases v.len() - k,
    {
        r.push(v[k]);
        k += 1;
        assert(r@ =~= v@.take(k as int));
    }
    assert(v@.take(v.len() as int) =~= v@);
    while r.len() < n
        invariant
            v.len() <= r.len() <= n,
            limbs_value(r@) == limbs_value(v@),
        decreases n - r.len(),
    {
        proof {
            lemma_value_push(r@, 0);
        }
        r.push(0);
    }
    r
}

/// The limbs without zero limbs on top.
fn trimmed(v: Vec<u32>) -> (r: Vec<u32>)
    ensures
        limbs_value(r@) == limbs_value(v@),
        r.len() == 0 || r@[r.len() - 1] != 0,
{
    let mut r = v;
    while r.len() > 0 && r[r.len() - 1] == 0
        invariant
            limbs_value(r@) == limbs_value(v@),
        decreases r.len(),
    {
        proof {
            assert(r@ =~= r@.drop_last().push(0));
            lemma_value_push(r@.drop_last(), 0);
        }
        r.pop();
    }
    r
}

/// `a - b` limb by limb: the limbs of the difference modulo the base to the
/// power of the number of limbs, and whether a borrow is left, which is so
/// exactly where `a < b`.
fn sub_borrow(a: &Vec<u32>, b: &Vec<u32>) -> (r: (Vec<u32>, bool))
    ensures
        r.1 <==> limbs_value(a@) < limbs_value(b@),
        !r.1 ==> limbs_value(r.0@) == limbs_value(a@) - limbs_value(b@),
{
    let n: usize = if a.len() < b.len() {
        b.len()
    } else {
        a.len()
    };
    let x = padded(a, n);
    let y = padded(b, n);
    let mut out: Vec<u32> = Vec::new();
    let mut borrow: u64 = 0;
    let mut i: usize = 0;
    while i < n
        invariant
            0 <= i <= n,
            x.len() == n,
            y.len() == n,
            out.len() == i,
            borrow <= 1,
            limbs_value(out@) - borrow * base_pow(i as nat) == limbs_value(x@.take(i as int))
                - limbs_value(y@.take(i as int)),
        decreases n - i,
    {
        let xi: u64 = x[i] as u64;
        let yi: u64 = y[i] as u64 + borrow;
        let lo: u32;
        let next: u64;
        if xi >= yi {
            lo = (xi - yi) as u32;
            next = 0;
        } else {
            lo = (xi + 0x1_0000_0000 - yi) as u32;
            next = 1;
        }
        proof {
            lemma_take_push(x@, i as int);
            lemma_take_push(y@, i as int);
            lemma_value_push(out@, lo);
            let p = base_pow(i as nat) as int;
            assert(base_pow((i + 1) as nat) == 0x1_0000_0000 * p);
            let vo = limbs_value(out@) as int;
            let vx = limbs_value(x@.take(i as int)) as int;
            let vy = limbs_value(y@.take(i as int)) as int;
            let l = lo as int;
            let bw = borrow as int;
            let nx = next as int;
            assert(l == xi - yi + nx * 0x1_0000_0000);
            assert(vo + l * p - nx * (0x1_0000_0000 * p) == vx + x@[i as int] * p - (vy + y@[
                i as int
            ] * p)) by (nonlinear_arith)
                requires
                    vo - bw * p == vx - vy,
                    l == xi - yi + nx * 0x1_0000_0000,
                    xi == x@[i as int],
                    yi == y@[i as int] + bw,
            ;
        }
        out.push(lo);
        borrow = next;
        i += 1;
    }
    proof {
        assert(x@.take(n as int) =~= x@);
        assert(y@.take(n as int) =~= y@);
        lemma_value_bound(out@);
    }
    (out, borrow == 1)
}

/// An unbounded natural number.
#[derive(Clone, Debug, PartialEq, Eq)]
pub struct BigUint {
    limbs: Vec<u32>,
}

impl View for BigUint {
    type V = nat;

    closed spec fn view(&self) -> nat {
        limbs_value(self.limbs@)
    }
}

impl BigUint {
    /// Zero.
    pub fn zero() -> (r: BigUint)
        ensures
            r@ == 0,
    {
        BigUint { limbs: Vec::new() }
    }

    /// The number given by its limbs, least significant first.
    pub fn from_limbs(limbs: Vec<u32>) -> (r: BigUint)
        ensures
            r@ == limbs_value(limbs@),
    {
        BigUint { limbs: trimmed(limbs) }
    }

    /// The limbs of the number, least significant first, none zero on top.
    pub fn to_limbs(&self) -> (r: Vec<u32>)
        ensures
            limbs_value(r@) == self@,
    {
        let mut r: Vec<u32> = Vec::new();
        let mut k: usize = 0;
        while k < self.limbs.len()
            invariant
                0 <= k <= self.limbs.len(),
                r@ == self.limbs@.take(k as int),
            decreases self.limbs.len() - k,
        {
            r.push(self.limbs[k]);
            k += 1;
            assert(r@ =~= self.limbs@.take(k as int));
        }
        assert(self.limbs@.take(self.limbs.len() as int) =~= self.limbs@);
        r
    }

    /// The number `x`.
    pub fn from_u128(x: u128) -> (r: BigUint)
        ensures
            r@ == x,
    {
        let mut out: Vec<u32> = Vec::new();
        let mut rest: u128 = x;
        proof {
            assert(out.len() == 0);
            assert(base_pow(out.len() as nat) == 1);
            assert(limbs_value(out@) == 0);
            assert(1 * rest == rest);
        }
        while rest > 0
            invariant
                limbs_value(out@) + base_pow(out.len() as nat) * rest == x,
            decreases rest,
        {
            let lo = (rest % 0x1_0000_0000) as u32;
            let hi = rest / 0x1_0000_0000;
            proof {
                lemma_value_push(out@, lo);
                lemma_fundamental_div_mod(rest as int, 0x1_0000_0000);
                let p = base_pow(out.len() as nat) as int;
                assert(base_pow((out.len() + 1) as nat) == 0x1_0000_0000 * p);
                assert(lo * p + (0x1_0000_0000 * p) * hi == p * rest) by (nonlinear_arith)
                    requires
                        rest == 0x1_0000_0000 * hi + lo,
                ;
            }
            out.push(lo);
            rest = hi;
        }
        BigUint::from_limbs(out)
    }

    /// The number `x`.
    pub fn from_u64(x: u64) -> (r: BigUint)
        ensures
            r@ == x,
    {
        BigUint::from_u128(x as u128)
    }

    /// A copy of the number.
    pub fn copy(&self) -> (r: BigUint)
        ensures
            r@ == self@,
    {
        BigUint { limbs: self.to_limbs() }.normal()
    }

    fn normal(self) -> (r: BigUint)
        ensures
            r@ == self@,
    {
        BigUint { limbs: trimmed(self.limbs) }
    }

    /// The sum.
    pub fn plus(&self, other: &BigUint) -> (r: BigUint)
        ensures
            r@ == self@ + other@,
    {
        let n: usize = if self.limbs.len() < other.limbs.len() {
            other.limbs.len()
        } else {
            self.limbs.len()
        };
        let x = padded(&self.limbs, n);
        let y = padded(&other.limbs, n);
        let mut out: Vec<u32> = Vec::new();
        let mut carry: u64 = 0;
        let mut i: usize = 0;
        while i < n
            invariant
                0 <= i <= n,
                x.len() == n,
                y.len() == n,
                out.len() == i,
                carry <= 1,
                limbs_value(out@) + carry * base_pow(i as nat) == limbs_value(x@.take(i as int))
                    + limbs_value(y@.take(i as int)),
            decreases n - i,
        {
            let t: u64 = x[i] as u64 + y[i] as u64 + carry;
            let lo = (t % 0x1_0000_0000) as u32;
            let hi: u64 = t / 0x1_0000_0000;
            proof {
                lemma_take_push(x@, i as int);
                lemma_take_push(y@, i as int);
                lemma_value_push(out@, lo);
                lemma_fundamental_div_mod(t as int, 0x1_0000_0000);
                let p = base_pow(i as nat) as int;
                assert(base_pow((i + 1) as nat) == 0x1_0000_0000 * p);
                let vo = limbs_value(out@) as int;
                let vx = limbs_value(x@.take(i as int)) as int;
                let vy = limbs_value(y@.take(i as int)) as int;
                assert(vo + lo * p + hi * (0x1_0000_0000 * p) == vx + x@[i as int] * p + vy + y@[
                    i as int
                ] * p) by (nonlinear_arith)
                    requires
                        vo + carry * p == vx + vy,
                        t == 0x1_0000_0000 * hi + lo,
                        t == x@[i as int] + y@[i as int] + carry,
                ;
            }
            out.push(lo);
            carry = hi;
            i += 1;
        }
        proof {
            assert(x@.take(n as int) =~= x@);
            assert(y@.take(n as int) =~= y@);
            lemma_value_push(out@, carry as u32);
        }
        out.push(carry as u32);
        BigUint::from_limbs(out)
    }

    /// The difference, where `other` is not larger.
    pub fn minus(&self, other: &BigUint) -> (r: BigUint)
        requires
            other@ <= self@,
        ensures
            r@ == self@ - other@,
    {
        let (d, _) = sub_borrow(&self.limbs, &other.limbs);
        BigUint::from_limbs(d)
    }

    /// Whether this number is less than the other.
    pub fn less_than(&self, other: &BigUint) -> (r: bool)
        ensures
            r == (self@ < other@),
    {
        let (_, borrow) = sub_borrow(&self.limbs, &other.limbs);
        borrow
    }

    /// Whether both are the same number.
    pub fn equals(&self, other: &BigUint) -> (r: bool)
        ensures
            r == (self@ == other@),
    {
        !self.less_than(other) && !other.less_than(self)
    }

    /// Whether the number is zero.
    pub fn is_zero(&self) -> (r: bool)
        ensures
            r == (self@ == 0),
    {
        !BigUint::zero().less_than(self)
    }

    /// The product with a 32-bit factor.
    pub fn times_u32(&self, k: u32) -> (r: BigUint)
        ensures
            r@ == self@ * k,
    {
        let a = &self.limbs;
        let mut out: Vec<u32> = Vec::new();
        let mut carry: u64 = 0;
        let mut i: usize = 0;
        assert(base_pow(0) == 1);
        assert(limbs_value(out@) == 0);
        assert(limbs_value(a@.take(0)) == 0);
        while i < a.len()
            invariant
                0 <= i <= a.len(),
                out.len() == i,
                carry < 0x1_0000_0000,
                limbs_value(out@) + carry * base_pow(i as nat) == limbs_value(a@.take(i as int))
                    * k,
            decreases a.len() - i,
        {
            let ai = a[i] as u64;
            assert(ai * (k as u64) <= 0xffff_ffff * 0xffff_ffff) by (nonlinear_arith)
                requires
                    ai <= 0xffff_ffff,
                    k <= 0xffff_ffff,
            ;
            let t: u64 = ai * (k as u64) + carry;
            let lo = (t % 0x1_0000_0000) as u32;
            let hi: u64 = t / 0x1_0000_0000;
            proof {
                lemma_take_push(a@, i as int);
                lemma_value_push(out@, lo);
                lemma_fundamental_div_mod(t as int, 0x1_0000_0000);
                let p = base_pow(i as nat) as int;
                assert(base_pow((i + 1) as nat) == 0x1_0000_0000 * p);
                let vo = limbs_value(out@) as int;
                let va = limbs_value(a@.take(i as int)) as int;
                assert(vo + lo * p + hi * (0x1_0000_0000 * p) == (va + ai * p) * k)
                    by (nonlinear_arith)
                    requires
                        vo + carry * p == va * k,
                        t == 0x1_0000_0000 * hi + lo,
                        t == ai * k + carry,
                ;
            }
            out.push(lo);
            carry = hi;
            i += 1;
        }
        proof {
            assert(a@.take(a.len() as int) =~= a@);
            lemma_value_push(out@, carry as u32);
        }
        out.push(carry as u32);
        BigUint::from_limbs(out)
    }

    /// The quotient and the remainder of the division by a non-zero 32-bit
    /// divisor.
    pub fn div_rem_u32(&self, d: u32) -> (r: (BigUint, u32))
        requires
            d > 0,
        ensures
            r.0@ == self@ / (d as nat),
            r.1 == self@ % (d as nat),
    {
        let a = &self.limbs;
        let n = a.len();
        let mut q: Vec<u32> = vec![0u32; n];
        let mut rem: u64 = 0;
        let mut i: usize = n;
        assert(limbs_value(a@.skip(n as int)) == 0);
        assert(limbs_value(q@.skip(n as int)) == 0);
        while i > 0
            invariant
                0 <= i <= n,
                a.len() == n,
                q.len() == n,
                rem < d,
                limbs_value(a@.skip(i as int)) == limbs_value(q@.skip(i as int)) * d + rem,
            decreases i,
        {
            i -= 1;
            let cur: u64 = rem * 0x1_0000_0000 + a[i] as u64;
            let qd: u64 = cur / (d as u64);
            let nrem: u64 = cur % (d as u64);
            proof {
                lemma_fundamental_div_mod(cur as int, d as int);
                assert(cur < (d as int) * 0x1_0000_0000) by (nonlinear_arith)
                    requires
                        rem < d,
                        cur == rem * 0x1_0000_0000 + a@[i as int],
                        a@[i as int] < 0x1_0000_0000,
                ;
                assert(qd < 0x1_0000_0000) by (nonlinear_arith)
                    requires
                        cur == d * qd + nrem,
                        nrem >= 0,
                        cur < d * 0x1_0000_0000,
                        d > 0,
                ;
            }
            let ghost old_q = q@;
            q.set(i, qd as u32);
            proof {
                lemma_skip_front(a@, i as int);
                lemma_skip_front(q@, i as int);
                assert(q@.skip(i + 1) =~= old_q.skip(i + 1));
                let vq = limbs_value(old_q.skip(i + 1)) as int;
                assert(a@[i as int] + 0x1_0000_0000 * (vq * d + rem) == (qd + 0x1_0000_0000 * vq)
                    * d + nrem) by (nonlinear_arith)
                    requires
                        cur == d * qd + nrem,
                        cur == rem * 0x1_0000_0000 + a@[i as int],
                ;
            }
            rem = nrem;
        }
        proof {
            assert(a@.skip(0) =~= a@);
            assert(q@.skip(0) =~= q@);
            lemma_fundamental_div_mod_converse(
                limbs_value(a@) as int,
                d as int,
                limbs_value(q@) as int,
                rem as int,
            );
        }
        (BigUint::from_limbs(q), rem as u32)
    }
}

} // verus!
