//! Unsigned 256-bit magnitude, just wide enough for the widest Decimal.
use vstd::arithmetic::power2::{lemma_pow2_adds, pow2};
use vstd::prelude::*;

verus! {

/// Four 64-bit limbs, least significant first.
#[derive(Clone, Copy, Debug, PartialEq, Eq, Structural)]
pub struct U256 {
    pub l0: u64,
    pub l1: u64,
    pub l2: u64,
    pub l3: u64,
}

/// One limb's radix.
pub open spec fn radix() -> int {
    0x1_0000_0000_0000_0000
}

/// The first value that no longer fits.
pub open spec fn limit256() -> int {
    radix() * (radix() * (radix() * radix()))
}

/// The number that bytes spell in little-endian order.
pub open spec fn le_nat(s: Seq<u8>) -> int
    decreases s.len(),
{
    if s.len() == 0 {
        0
    } else {
        le_nat(s.drop_last()) + (s.last() as int) * pow256((s.len() - 1) as nat)
    }
}

pub open spec fn pow256(n: nat) -> int
    decreases n,
{
    if n == 0 {
        1
    } else {
        256 * pow256((n - 1) as nat)
    }
}

pub proof fn lemma_pow256_32()
    ensures
        pow256(32) == limit256(),
{
    reveal_with_fuel(pow256, 33);
}

pub proof fn lemma_pow256_pos(n: nat)
    ensures
        pow256(n) > 0,
    decreases n,
{
    if n > 0 {
        lemma_pow256_pos((n - 1) as nat);
    }
}

/// A byte string of length `n` spells a number below `256^n`.
pub proof fn lemma_le_nat_bound(s: Seq<u8>)
    ensures
        0 <= le_nat(s) < pow256(s.len()),
    decreases s.len(),
{
    if s.len() > 0 {
        lemma_le_nat_bound(s.drop_last());
        let p = pow256((s.len() - 1) as nat);
        let d = s.last() as int;
        lemma_pow256_pos((s.len() - 1) as nat);
        assert(0 <= d * p <= 255 * p) by (nonlinear_arith)
            requires
                0 <= d <= 255,
                p > 0,
        ;
    }
}

/// Byte strings of one length that spell one number are equal.
pub proof fn le_nat_is_injective(a: Seq<u8>, b: Seq<u8>)
    requires
        a.len() == b.len(),
        le_nat(a) == le_nat(b),
    ensures
        a == b,
    decreases a.len(),
{
    if a.len() == 0 {
        assert(a =~= b);
    } else {
        let x = a.drop_last();
        let y = b.drop_last();
        lemma_le_nat_bound(x);
        lemma_le_nat_bound(y);
        let p = pow256(x.len());
        let c = a.last() as int;
        let d = b.last() as int;
        assert(c == d && le_nat(x) == le_nat(y)) by (nonlinear_arith)
            requires
                le_nat(x) + c * p == le_nat(y) + d * p,
                0 <= le_nat(x) < p,
                0 <= le_nat(y) < p,
        ;
        le_nat_is_injective(x, y);
        assert(a =~= x.push(a.last()));
        assert(b =~= y.push(b.last()));
    }
}

proof fn lemma_scale_limb(lo: int, hi: int, r: int)
    ensures
        (lo + radix() * hi) * r == lo * r + radix() * (hi * r),
{
    assert((lo + 0x1_0000_0000_0000_0000 * hi) * r == lo * r + 0x1_0000_0000_0000_0000 * (hi * r))
        by (nonlinear_arith);
}

proof fn lemma_carry_out(c: int)
    ensures
        radix() * (radix() * (radix() * (radix() * c))) == c * limit256(),
{
    let b = radix();
    assert(b * (b * (b * (b * c))) == c * (b * (b * (b * b)))) by (nonlinear_arith);
}

impl U256 {
    pub open spec fn val(self) -> int {
        self.l0 + radix() * (self.l1 + radix() * (self.l2 + radix() * self.l3))
    }

    pub proof fn lemma_val_bound(self)
        ensures
            0 <= self.val() < limit256(),
    {
    }

    pub fn zero() -> (r: U256)
        ensures
            r.val() == 0,
    {
        U256 { l0: 0, l1: 0, l2: 0, l3: 0 }
    }

    pub fn is_zero(self) -> (r: bool)
        ensures
            r == (self.val() == 0),
    {
        self.l0 == 0 && self.l1 == 0 && self.l2 == 0 && self.l3 == 0
    }

    /// `2^bit`.
    pub fn one_shl(bit: usize) -> (r: U256)
        requires
            bit < 256,
        ensures
            r.val() == pow2(bit as nat),
    {
        let low: u32 = (bit % 64) as u32;
        let limb: u64 = 1u64 << low;
        proof {
            lemma_one_shl(low);
            lemma_pow2_64();
            let n = (bit % 64) as nat;
            lemma_pow2_adds(64, n);
            lemma_pow2_adds(64, 64 + n);
            lemma_pow2_adds(64, 128 + n);
        }
        if bit < 64 {
            U256 { l0: limb, l1: 0, l2: 0, l3: 0 }
        } else if bit < 128 {
            U256 { l0: 0, l1: limb, l2: 0, l3: 0 }
        } else if bit < 192 {
            U256 { l0: 0, l1: 0, l2: limb, l3: 0 }
        } else {
            U256 { l0: 0, l1: 0, l2: 0, l3: limb }
        }
    }

    /// Multiply in place, modulo the width; `false` when the product does not
    /// fit.
    pub fn checked_mul_small(&mut self, rhs: u32) -> (ok: bool)
        ensures
            ok == (old(self).val() * rhs < limit256()),
            final(self).val() == (old(self).val() * rhs) % limit256(),
            ok ==> final(self).val() == old(self).val() * rhs,
    {
        let (n0, c0) = mul_step(self.l0, rhs, 0);
        let (n1, c1) = mul_step(self.l1, rhs, c0);
        let (n2, c2) = mul_step(self.l2, rhs, c1);
        let (n3, c3) = mul_step(self.l3, rhs, c2);
        proof {
            let r = rhs as int;
            lemma_scale_limb(self.l2 as int, self.l3 as int, r);
            lemma_scale_limb(self.l1 as int, self.l2 + radix() * self.l3, r);
            lemma_scale_limb(
                self.l0 as int,
                self.l1 + radix() * (self.l2 + radix() * self.l3),
                r,
            );
        }
        self.l0 = n0;
        self.l1 = n1;
        self.l2 = n2;
        self.l3 = n3;
        proof {
            self.lemma_val_bound();
            lemma_carry_out(c3 as int);
            vstd::arithmetic::div_mod::lemma_fundamental_div_mod_converse(
                old(self).val() * rhs,
                limit256(),
                c3 as int,
                self.val(),
            );
        }
        c3 == 0
    }

    /// Add in place, modulo the width; `false` when the sum does not fit.
    pub fn checked_add_small(&mut self, rhs: u32) -> (ok: bool)
        ensures
            ok == (old(self).val() + rhs < limit256()),
            final(self).val() == (old(self).val() + rhs) % limit256(),
            ok ==> final(self).val() == old(self).val() + rhs,
    {
        let (n0, c0) = mul_step(self.l0, 1, rhs);
        let (n1, c1) = mul_step(self.l1, 1, c0);
        let (n2, c2) = mul_step(self.l2, 1, c1);
        let (n3, c3) = mul_step(self.l3, 1, c2);
        self.l0 = n0;
        self.l1 = n1;
        self.l2 = n2;
        self.l3 = n3;
        proof {
            self.lemma_val_bound();
            lemma_carry_out(c3 as int);
            vstd::arithmetic::div_mod::lemma_fundamental_div_mod_converse(
                old(self).val() + rhs,
                limit256(),
                c3 as int,
                self.val(),
            );
        }
        c3 == 0
    }

    /// Divide in place and return the remainder.
    pub fn div_small(&mut self, rhs: u32) -> (rem: u32)
        requires
            rhs > 0,
        ensures
            old(self).val() == final(self).val() * rhs + rem,
            rem < rhs,
    {
        let (q3, m3) = div_step(0, self.l3, rhs);
        let (q2, m2) = div_step(m3, self.l2, rhs);
        let (q1, m1) = div_step(m2, self.l1, rhs);
        let (q0, m0) = div_step(m1, self.l0, rhs);
        proof {
            let r = rhs as int;
            lemma_scale_limb(q2 as int, q3 as int, r);
            lemma_scale_limb(q1 as int, q2 + radix() * q3, r);
            lemma_scale_limb(q0 as int, q1 + radix() * (q2 + radix() * q3), r);
        }
        self.l0 = q0;
        self.l1 = q1;
        self.l2 = q2;
        self.l3 = q3;
        m0
    }

    pub fn lt(self, other: U256) -> (r: bool)
        ensures
            r == (self.val() < other.val()),
    {
        if self.l3 != other.l3 {
            self.l3 < other.l3
        } else if self.l2 != other.l2 {
            self.l2 < other.l2
        } else if self.l1 != other.l1 {
            self.l1 < other.l1
        } else {
            self.l0 < other.l0
        }
    }

    /// The 32 bytes of the value, least significant first.
    pub fn to_le_bytes(self) -> (out: [u8; 32])
        ensures
            le_nat(out@) == self.val(),
    {
        let mut out: [u8; 32] = [0u8;32];
        let mut rest: U256 = self;
        let mut i: usize = 0;
        while i < 32
            invariant
                i <= 32,
                out@.len() == 32,
                le_nat(out@.subrange(0, i as int)) + pow256(i as nat) * rest.val() == self.val(),
            decreases 32 - i,
        {
            let ghost before = out@;
            let ghost whole = rest.val();
            let b: u32 = rest.div_small(256);
            out[i] = b as u8;
            proof {
                let p = pow256(i as nat);
                let next = out@.subrange(0, i as int + 1);
                assert(next.drop_last() =~= before.subrange(0, i as int));
                assert(next.last() == b as u8);
                assert(p * whole == p * 256 * rest.val() + b * p) by (nonlinear_arith)
                    requires
                        whole == rest.val() * 256 + b,
                ;
            }
            i = i + 1;
        }
        proof {
            assert(out@.subrange(0, 32) =~= out@);
            lemma_pow256_32();
            lemma_le_nat_bound(out@);
            self.lemma_val_bound();
            assert(rest.val() == 0) by (nonlinear_arith)
                requires
                    rest.val() >= 0,
                    le_nat(out@) >= 0,
                    limit256() > 0,
                    le_nat(out@) + limit256() * rest.val() < limit256(),
            ;
        }
        out
    }
}

fn mul_step(limb: u64, rhs: u32, carry: u32) -> (r: (u64, u32))
    ensures
        limb * rhs + carry == r.0 + radix() * r.1,
{
    proof {
        assert(limb * rhs <= 0xffff_ffff_ffff_ffff * 0xffff_ffff) by (nonlinear_arith)
            requires
                limb <= 0xffff_ffff_ffff_ffff,
                rhs <= 0xffff_ffff,
        ;
        assert(limb * rhs >= 0) by (nonlinear_arith)
            requires
                limb >= 0,
                rhs >= 0,
        ;
    }
    let v: u128 = (limb as u128) * (rhs as u128) + (carry as u128);
    let lo: u64 = (v % 0x1_0000_0000_0000_0000) as u64;
    let hi: u32 = (v / 0x1_0000_0000_0000_0000) as u32;
    (lo, hi)
}

fn div_step(rem: u32, limb: u64, rhs: u32) -> (r: (u64, u32))
    requires
        rem < rhs,
    ensures
        rem * radix() + limb == r.0 * rhs + r.1,
        r.1 < rhs,
{
    let v: u128 = (rem as u128) * 0x1_0000_0000_0000_0000 + (limb as u128);
    let d: u128 = rhs as u128;
    let q: u128 = v / d;
    let m: u128 = v % d;
    proof {
        vstd::arithmetic::div_mod::lemma_fundamental_div_mod(v as int, d as int);
        assert(q < 0x1_0000_0000_0000_0000) by (nonlinear_arith)
            requires
                v == d * q + m,
                0 <= m,
                v < d * 0x1_0000_0000_0000_0000,
                d > 0,
        ;
        assert(q * rhs == d * q) by (nonlinear_arith)
            requires
                d == rhs,
        ;
    }
    (q as u64, m as u32)
}

proof fn lemma_one_shl(low: u32)
    requires
        low < 64,
    ensures
        (1u64 << low) == pow2(low as nat),
{
    vstd::bits::lemma_u64_pow2_no_overflow(low as nat);
    vstd::bits::lemma_u64_shl_is_mul(1, low as u64);
    assert(1u64 << low == 1u64 << (low as u64)) by (bit_vector);
}

proof fn lemma_pow2_64()
    ensures
        pow2(64) == radix(),
{
    vstd::arithmetic::power2::lemma2_to64();
}

} // verus!
