//! Little-endian integers in byte buffers.
use vstd::prelude::*;

use crate::u256::{le_nat, lemma_pow256_pos, pow256};

verus! {

/// The low `k` bytes of `n`, least significant first.
pub open spec fn le_bytes(n: int, k: nat) -> Seq<u8>
    decreases k,
{
    if k == 0 {
        Seq::empty()
    } else {
        le_bytes(n, (k - 1) as nat).push(((n / pow256((k - 1) as nat)) % 256) as u8)
    }
}

/// The low bytes of a number spell it back.
pub proof fn le_bytes_spell_the_number(n: int, k: nat)
    requires
        0 <= n < pow256(k),
    ensures
        le_bytes(n, k).len() == k,
        le_nat(le_bytes(n, k)) == n,
{
    lemma_le_nat_of_bytes(n, k);
    vstd::arithmetic::div_mod::lemma_small_mod(n as nat, pow256(k) as nat);
}

proof fn lemma_le_nat_of_bytes(n: int, k: nat)
    requires
        0 <= n,
    ensures
        le_bytes(n, k).len() == k,
        le_nat(le_bytes(n, k)) == n % pow256(k),
    decreases k,
{
    if k == 0 {
        assert(n % 1 == 0);
    } else {
        let j = (k - 1) as nat;
        let p = pow256(j);
        lemma_pow256_pos(j);
        lemma_le_nat_of_bytes(n, j);
        let s = le_bytes(n, k);
        assert(s.drop_last() =~= le_bytes(n, j));
        let d = (n / p) % 256;
        assert(le_nat(s) == n % p + d * p);
        vstd::arithmetic::div_mod::lemma_breakdown(n, p, 256);
        assert(p * 256 == pow256(k));
        assert(d * p == p * d) by (nonlinear_arith);
    }
}

pub proof fn lemma_le_bytes_len(n: int, k: nat)
    ensures
        le_bytes(n, k).len() == k,
    decreases k,
{
    if k > 0 {
        lemma_le_bytes_len(n, (k - 1) as nat);
    }
}

pub proof fn lemma_pow256_small()
    ensures
        pow256(0) == 1,
        pow256(1) == 0x100,
        pow256(2) == 0x1_0000,
        pow256(3) == 0x100_0000,
        pow256(4) == 0x1_0000_0000,
        pow256(5) == 0x100_0000_0000,
        pow256(6) == 0x1_0000_0000_0000,
        pow256(7) == 0x100_0000_0000_0000,
        pow256(8) == 0x1_0000_0000_0000_0000,
{
    reveal_with_fuel(pow256, 9);
}

/// Append the low `k` bytes of `n`.
pub fn push_le(out: &mut Vec<u8>, n: u64, k: usize)
    requires
        k <= 8,
    ensures
        final(out)@ == old(out)@ + le_bytes(n as int, k as nat),
{
    let mut rest: u64 = n;
    let mut i: usize = 0;
    proof {
        assert(out@ =~= old(out)@ + le_bytes(n as int, 0));
        assert(n as int / pow256(0) == n);
    }
    while i < k
        invariant
            i <= k <= 8,
            out@ == old(out)@ + le_bytes(n as int, i as nat),
            rest == n as int / pow256(i as nat),
        decreases k - i,
    {
        out.push((rest % 256) as u8);
        proof {
            assert(out@ =~= old(out)@ + le_bytes(n as int, (i + 1) as nat));
            lemma_pow256_pos(i as nat);
            vstd::arithmetic::div_mod::lemma_div_denominator(n as int, pow256(i as nat), 256);
            assert(pow256(i as nat) * 256 == pow256((i + 1) as nat));
        }
        rest = rest / 256;
        i = i + 1;
    }
}

pub fn push_u32(out: &mut Vec<u8>, n: u32)
    ensures
        final(out)@ == old(out)@ + le_bytes(n as int, 4),
{
    push_le(out, n as u64, 4);
}

pub fn push_u64(out: &mut Vec<u8>, n: u64)
    ensures
        final(out)@ == old(out)@ + le_bytes(n as int, 8),
{
    push_le(out, n, 8);
}

/// The number in the `k` bytes from `at` on.
pub fn read_le(s: &[u8], at: usize, k: usize) -> (n: u64)
    requires
        k <= 8,
        at + k <= s@.len(),
    ensures
        n == le_nat(s@.subrange(at as int, at + k)),
        n < pow256(k as nat),
{
    let size: usize = s.len();
    let mut n: u64 = 0;
    let mut p: u64 = 1;
    let mut i: usize = 0;
    proof {
        assert(s@.subrange(at as int, at as int) =~= Seq::empty());
        lemma_pow256_small();
    }
    while i < k
        invariant
            i <= k <= 8,
            at + k <= size == s@.len(),
            n == le_nat(s@.subrange(at as int, at + i)),
            i < 8 ==> p == pow256(i as nat),
            n < pow256(i as nat),
        decreases k - i,
    {
        let b: u8 = s[at + i];
        proof {
            let next = s@.subrange(at as int, at + i + 1);
            assert(next.drop_last() =~= s@.subrange(at as int, at + i));
            assert(next.last() == b);
            lemma_pow256_small();
            assert(0 <= b * p <= 255 * p) by (nonlinear_arith)
                requires
                    0 <= b <= 255,
                    p >= 0,
            ;
            assert(pow256((i + 1) as nat) == 256 * pow256(i as nat));
        }
        n = n + (b as u64) * p;
        if i < 7 {
            p = p * 256;
        }
        i = i + 1;
    }
    n
}

pub fn read_u32(s: &[u8], at: usize) -> (n: u32)
    requires
        at + 4 <= s@.len(),
    ensures
        n == le_nat(s@.subrange(at as int, at + 4)),
{
    proof {
        lemma_pow256_small();
    }
    read_le(s, at, 4) as u32
}

/// The bytes from `from` to `to`.
pub fn copy_range(s: &[u8], from: usize, to: usize) -> (v: Vec<u8>)
    requires
        from <= to <= s@.len(),
    ensures
        v@ == s@.subrange(from as int, to as int),
{
    let mut v: Vec<u8> = Vec::new();
    append_range(&mut v, s, from, to);
    proof {
        assert(v@ =~= s@.subrange(from as int, to as int));
    }
    v
}

/// Append the bytes from `from` to `to`.
pub fn append_range(out: &mut Vec<u8>, s: &[u8], from: usize, to: usize)
    requires
        from <= to <= s@.len(),
    ensures
        final(out)@ == old(out)@ + s@.subrange(from as int, to as int),
{
    let mut i: usize = from;
    proof {
        assert(out@ =~= old(out)@ + s@.subrange(from as int, from as int));
    }
    while i < to
        invariant
            from <= i <= to <= s@.len(),
            out@ == old(out)@ + s@.subrange(from as int, i as int),
        decreases to - i,
    {
        out.push(s[i]);
        proof {
            assert(out@ =~= old(out)@ + s@.subrange(from as int, i as int + 1));
        }
        i = i + 1;
    }
}

/// Append all of `s`.
pub fn append_all(out: &mut Vec<u8>, s: &[u8])
    ensures
        final(out)@ == old(out)@ + s@,
{
    append_range(out, s, 0, s.len());
    proof {
        assert(s@.subrange(0, s@.len() as int) =~= s@);
    }
}

} // verus!
