//! Decimal columns: from numeric text to the scaled integer on the wire.
use vstd::arithmetic::power2::{lemma_pow2_adds, lemma_pow2_pos, pow2};
use vstd::prelude::*;
use vstd::string::*;

use crate::errors::{EmitterError, ErrorView};
use crate::text::chars_of;
use crate::u256::{le_nat, limit256, pow256, U256};

verus! {

/// Storage width of a ClickHouse Decimal.
#[derive(Clone, Copy, Debug, PartialEq, Eq, Structural)]
pub enum DecimalWidth {
    D32,
    D64,
    D128,
    D256,
}

impl DecimalWidth {
    /// The width in bytes.
    pub open spec fn size(self) -> nat {
        match self {
            DecimalWidth::D32 => 4,
            DecimalWidth::D64 => 8,
            DecimalWidth::D128 => 16,
            DecimalWidth::D256 => 32,
        }
    }

    pub open spec fn of_size(size: nat) -> Option<DecimalWidth> {
        if size == 4 {
            Some(DecimalWidth::D32)
        } else if size == 8 {
            Some(DecimalWidth::D64)
        } else if size == 16 {
            Some(DecimalWidth::D128)
        } else if size == 32 {
            Some(DecimalWidth::D256)
        } else {
            None
        }
    }

    pub fn from_elem_size(size: usize) -> (r: Option<Self>)
        ensures
            r == Self::of_size(size as nat),
            r is Some ==> r->0.size() == size,
    {
        match size {
            4 => Some(DecimalWidth::D32),
            8 => Some(DecimalWidth::D64),
            16 => Some(DecimalWidth::D128),
            32 => Some(DecimalWidth::D256),
            _ => None,
        }
    }

    pub fn bytes(self) -> (r: usize)
        ensures
            r == self.size(),
    {
        match self {
            DecimalWidth::D32 => 4,
            DecimalWidth::D64 => 8,
            DecimalWidth::D128 => 16,
            DecimalWidth::D256 => 32,
        }
    }
}

/// How a Decimal column stores its value.
#[derive(Clone, Copy, Debug, PartialEq, Eq, Structural)]
pub struct DecimalWire {
    pub scale: u8,
    pub width: DecimalWidth,
}

pub open spec fn is_digit(c: char) -> bool {
    '0' <= c && c <= '9'
}

pub open spec fn digit_val(c: char) -> int {
    c as int - 48
}

/// `text` without one leading sign.
pub open spec fn unsigned_part(text: Seq<char>) -> Seq<char> {
    if text.len() > 0 && (text[0] == '-' || text[0] == '+') {
        text.subrange(1, text.len() as int)
    } else {
        text
    }
}

pub open spec fn is_negative(text: Seq<char>) -> bool {
    text.len() > 0 && text[0] == '-'
}

/// Digits with at most one dot among them, and at least one digit.
pub open spec fn is_decimal(s: Seq<char>) -> bool {
    &&& forall|i: int| 0 <= i < s.len() ==> is_digit(#[trigger] s[i]) || s[i] == '.'
    &&& forall|i: int, j: int|
        0 <= i < j < s.len() ==> !(#[trigger] s[i] == '.' && #[trigger] s[j] == '.')
    &&& exists|i: int| 0 <= i < s.len() && is_digit(#[trigger] s[i])
}

/// The digits read as one number, the dot ignored.
pub open spec fn mantissa(s: Seq<char>) -> int
    decreases s.len(),
{
    if s.len() == 0 {
        0
    } else if s.last() == '.' {
        mantissa(s.drop_last())
    } else {
        mantissa(s.drop_last()) * 10 + digit_val(s.last())
    }
}

/// How many digits stand behind the dot.
pub open spec fn fraction_len(s: Seq<char>) -> nat
    decreases s.len(),
{
    if s.len() == 0 || s.last() == '.' || !s.drop_last().contains('.') {
        0
    } else {
        fraction_len(s.drop_last()) + 1
    }
}

pub open spec fn pow10(n: nat) -> int
    decreases n,
{
    if n == 0 {
        1
    } else {
        10 * pow10((n - 1) as nat)
    }
}

/// `m` with `frac` fraction digits, rescaled to `scale` of them. Digits that
/// do not fit the scale are cut off.
pub open spec fn rescaled(m: int, frac: nat, scale: nat) -> int {
    if scale >= frac {
        m * pow10((scale - frac) as nat)
    } else {
        m / pow10((frac - scale) as nat)
    }
}

/// `text * 10^scale` as an integer, if `text` is a decimal number whose
/// digits fit 256 bits.
pub open spec fn scaled_value(text: Seq<char>, scale: nat) -> Option<int> {
    let body = unsigned_part(text);
    if is_decimal(body) && mantissa(body) < limit256() {
        let m = rescaled(mantissa(body), fraction_len(body), scale);
        Some(
            if is_negative(text) {
                -m
            } else {
                m
            },
        )
    } else {
        None
    }
}

/// `v` is in the signed range of `width` bytes.
pub open spec fn in_signed_range(v: int, width: nat) -> bool {
    -(pow2((8 * width - 1) as nat) as int) <= v < pow2((8 * width - 1) as nat)
}

/// `v` in two's complement over `width` bytes, as an unsigned number.
pub open spec fn twos_complement(v: int, width: nat) -> int {
    if v < 0 {
        pow256(width) + v
    } else {
        v
    }
}

pub open spec fn out_of_range() -> ErrorView {
    ErrorView::UnsupportedValue(Seq::empty(), "numeric out of range for Decimal column"@)
}

pub fn decimal_oob() -> (e: EmitterError)
    ensures
        e@ == out_of_range(),
{
    EmitterError::UnsupportedValue {
        target_column: String::new(),
        kind: "numeric out of range for Decimal column",
    }
}

pub fn decimal_type_error(msg: &str) -> (e: EmitterError)
    ensures
        e@ == ErrorView::Type(msg@),
{
    EmitterError::Type(String::from_str(msg))
}

/// The stored form of `text` in a Decimal with `scale` and `width`, if it has
/// one.
pub open spec fn decimal_bytes(text: Seq<char>, scale: int, width: DecimalWidth) -> Option<int> {
    if scale < 0 {
        None
    } else {
        match scaled_value(text, scale as nat) {
            Some(v) if in_signed_range(v, width.size()) => Some(twos_complement(v, width.size())),
            _ => None,
        }
    }
}

/// Numeric text such as `-12.340` to the scaled integer that a
/// `Decimal(_, scale)` stores: `value * 10^scale`, two's complement little
/// endian at the wire width, in a buffer of the widest width.
pub fn decimal_text_to_scaled_le(text: &str, scale: i32, width: DecimalWidth) -> (r: Result<
    [u8; 32],
    EmitterError,
>)
    ensures
        match r {
            Ok(out) => decimal_bytes(text@, scale as int, width) == Some(le_nat(out@)),
            Err(e) => decimal_bytes(text@, scale as int, width) is None && e@ == (if scale < 0 {
                ErrorView::Type("Decimal column has negative scale"@)
            } else {
                out_of_range()
            }),
        },
{
    if scale < 0 {
        return Err(decimal_type_error("Decimal column has negative scale"));
    }
    let chars: Vec<char> = chars_of(text);
    let neg: bool = chars.len() > 0 && chars[0] == '-';
    let start: usize = if chars.len() > 0 && (chars[0] == '-' || chars[0] == '+') {
        1
    } else {
        0
    };
    let ghost body = unsigned_part(text@);
    let mut mag: U256 = U256::zero();
    let mut frac: usize = 0;
    let mut seen_dot: bool = false;
    let mut saw_digit: bool = false;
    let mut i: usize = start;
    proof {
        assert(body =~= chars@.subrange(start as int, chars@.len() as int));
        assert(body.subrange(0, 0) =~= Seq::empty());
    }
    while i < chars.len()
        invariant
            start <= i <= chars@.len(),
            start <= 1,
            scale >= 0,
            body == unsigned_part(text@),
            body == chars@.subrange(start as int, chars@.len() as int),
            forall|k: int|
                0 <= k < i - start ==> is_digit(#[trigger] body[k]) || body[k] == '.',
            forall|k: int, j: int|
                0 <= k < j < i - start ==> !(#[trigger] body[k] == '.' && #[trigger] body[j]
                    == '.'),
            seen_dot == body.subrange(0, i - start).contains('.'),
            saw_digit == exists|k: int| 0 <= k < i - start && is_digit(#[trigger] body[k]),
            mag.val() == mantissa(body.subrange(0, i - start)),
            frac == fraction_len(body.subrange(0, i - start)),
            frac <= i,
        decreases chars@.len() - i,
    {
        let c: char = chars[i];
        let ghost at = i - start;
        let ghost now = body.subrange(0, at);
        let ghost next = body.subrange(0, at + 1);
        proof {
            assert(body[at] == c);
            assert(next.drop_last() =~= now);
            assert(next.last() == c);
            assert forall|x: char| next.contains(x) == (now.contains(x) || x == c) by {
                assert(next =~= now.push(c));
                if now.contains(x) {
                    let w = choose|w: int| 0 <= w < now.len() && now[w] == x;
                    assert(next[w] == x);
                }
                if x == c {
                    assert(next[at] == x);
                }
            }
        }
        if c == '.' && !seen_dot {
            proof {
                assert forall|k: int, j: int| 0 <= k < j < at + 1 implies !(#[trigger] body[k]
                    == '.' && #[trigger] body[j] == '.') by {
                    if j == at && body[k] == '.' {
                        assert(now[k] == '.');
                        assert(now.contains('.'));
                    }
                }
            }
            seen_dot = true;
            frac = 0;
        } else if '0' <= c && c <= '9' {
            saw_digit = true;
            let d: u32 = c as u32 - 48;
            let fits: bool = mag.checked_mul_small(10) && mag.checked_add_small(d);
            if !fits {
                proof {
                    assert(mantissa(next) >= limit256());
                    if is_decimal(body) {
                        lemma_mantissa_grows(body, at + 1);
                    }
                }
                return Err(decimal_oob());
            }
            if seen_dot {
                frac = frac + 1;
            }
        } else {
            proof {
                if is_decimal(body) {
                    assert(is_digit(body[at]) || body[at] == '.');
                    let w = choose|w: int| 0 <= w < now.len() && now[w] == '.';
                    assert(body[w] == '.');
                }
            }
            return Err(decimal_oob());
        }
        i = i + 1;
    }
    proof {
        assert(body.subrange(0, body.len() as int) =~= body);
    }
    if !saw_digit {
        return Err(decimal_oob());
    }
    proof {
        assert(is_decimal(body));
        mag.lemma_val_bound();
    }
    let ghost m = mantissa(body);
    let ghost f = fraction_len(body);
    let want: usize = scale as usize;
    if want > frac {
        let diff: usize = want - frac;
        let mut k: usize = 0;
        while k < diff
            invariant
                k <= diff,
                mag.val() == m * pow10(k as nat),
                m >= 0,
                scale >= 0,
                diff == scale - f,
                body == unsigned_part(text@),
                m == mantissa(body),
                f == fraction_len(body),
                is_decimal(body),
            decreases diff - k,
        {
            proof {
                assert(m * pow10((k + 1) as nat) == m * pow10(k as nat) * 10) by (nonlinear_arith)
                    requires
                        pow10((k + 1) as nat) == 10 * pow10(k as nat),
                ;
            }
            if !mag.checked_mul_small(10) {
                proof {
                    lemma_pow10_grows(m, (k + 1) as nat, diff as nat);
                    lemma_half_fits(width);
                }
                return Err(decimal_oob());
            }
            k = k + 1;
        }
    } else {
        let diff: usize = frac - want;
        let mut k: usize = 0;
        proof {
            assert(m / pow10(0) == m);
        }
        while k < diff
            invariant
                k <= diff,
                mag.val() == m / pow10(k as nat),
                m >= 0,
            decreases diff - k,
        {
            let ghost before = mag.val();
            let rem: u32 = mag.div_small(10);
            proof {
                assert(mag.val() == before / 10) by (nonlinear_arith)
                    requires
                        before == mag.val() * 10 + rem,
                        rem < 10,
                ;
                lemma_pow10_pos(k as nat);
                vstd::arithmetic::div_mod::lemma_div_denominator(m, pow10(k as nat), 10);
                assert(pow10((k + 1) as nat) == pow10(k as nat) * 10);
            }
            k = k + 1;
        }
        proof {
            if diff == 0 {
                assert(m * pow10(0) == m);
            }
        }
    }
    let ghost v = mag.val();
    proof {
        assert(v == rescaled(m, f, scale as nat));
        mag.lemma_val_bound();
    }
    // Bound by the physical wire width, not by the logical precision: a value
    // too wide for its column becomes a clean error instead of a truncated
    // store.
    let w: usize = width.bytes();
    let limit: U256 = U256::one_shl(w * 8 - 1);
    proof {
        lemma_pow2_pos((w * 8 - 1) as nat);
        assert((8 * width.size() - 1) as nat == (w * 8 - 1) as nat);
    }
    if (!neg && !mag.lt(limit)) || (neg && limit.lt(mag)) {
        return Err(decimal_oob());
    }
    let mut out: [u8; 32] = mag.to_le_bytes();
    if neg && !mag.is_zero() {
        proof {
            lemma_pow256_is_pow2(w as nat);
        }
        negate_le(&mut out, w, Ghost(v));
    }
    proof {
        let signed: int = if neg {
            -v
        } else {
            v
        };
        assert(scaled_value(text@, scale as nat) == Some(signed));
        assert(in_signed_range(signed, width.size()));
    }
    Ok(out)
}

/// Replace the number in the first `w` bytes by its two's complement.
fn negate_le(out: &mut [u8; 32], w: usize, Ghost(v): Ghost<int>)
    requires
        w <= 32,
        le_nat(old(out)@) == v,
        0 < v < pow256(w as nat),
    ensures
        le_nat(final(out)@) == pow256(w as nat) - v,
{
    let ghost orig = out@;
    proof {
        lemma_high_bytes_zero(orig, w as nat);
    }
    let mut carry: u16 = 1;
    let mut i: usize = 0;
    proof {
        assert(out@.subrange(0, 0) =~= Seq::empty());
        assert(orig.subrange(0, 0) =~= Seq::empty());
    }
    while i < w
        invariant
            i <= w <= 32,
            carry <= 1,
            out@.len() == 32,
            orig.len() == 32,
            forall|k: int| i <= k < 32 ==> out@[k] == orig[k],
            forall|k: int| w <= k < 32 ==> orig[k] == 0,
            le_nat(out@.subrange(0, i as int)) + le_nat(orig.subrange(0, i as int)) + carry
                * pow256(i as nat) == pow256(i as nat),
        decreases w - i,
    {
        let ghost before = out@;
        let ghost c0 = carry as int;
        let b: u8 = out[i];
        let t: u16 = (255 - b) as u16 + carry;
        out[i] = (t % 256) as u8;
        carry = t / 256;
        proof {
            let p = pow256(i as nat);
            let no = out@.subrange(0, i as int + 1);
            let oo = orig.subrange(0, i as int + 1);
            assert(no.drop_last() =~= before.subrange(0, i as int));
            assert(oo.drop_last() =~= orig.subrange(0, i as int));
            let x = no.last() as int;
            let y = oo.last() as int;
            let c1 = carry as int;
            assert(x + 256 * c1 == 255 - y + c0);
            assert(x * p + y * p + c1 * (256 * p) == 255 * p + c0 * p) by (nonlinear_arith)
                requires
                    x + 256 * c1 == 255 - y + c0,
            ;
        }
        i = i + 1;
    }
    proof {
        let lo = out@.subrange(0, w as int);
        let olo = orig.subrange(0, w as int);
        assert(le_nat(olo) == v) by {
            lemma_zero_tail(orig, w as nat, 32);
            assert(orig.subrange(0, 32) =~= orig);
        }
        assert forall|k: int| w <= k < 32 implies out@[k] == 0 by {
            assert(orig[k] == 0);
        }
        lemma_zero_tail(out@, w as nat, 32);
        assert(out@.subrange(0, 32) =~= out@);
        crate::u256::lemma_le_nat_bound(lo);
        crate::u256::lemma_pow256_pos(w as nat);
        assert(carry == 0) by (nonlinear_arith)
            requires
                le_nat(lo) >= 0,
                v > 0,
                le_nat(lo) + v + carry * pow256(w as nat) == pow256(w as nat),
                pow256(w as nat) > 0,
                carry <= 1,
        ;
    }
}

/// Bytes behind the `w`-th are zero when the number is below `256^w`.
proof fn lemma_high_bytes_zero(s: Seq<u8>, w: nat)
    requires
        w <= s.len(),
        le_nat(s) < pow256(w),
    ensures
        forall|k: int| w <= k < s.len() ==> s[k] == 0,
    decreases s.len(),
{
    if s.len() > w {
        let p = pow256((s.len() - 1) as nat);
        let d = s.last() as int;
        let rest = s.drop_last();
        crate::u256::lemma_le_nat_bound(rest);
        lemma_pow256_grows(w, (s.len() - 1) as nat);
        crate::u256::lemma_pow256_pos((s.len() - 1) as nat);
        assert(d == 0) by (nonlinear_arith)
            requires
                p > 0,
                d >= 0,
                le_nat(rest) >= 0,
                le_nat(rest) + d * p < p,
        ;
        assert(0 * p == 0);
        lemma_high_bytes_zero(rest, w);
        assert forall|k: int| w <= k < s.len() implies s[k] == 0 by {
            if k < rest.len() {
                assert(rest[k] == s[k]);
            }
        }
    }
}

proof fn lemma_zero_tail(s: Seq<u8>, w: nat, n: nat)
    requires
        w <= n <= s.len(),
        forall|k: int| w <= k < n ==> s[k] == 0,
    ensures
        le_nat(s.subrange(0, n as int)) == le_nat(s.subrange(0, w as int)),
    decreases n,
{
    if n > w {
        lemma_zero_tail(s, w, (n - 1) as nat);
        assert(s.subrange(0, n as int).drop_last() =~= s.subrange(0, n - 1));
        assert(0 * pow256((n - 1) as nat) == 0);
    }
}

pub proof fn lemma_pow256_grows(a: nat, b: nat)
    requires
        a <= b,
    ensures
        pow256(a) <= pow256(b),
    decreases b,
{
    crate::u256::lemma_pow256_pos(a);
    if a < b {
        lemma_pow256_grows(a, (b - 1) as nat);
    }
}

/// A stored Decimal fits its width.
pub proof fn lemma_decimal_bytes_fit(text: Seq<char>, scale: int, width: DecimalWidth)
    requires
        decimal_bytes(text, scale, width) is Some,
    ensures
        0 <= decimal_bytes(text, scale, width)->0 < pow256(width.size()),
{
    lemma_pow256_is_pow2(width.size());
}

/// A value in the signed range reads back from its two's complement.
pub proof fn twos_complement_reads_back(v: int, width: nat)
    requires
        width > 0,
        in_signed_range(v, width),
    ensures
        0 <= twos_complement(v, width) < pow256(width),
        v == (if twos_complement(v, width) >= pow2((8 * width - 1) as nat) {
            twos_complement(v, width) - pow256(width)
        } else {
            twos_complement(v, width)
        }),
{
    lemma_pow256_is_pow2(width);
}

proof fn lemma_pow256_is_pow2(n: nat)
    requires
        n > 0,
    ensures
        pow256(n) == pow2(8 * n),
        pow256(n) == 2 * pow2((8 * n - 1) as nat),
    decreases n,
{
    vstd::arithmetic::power2::lemma2_to64();
    if n > 1 {
        lemma_pow256_is_pow2((n - 1) as nat);
        lemma_pow2_adds(8, (8 * (n - 1)) as nat);
    } else {
        reveal_with_fuel(pow256, 2);
    }
    lemma_pow2_adds(1, (8 * n - 1) as nat);
}

proof fn lemma_half_fits(width: DecimalWidth)
    ensures
        pow2((8 * width.size() - 1) as nat) < limit256(),
{
    let w = width.size();
    lemma_pow256_is_pow2(w);
    lemma_pow256_grows(w, 32);
    crate::u256::lemma_pow256_32();
    lemma_pow2_pos((8 * w - 1) as nat);
}

proof fn lemma_pow10_pos(n: nat)
    ensures
        pow10(n) > 0,
    decreases n,
{
    if n > 0 {
        lemma_pow10_pos((n - 1) as nat);
    }
}

proof fn lemma_pow10_grows(m: int, a: nat, b: nat)
    requires
        a <= b,
        m >= 0,
    ensures
        m * pow10(a) <= m * pow10(b),
    decreases b,
{
    if a < b {
        lemma_pow10_grows(m, a, (b - 1) as nat);
        lemma_pow10_pos((b - 1) as nat);
        assert(m * pow10((b - 1) as nat) <= m * pow10(b)) by (nonlinear_arith)
            requires
                m >= 0,
                pow10((b - 1) as nat) > 0,
                pow10(b) == 10 * pow10((b - 1) as nat),
        ;
    }
}

/// A longer prefix of a decimal spells no smaller number.
proof fn lemma_mantissa_grows(s: Seq<char>, n: int)
    requires
        is_decimal(s),
        0 <= n <= s.len(),
    ensures
        0 <= mantissa(s.subrange(0, n)) <= mantissa(s),
{
    lemma_mantissa_between(s, n, s.len() as int);
    assert(s.subrange(0, s.len() as int) =~= s);
}

proof fn lemma_mantissa_between(s: Seq<char>, n: int, k: int)
    requires
        forall|i: int| 0 <= i < s.len() ==> is_digit(#[trigger] s[i]) || s[i] == '.',
        0 <= n <= k <= s.len(),
    ensures
        0 <= mantissa(s.subrange(0, n)) <= mantissa(s.subrange(0, k)),
    decreases k,
{
    if n < k {
        lemma_mantissa_between(s, n, k - 1);
        assert(s.subrange(0, k).drop_last() =~= s.subrange(0, k - 1));
        assert(s.subrange(0, k).last() == s[k - 1]);
    } else if k > 0 {
        lemma_mantissa_between(s, n - 1, k - 1);
        assert(s.subrange(0, k).drop_last() =~= s.subrange(0, k - 1));
        assert(s.subrange(0, k).last() == s[k - 1]);
    }
}

} // verus!
