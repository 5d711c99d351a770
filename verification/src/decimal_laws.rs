//! What Decimal columns hold of decimal texts, told by how texts relate.
use vstd::arithmetic::power2::pow2;
use vstd::prelude::*;
use vstd::string::*;

use crate::decimal::{
    fraction_len, in_signed_range, is_decimal, is_digit, mantissa, pow10, scaled_value,
    DecimalWidth, DecimalWire,
};
use crate::u256::limit256;
use crate::value_laws::bytes_read_as;
use crate::values::{encoded, ColumnValue, NumericKind};

verus! {

/// A text that starts with a digit or a point.
pub open spec fn plain(s: Seq<char>) -> bool {
    s.len() > 0 && s[0] != '-' && s[0] != '+'
}

/// One digit is its own value.
pub proof fn digits_stand_for_themselves(c: char)
    requires
        '0' <= c <= '9',
    ensures
        scaled_value(seq![c], 0) == Some(c as int - '0' as int),
{
    let s = seq![c];
    assert(s.drop_last() =~= Seq::empty());
    assert(is_digit(s[0]));
    assert(is_decimal(s));
    assert(mantissa(s.drop_last()) == 0);
    assert(pow10(0) == 1);
    assert(mantissa(s) * 1 == mantissa(s));
}

/// A minus negates, and a plus changes nothing.
pub proof fn signs_turn_the_value(s: Seq<char>, scale: nat, v: int)
    requires
        plain(s),
        scaled_value(s, scale) == Some(v),
    ensures
        scaled_value(seq!['-'] + s, scale) == Some(-v),
        scaled_value(seq!['+'] + s, scale) == Some(v),
{
    assert((seq!['-'] + s).subrange(1, s.len() as int + 1) =~= s);
    assert((seq!['+'] + s).subrange(1, s.len() as int + 1) =~= s);
}

proof fn lemma_grown(s: Seq<char>, c: char)
    requires
        is_decimal(s),
        is_digit(c) || (c == '.' && !s.contains('.')),
    ensures
        is_decimal(s.push(c)),
        s.push(c).drop_last() == s,
{
    let t = s.push(c);
    assert(t.drop_last() =~= s);
    let k = choose|k: int| 0 <= k < s.len() && is_digit(#[trigger] s[k]);
    assert(is_digit(t[k]));
    assert forall|i: int, j: int| 0 <= i < j < t.len() implies !(#[trigger] t[i] == '.'
        && #[trigger] t[j] == '.') by {
        if j == s.len() && t[j] == '.' {
            assert(t[i] == s[i]);
        }
    }
    assert forall|i: int| 0 <= i < t.len() implies is_digit(#[trigger] t[i]) || t[i] == '.' by {
        if i < s.len() {
            assert(t[i] == s[i]);
        }
    }
}

proof fn lemma_whole(s: Seq<char>)
    requires
        !s.contains('.'),
    ensures
        fraction_len(s) == 0,
{
    if s.len() > 0 && s.drop_last().contains('.') {
        let k = choose|k: int| 0 <= k < s.drop_last().len() && s.drop_last()[k] == '.';
        assert(s[k] == '.');
    }
}

/// A digit behind a whole number makes it ten times as much and itself more.
pub proof fn digits_shift_whole_numbers(s: Seq<char>, c: char, scale: nat, v: int)
    requires
        plain(s),
        !s.contains('.'),
        '0' <= c <= '9',
        scaled_value(s, scale) == Some(v),
        mantissa(s) * 10 + 10 <= limit256(),
    ensures
        scaled_value(s.push(c), scale) == Some(
            10 * v + (c as int - '0' as int) * pow10(scale),
        ),
{
    let t = s.push(c);
    lemma_grown(s, c);
    lemma_whole(s);
    assert(!t.contains('.')) by {
        if t.contains('.') {
            let k = choose|k: int| 0 <= k < t.len() && t[k] == '.';
            assert(k < s.len());
            assert(s[k] == '.');
        }
    }
    lemma_whole(t);
    let m = mantissa(s);
    let d = c as int - 48;
    let p = pow10(scale);
    assert(mantissa(t) == m * 10 + d);
    assert((m * 10 + d) * p == 10 * (m * p) + d * p) by (nonlinear_arith);
}

/// A point behind a whole number changes nothing.
pub proof fn points_change_nothing(s: Seq<char>, scale: nat)
    requires
        plain(s),
        is_decimal(s),
        !s.contains('.'),
    ensures
        scaled_value(s.push('.'), scale) == scaled_value(s, scale),
{
    lemma_grown(s, '.');
    lemma_whole(s);
}

/// A digit behind the point counts for its place, and for nothing where the
/// column has no such place.
pub proof fn fractions_count_by_their_place(s: Seq<char>, c: char, scale: nat, v: int)
    requires
        plain(s),
        s.contains('.'),
        '0' <= c <= '9',
        scaled_value(s, scale) == Some(v),
        mantissa(s) * 10 + 10 <= limit256(),
    ensures
        fraction_len(s.push(c)) == fraction_len(s) + 1,
        fraction_len(s) < scale ==> scaled_value(s.push(c), scale) == Some(
            v + (c as int - '0' as int) * pow10((scale - fraction_len(s) - 1) as nat),
        ),
        fraction_len(s) >= scale ==> scaled_value(s.push(c), scale) == Some(v),
{
    let t = s.push(c);
    let f = fraction_len(s);
    let m = mantissa(s);
    let d = c as int - 48;
    lemma_grown(s, c);
    assert(mantissa(t) == m * 10 + d);
    assert(fraction_len(t) == f + 1);
    if f < scale {
        let q = pow10((scale - f - 1) as nat);
        assert(pow10((scale - f) as nat) == 10 * q);
        assert((m * 10 + d) * q == m * (10 * q) + d * q) by (nonlinear_arith);
    } else {
        let q = pow10((f - scale) as nat);
        lemma_pow10_positive((f - scale) as nat);
        lemma_mantissa_positive(s);
        assert(pow10((f + 1 - scale) as nat) == 10 * q);
        lemma_shift_out(m, d, q);
        if f == scale {
            assert(q == 1);
            assert(m / 1 == m);
            assert(m * 1 == m);
        }
    }
}

proof fn lemma_pow10_positive(n: nat)
    ensures
        pow10(n) > 0,
    decreases n,
{
    if n > 0 {
        lemma_pow10_positive((n - 1) as nat);
    }
}

proof fn lemma_mantissa_positive(s: Seq<char>)
    requires
        forall|i: int| 0 <= i < s.len() ==> is_digit(#[trigger] s[i]) || s[i] == '.',
    ensures
        mantissa(s) >= 0,
    decreases s.len(),
{
    if s.len() > 0 {
        assert forall|i: int| 0 <= i < s.drop_last().len() implies is_digit(
            #[trigger] s.drop_last()[i],
        ) || s.drop_last()[i] == '.' by {
            assert(s.drop_last()[i] == s[i]);
        }
        lemma_mantissa_positive(s.drop_last());
        assert(is_digit(s[s.len() - 1]) || s[s.len() - 1] == '.');
    }
}

proof fn lemma_shift_out(m: int, d: int, q: int)
    requires
        m >= 0,
        0 <= d < 10,
        q > 0,
    ensures
        (m * 10 + d) / (10 * q) == m / q,
{
    vstd::arithmetic::div_mod::lemma_div_denominator(m * 10 + d, 10, q);
    assert((m * 10 + d) / 10 == m);
}

/// The first number too large for a Decimal of this width, and how far below
/// zero it goes.
pub open spec fn bound(w: DecimalWidth) -> int {
    match w {
        DecimalWidth::D32 => 0x8000_0000,
        DecimalWidth::D64 => 0x8000_0000_0000_0000,
        DecimalWidth::D128 => 0x8000_0000_0000_0000_0000_0000_0000_0000int,
        DecimalWidth::D256 => 0x8000_0000_0000_0000_0000_0000_0000_0000_0000_0000_0000_0000_0000_0000_0000_0000int,
    }
}

/// Bytes of a Decimal of this width.
pub open spec fn places(w: DecimalWidth) -> nat {
    match w {
        DecimalWidth::D32 => 4,
        DecimalWidth::D64 => 8,
        DecimalWidth::D128 => 16,
        DecimalWidth::D256 => 32,
    }
}

proof fn lemma_bounds(w: DecimalWidth)
    ensures
        pow2((8 * w.size() - 1) as nat) == bound(w),
        w.size() == places(w),
{
    vstd::arithmetic::power2::lemma2_to64();
    vstd::arithmetic::power2::lemma2_to64_rest();
    vstd::arithmetic::power2::lemma_pow2_adds(64, 63);
    vstd::arithmetic::power2::lemma_pow2_adds(64, 64);
    vstd::arithmetic::power2::lemma_pow2_adds(128, 127);
    let a = pow2(64) as int;
    let b = pow2(63) as int;
    assert(a * b == 0x8000_0000_0000_0000_0000_0000_0000_0000int && a * a
        == 0x1_0000_0000_0000_0000_0000_0000_0000_0000int && (a * a) * (a * b)
        == 0x8000_0000_0000_0000_0000_0000_0000_0000_0000_0000_0000_0000_0000_0000_0000_0000int)
        by (nonlinear_arith)
        requires
            a == 0x1_0000_0000_0000_0000,
            b == 0x8000_0000_0000_0000,
    ;
}

/// A Decimal column stores the scaled value exactly if it can be told in its
/// bytes, and what it stores reads back as that value.
pub proof fn decimals_read_back_as_their_value(s: String, d: DecimalWire)
    ensures
        ({
            let e = encoded(ColumnValue::Numeric(NumericKind::Finite(s)), Some(d));
            match scaled_value(s@, d.scale as nat) {
                Some(v) => if -bound(d.width) <= v < bound(d.width) {
                    e is Fixed && bytes_read_as(e->Fixed_0, v, places(d.width))
                } else {
                    e is Refused
                },
                None => e is Refused,
            }
        }),
{
    lemma_bounds(d.width);
    match scaled_value(s@, d.scale as nat) {
        Some(v) => {
            if in_signed_range(v, d.width.size()) {
                crate::value_laws::lemma_signed(v, places(d.width));
            }
        },
        None => {},
    }
}

} // verus!
