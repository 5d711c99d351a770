//! What written numbers and names read as.
use vstd::prelude::*;

use crate::text::{
    dec, dec_int, digit_char, hex, hex_char, is_space, joined, lower_char, lowered, trimmed_end,
    trimmed_start,
};

verus! {

/// The number that digits of a base spell, the last one counting once; letters
/// go on where the digits end.
pub open spec fn read_in(base: int, s: Seq<char>) -> int
    decreases s.len(),
{
    if s.len() == 0 {
        0
    } else {
        base * read_in(base, s.drop_last()) + (if 'A' <= s.last() {
            s.last() as int - 'A' as int + 10
        } else {
            s.last() as int - '0' as int
        })
    }
}

/// A number is written in decimal digits that read as it, without a zero in
/// front.
pub proof fn numbers_read_back(n: nat)
    ensures
        read_in(10, dec(n)) == n,
        dec(n).len() > 0,
        forall|i: int| 0 <= i < dec(n).len() ==> '0' <= #[trigger] dec(n)[i] <= '9',
        n > 0 ==> dec(n)[0] != '0',
    decreases n,
{
    if n < 10 {
        assert(dec(n).drop_last() == Seq::<char>::empty());
        assert(dec(n).last() == digit_char(n));
        assert(read_in(10, Seq::<char>::empty()) == 0);
    } else {
        numbers_read_back(n / 10);
        assert(dec(n).drop_last() == dec(n / 10));
        assert(dec(n).last() == digit_char(n % 10));
        assert(10 * (n / 10) + n % 10 == n);
        assert(dec(n)[0] == dec(n / 10)[0]);
    }
}

/// A negative number is written as its opposite behind a sign.
pub proof fn negative_numbers_have_a_sign(n: int)
    ensures
        n >= 0 ==> dec_int(n) == dec(n as nat),
        n < 0 ==> dec_int(n)[0] == '-' && dec_int(n).subrange(1, dec_int(n).len() as int) == dec(
            (-n) as nat,
        ),
{
    if n < 0 {
        let s = dec_int(n);
        assert(s.subrange(1, s.len() as int) == dec((-n) as nat));
    }
}

/// A position is written in hexadecimal digits that read as it.
pub proof fn positions_read_back(n: nat)
    ensures
        read_in(16, hex(n)) == n,
        hex(n).len() > 0,
    decreases n,
{
    if n < 16 {
        assert(hex(n).drop_last() == Seq::<char>::empty());
        assert(hex(n).last() == hex_char(n));
        assert(read_in(16, Seq::<char>::empty()) == 0);
    } else {
        positions_read_back(n / 16);
        assert(hex(n).drop_last() == hex(n / 16));
        assert(hex(n).last() == hex_char(n % 16));
        assert(16 * (n / 16) + n % 16 == n);
    }
}

/// Names differ in the case of letters alone when they are the same once
/// lowered: each letter from A to Z becomes the one from a to z in its place,
/// and nothing else changes.
pub proof fn lowering_changes_capitals_alone(s: Seq<char>, i: int)
    requires
        0 <= i < s.len(),
    ensures
        lowered(s).len() == s.len(),
        'A' <= s[i] <= 'Z' ==> 'a' <= lowered(s)[i] <= 'z' && lowered(s)[i] as int - 'a' as int
            == s[i] as int - 'A' as int,
        !('A' <= s[i] <= 'Z') ==> lowered(s)[i] == s[i],
        lowered(lowered(s)) == lowered(s),
{
    assert forall|c: char| #[trigger] lower_char(lower_char(c)) == lower_char(c) by {}
    assert(lowered(lowered(s)) =~= lowered(s));
}

/// Trimming takes the spaces in front away, and nothing else.
pub proof fn trimming_takes_spaces_in_front(s: Seq<char>)
    ensures
        trimmed_start(s).len() <= s.len(),
        trimmed_start(s) == s.subrange(s.len() - trimmed_start(s).len(), s.len() as int),
        trimmed_start(s).len() > 0 ==> !is_space(trimmed_start(s)[0]),
        forall|i: int| 0 <= i < s.len() - trimmed_start(s).len() ==> is_space(#[trigger] s[i]),
    decreases s.len(),
{
    if s.len() > 0 && is_space(s[0]) {
        let rest = s.subrange(1, s.len() as int);
        trimming_takes_spaces_in_front(rest);
        let t = trimmed_start(s);
        assert(rest.subrange(rest.len() - t.len(), rest.len() as int) == s.subrange(
            s.len() - t.len(),
            s.len() as int,
        ));
        assert forall|i: int| 0 <= i < s.len() - t.len() implies is_space(#[trigger] s[i]) by {
            if i > 0 {
                assert(rest[i - 1] == s[i]);
            }
        }
    } else {
        assert(s.subrange(0, s.len() as int) == s);
    }
}

/// Trimming takes the spaces behind away, and nothing else.
pub proof fn trimming_takes_spaces_behind(s: Seq<char>)
    ensures
        trimmed_end(s).is_prefix_of(s),
        trimmed_end(s).len() > 0 ==> !is_space(trimmed_end(s).last()),
        forall|i: int| trimmed_end(s).len() <= i < s.len() ==> is_space(#[trigger] s[i]),
    decreases s.len(),
{
    if s.len() > 0 && is_space(s.last()) {
        trimming_takes_spaces_behind(s.drop_last());
        assert forall|i: int| trimmed_end(s).len() <= i < s.len() implies is_space(
            #[trigger] s[i],
        ) by {
            if i < s.len() - 1 {
                assert(s.drop_last()[i] == s[i]);
            }
        }
    }
}

/// Parts are joined in their order, with the separator between any two and
/// nowhere else.
pub proof fn separators_stand_between_parts(
    parts: Seq<Seq<char>>,
    part: Seq<char>,
    sep: Seq<char>,
)
    ensures
        joined(Seq::<Seq<char>>::empty(), sep).len() == 0,
        parts.len() == 0 ==> joined(parts.push(part), sep) == part,
        parts.len() > 0 ==> joined(parts.push(part), sep) == joined(parts, sep) + sep + part,
{
    assert(parts.push(part).drop_last() == parts);
}

/// The spaces are those of Unicode: tab to carriage return, the blank, the next
/// line, the unbreakable blank, and the wide and narrow ones of typesetting.
pub proof fn spaces_are_told_by_their_number(c: char)
    ensures
        is_space(c) <==> 9 <= c as u32 <= 13 || c as u32 == 32 || c as u32 == 0x85 || c as u32
            == 0xa0 || c as u32 == 0x1680 || 0x2000 <= c as u32 <= 0x200a || c as u32 == 0x2028
            || c as u32 == 0x2029 || c as u32 == 0x202f || c as u32 == 0x205f || c as u32 == 0x3000,
{
}

} // verus!
