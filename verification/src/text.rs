//! Text helpers: rendering numbers, joining pieces, quoting identifiers.
use vstd::prelude::*;
use vstd::string::*;

verus! {

/// `String::push` appends one character.
pub assume_specification[ std::string::String::push ](s: &mut std::string::String, c: char)
    ensures
        final(s)@ == old(s)@.push(c),
;

/// `str`'s `PartialEq::eq` compares the two strings character by character.
pub assume_specification[ <str as PartialEq<str>>::eq ](a: &str, b: &str) -> (r: bool)
    ensures
        r == (a@ == b@),
;

/// The decimal digit `d` as a character.
pub open spec fn digit_char(d: nat) -> char {
    (48 + d) as u8 as char
}

/// `n` in decimal, without leading zeros; zero is `0`.
pub open spec fn dec(n: nat) -> Seq<char>
    decreases n,
{
    if n < 10 {
        seq![digit_char(n)]
    } else {
        dec(n / 10).push(digit_char(n % 10))
    }
}

/// `n` in decimal, with a minus sign in front when it is negative.
pub open spec fn dec_int(n: int) -> Seq<char> {
    if n < 0 {
        seq!['-'] + dec((-n) as nat)
    } else {
        dec(n as nat)
    }
}

/// A hexadecimal digit, capital letters.
pub open spec fn hex_char(d: nat) -> char {
    if d < 10 {
        digit_char(d)
    } else {
        (55 + d) as u8 as char
    }
}

/// `n` in hexadecimal, without leading zeros; zero is `0`.
pub open spec fn hex(n: nat) -> Seq<char>
    decreases n,
{
    if n < 16 {
        seq![hex_char(n)]
    } else {
        hex(n / 16).push(hex_char(n % 16))
    }
}

/// The views of a list of strings.
pub open spec fn views(v: Seq<String>) -> Seq<Seq<char>> {
    v.map_values(|s: String| s@)
}

/// The pieces in order, with `sep` between neighbours.
pub open spec fn joined(parts: Seq<Seq<char>>, sep: Seq<char>) -> Seq<char>
    decreases parts.len(),
{
    if parts.len() == 0 {
        Seq::empty()
    } else if parts.len() == 1 {
        parts[0]
    } else {
        joined(parts.drop_last(), sep) + sep + parts.last()
    }
}

/// `s` with every backtick doubled.
pub open spec fn backticks_doubled(s: Seq<char>) -> Seq<char>
    decreases s.len(),
{
    if s.len() == 0 {
        Seq::empty()
    } else {
        let head = backticks_doubled(s.drop_last());
        if s.last() == '`' {
            head.push('`').push('`')
        } else {
            head.push(s.last())
        }
    }
}

/// `s` as a ClickHouse identifier: in backticks, with inner backticks doubled.
pub open spec fn quoted(s: Seq<char>) -> Seq<char> {
    seq!['`'] + backticks_doubled(s) + seq!['`']
}

/// `db` and `table` quoted and joined by a dot.
pub open spec fn quoted_target(db: Seq<char>, table: Seq<char>) -> Seq<char> {
    quoted(db) + "."@ + quoted(table)
}

/// An ASCII capital becomes its small letter; every other character stays.
pub open spec fn lower_char(c: char) -> char {
    if 'A' <= c && c <= 'Z' {
        (c as u8 + 32) as u8 as char
    } else {
        c
    }
}

/// `s` with ASCII capitals made small.
pub open spec fn lowered(s: Seq<char>) -> Seq<char> {
    s.map_values(|c: char| lower_char(c))
}

/// The characters of `s` in order.
pub fn chars_of(s: &str) -> (v: Vec<char>)
    ensures
        v@ == s@,
{
    let mut v: Vec<char> = Vec::new();
    for c in iter: s.chars()
        invariant
            v@ == iter.seq().subrange(0, iter.index() as int),
            iter.seq() == s@,
    {
        v.push(c);
    }
    v
}

/// The string with the characters `v`, from `from` to the end.
pub fn string_from(v: &Vec<char>, from: usize, to: usize) -> (s: String)
    requires
        from <= to <= v@.len(),
    ensures
        s@ == v@.subrange(from as int, to as int),
{
    let mut s: String = String::new();
    let mut i: usize = from;
    while i < to
        invariant
            from <= i <= to <= v@.len(),
            s@ == v@.subrange(from as int, i as int),
        decreases to - i,
    {
        s.push(v[i]);
        i = i + 1;
    }
    s
}

/// Whether the two strings hold the same characters.
pub fn str_eq(a: &str, b: &str) -> (r: bool)
    ensures
        r == (a@ == b@),
{
    a.eq(b)
}

/// Whether `s` begins with `prefix`.
pub fn starts_with(s: &str, prefix: &str) -> (r: bool)
    ensures
        r == prefix@.is_prefix_of(s@),
{
    let v: Vec<char> = chars_of(s);
    let p: Vec<char> = chars_of(prefix);
    if p.len() > v.len() {
        return false;
    }
    let mut i: usize = 0;
    while i < p.len()
        invariant
            i <= p@.len() <= v@.len(),
            v@ == s@,
            p@ == prefix@,
            forall|k: int| 0 <= k < i ==> p@[k] == v@[k],
        decreases p@.len() - i,
    {
        if p[i] != v[i] {
            proof {
                if prefix@.is_prefix_of(s@) {
                    assert(s@.subrange(0, prefix@.len() as int)[i as int] == s@[i as int]);
                }
            }
            return false;
        }
        i = i + 1;
    }
    proof {
        assert(prefix@ =~= s@.subrange(0, prefix@.len() as int));
    }
    true
}

fn digit_of(d: u64) -> (c: char)
    requires
        d < 10,
    ensures
        c == digit_char(d as nat),
{
    (48u8 + d as u8) as char
}

/// Append `n` in decimal.
pub fn push_dec(out: &mut String, n: u64)
    ensures
        final(out)@ == old(out)@ + dec(n as nat),
    decreases n,
{
    if n >= 10 {
        push_dec(out, n / 10);
    }
    out.push(digit_of(n % 10));
}

/// `n` in decimal.
pub fn dec_string(n: u64) -> (s: String)
    ensures
        s@ == dec(n as nat),
{
    let mut s: String = String::new();
    push_dec(&mut s, n);
    s
}

/// Append `n` in decimal, signed.
pub fn push_dec_int(out: &mut String, n: i64)
    ensures
        final(out)@ == old(out)@ + dec_int(n as int),
{
    if n < 0 {
        out.push('-');
        let m: u64 = (-(n as i128)) as u64;
        push_dec(out, m);
    } else {
        push_dec(out, n as u64);
    }
}

fn hex_of(d: u64) -> (c: char)
    requires
        d < 16,
    ensures
        c == hex_char(d as nat),
{
    if d < 10 {
        digit_of(d)
    } else {
        (55u8 + d as u8) as char
    }
}

/// Append `n` in hexadecimal.
pub fn push_hex(out: &mut String, n: u64)
    ensures
        final(out)@ == old(out)@ + hex(n as nat),
    decreases n,
{
    if n >= 16 {
        push_hex(out, n / 16);
    }
    out.push(hex_of(n % 16));
}

/// The strings of `parts` in order, with `sep` between neighbours.
pub fn join(parts: &Vec<String>, sep: &str) -> (s: String)
    ensures
        s@ == joined(views(parts@), sep@),
{
    let mut s: String = String::new();
    let mut i: usize = 0;
    while i < parts.len()
        invariant
            i <= parts@.len(),
            s@ == joined(views(parts@.subrange(0, i as int)), sep@),
        decreases parts@.len() - i,
    {
        let ghost before = views(parts@.subrange(0, i as int));
        let ghost after = views(parts@.subrange(0, i as int + 1));
        if i > 0 {
            s.append(sep);
        }
        s.append(parts[i].as_str());
        proof {
            assert(after.drop_last() =~= before);
            assert(after.last() == parts@[i as int]@);
        }
        i = i + 1;
    }
    proof {
        assert(parts@.subrange(0, i as int) =~= parts@);
    }
    s
}

/// `name` as a ClickHouse identifier.
pub fn quote_ident(name: &str) -> (s: String)
    ensures
        s@ == quoted(name@),
{
    let v: Vec<char> = chars_of(name);
    let mut s: String = String::new();
    s.push('`');
    let mut i: usize = 0;
    while i < v.len()
        invariant
            i <= v@.len(),
            v@ == name@,
            s@ == seq!['`'] + backticks_doubled(v@.subrange(0, i as int)),
        decreases v@.len() - i,
    {
        let ghost after = v@.subrange(0, i as int + 1);
        proof {
            assert(after.drop_last() =~= v@.subrange(0, i as int));
        }
        if v[i] == '`' {
            s.push('`');
        }
        s.push(v[i]);
        i = i + 1;
    }
    s.push('`');
    proof {
        assert(v@.subrange(0, i as int) =~= name@);
        assert(s@ =~= quoted(name@));
    }
    s
}

/// `` `db`.`table` ``.
pub fn quote_target(db: &str, table: &str) -> (s: String)
    ensures
        s@ == quoted_target(db@, table@),
{
    let mut s: String = quote_ident(db);
    s.append(".");
    s.append(quote_ident(table).as_str());
    s
}

/// `s` with ASCII capitals made small.
pub fn to_lower(s: &str) -> (r: String)
    ensures
        r@ == lowered(s@),
{
    let v: Vec<char> = chars_of(s);
    let mut r: String = String::new();
    let mut i: usize = 0;
    while i < v.len()
        invariant
            i <= v@.len(),
            v@ == s@,
            r@ == lowered(v@.subrange(0, i as int)),
        decreases v@.len() - i,
    {
        let c: char = v[i];
        if 'A' <= c && c <= 'Z' {
            r.push((c as u8 + 32) as char);
        } else {
            r.push(c);
        }
        proof {
            assert(lowered(v@.subrange(0, i as int + 1)) =~= lowered(v@.subrange(0, i as int)).push(
                lower_char(c),
            ));
        }
        i = i + 1;
    }
    proof {
        assert(v@.subrange(0, i as int) =~= s@);
    }
    r
}

/// Unicode white space.
pub open spec fn is_space(c: char) -> bool {
    ||| '\u{9}' <= c && c <= '\u{d}'
    ||| c == ' ' || c == '\u{85}' || c == '\u{a0}' || c == '\u{1680}'
    ||| '\u{2000}' <= c && c <= '\u{200a}'
    ||| c == '\u{2028}' || c == '\u{2029}' || c == '\u{202f}' || c == '\u{205f}' || c == '\u{3000}'
}

/// `s` from its first character on that is no white space.
pub open spec fn trimmed_start(s: Seq<char>) -> Seq<char>
    decreases s.len(),
{
    if s.len() > 0 && is_space(s[0]) {
        trimmed_start(s.subrange(1, s.len() as int))
    } else {
        s
    }
}

/// `s` up to its last character that is no white space.
pub open spec fn trimmed_end(s: Seq<char>) -> Seq<char>
    decreases s.len(),
{
    if s.len() > 0 && is_space(s.last()) {
        trimmed_end(s.drop_last())
    } else {
        s
    }
}

/// `s` without the slashes at its end.
pub open spec fn without_end_slashes(s: Seq<char>) -> Seq<char>
    decreases s.len(),
{
    if s.len() > 0 && s.last() == '/' {
        without_end_slashes(s.drop_last())
    } else {
        s
    }
}

fn space_char(c: char) -> (r: bool)
    ensures
        r == is_space(c),
{
    ('\u{9}' <= c && c <= '\u{d}') || c == ' ' || c == '\u{85}' || c == '\u{a0}' || c == '\u{1680}'
        || ('\u{2000}' <= c && c <= '\u{200a}') || c == '\u{2028}' || c == '\u{2029}' || c
        == '\u{202f}' || c == '\u{205f}' || c == '\u{3000}'
}

/// `s` without the white space around it.
pub fn trim(s: &str) -> (r: String)
    ensures
        r@ == trimmed_end(trimmed_start(s@)),
{
    let v: Vec<char> = chars_of(s);
    let n: usize = v.len();
    let mut from: usize = 0;
    proof {
        assert(v@.subrange(0, n as int) =~= s@);
    }
    while from < n && space_char(v[from])
        invariant
            from <= n == v@.len(),
            trimmed_start(s@) == trimmed_start(v@.subrange(from as int, n as int)),
        decreases n - from,
    {
        proof {
            let rest = v@.subrange(from as int, n as int);
            assert(rest[0] == v@[from as int]);
            assert(rest.subrange(1, rest.len() as int) =~= v@.subrange(from + 1, n as int));
        }
        from = from + 1;
    }
    let ghost rest = v@.subrange(from as int, n as int);
    proof {
        if rest.len() > 0 {
            assert(rest[0] == v@[from as int]);
        }
        assert(trimmed_start(rest) == rest);
    }
    let mut to: usize = n;
    while to > from && space_char(v[to - 1])
        invariant
            from <= to <= n == v@.len(),
            trimmed_end(rest) == trimmed_end(v@.subrange(from as int, to as int)),
        decreases to,
    {
        proof {
            let part = v@.subrange(from as int, to as int);
            assert(part.last() == v@[to - 1]);
            assert(part.drop_last() =~= v@.subrange(from as int, to - 1));
        }
        to = to - 1;
    }
    proof {
        let part = v@.subrange(from as int, to as int);
        if part.len() > 0 {
            assert(part.last() == v@[to - 1]);
        }
        assert(trimmed_end(part) == part);
    }
    string_from(&v, from, to)
}

/// The string `v[from..]` without the slashes at its end.
pub fn string_without_end_slashes(v: &Vec<char>, from: usize) -> (r: String)
    requires
        from <= v@.len(),
    ensures
        r@ == without_end_slashes(v@.subrange(from as int, v@.len() as int)),
{
    let n: usize = v.len();
    let ghost rest = v@.subrange(from as int, n as int);
    let mut to: usize = n;
    while to > from && v[to - 1] == '/'
        invariant
            from <= to <= n == v@.len(),
            without_end_slashes(rest) == without_end_slashes(v@.subrange(from as int, to as int)),
        decreases to,
    {
        proof {
            let part = v@.subrange(from as int, to as int);
            assert(part.last() == v@[to - 1]);
            assert(part.drop_last() =~= v@.subrange(from as int, to - 1));
        }
        to = to - 1;
    }
    proof {
        let part = v@.subrange(from as int, to as int);
        if part.len() > 0 {
            assert(part.last() == v@[to - 1]);
        }
        assert(without_end_slashes(part) == part);
    }
    string_from(v, from, to)
}

/// Quoting keeps identifiers apart: two names never render to one identifier.
pub proof fn quoted_is_injective(a: Seq<char>, b: Seq<char>)
    requires
        quoted(a) == quoted(b),
    ensures
        a == b,
{
    let x = backticks_doubled(a);
    let y = backticks_doubled(b);
    assert(quoted(a).subrange(1, quoted(a).len() - 1) =~= x);
    assert(quoted(b).subrange(1, quoted(b).len() - 1) =~= y);
    doubled_is_injective(a, b);
}

proof fn doubled_is_injective(a: Seq<char>, b: Seq<char>)
    requires
        backticks_doubled(a) == backticks_doubled(b),
    ensures
        a == b,
    decreases a.len(),
{
    let x = backticks_doubled(a);
    let y = backticks_doubled(b);
    if a.len() == 0 || b.len() == 0 {
        assert(a =~= b);
    } else {
        assert(x.last() == a.last());
        assert(y.last() == b.last());
        let ha = backticks_doubled(a.drop_last());
        let hb = backticks_doubled(b.drop_last());
        if a.last() == '`' {
            assert(x.drop_last().drop_last() =~= ha);
            assert(y.drop_last().drop_last() =~= hb);
        } else {
            assert(x.drop_last() =~= ha);
            assert(y.drop_last() =~= hb);
        }
        doubled_is_injective(a.drop_last(), b.drop_last());
        assert(a =~= a.drop_last().push(a.last()));
        assert(b =~= b.drop_last().push(b.last()));
    }
}

} // verus!
