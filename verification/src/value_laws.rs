//! What shipped rows hold, told by their bytes.
use vstd::prelude::*;
use vstd::string::*;
use vstd::utf8::encode_utf8;

use crate::columns::{CellView, Shape};
use crate::decimal::DecimalWire;
use crate::encoder::appended_cell;
use crate::errors::ErrorView;
use crate::pipeline::batcher::op_code;
use crate::schema::HeapOp;
use crate::tuples::{CommittedTuple, DecodedHeap, DecodedTuple};
use crate::u256::{le_nat, pow256};
use crate::values::{encoded, int_bytes, ColumnValue, Encoded, NumericKind};
use crate::wire::{le_bytes, lemma_pow256_small};

verus! {

/// The number that bytes spell, the first byte counting once, every further
/// one 256 times as much as the one before it.
pub open spec fn spelled(b: Seq<u8>) -> int
    decreases b.len(),
{
    if b.len() == 0 {
        0
    } else {
        b[0] + 256 * spelled(b.subrange(1, b.len() as int))
    }
}

/// How many numbers so many bytes tell apart.
pub open spec fn span(k: nat) -> int {
    if k == 1 {
        0x100
    } else if k == 2 {
        0x1_0000
    } else if k == 4 {
        0x1_0000_0000
    } else if k == 8 {
        0x1_0000_0000_0000_0000
    } else if k == 16 {
        0x1_0000_0000_0000_0000_0000_0000_0000_0000int
    } else {
        0x1_0000_0000_0000_0000_0000_0000_0000_0000_0000_0000_0000_0000_0000_0000_0000_0000int
    }
}

/// The cell is `k` bytes that a reader of two's complement takes for `n`.
pub open spec fn reads_as(e: Encoded, n: int, k: nat) -> bool {
    &&& e is Fixed
    &&& bytes_read_as(e->Fixed_0, n, k)
}

pub open spec fn bytes_read_as(b: Seq<u8>, n: int, k: nat) -> bool {
    &&& b.len() == k
    &&& -span(k) <= 2 * n < 2 * span(k)
    &&& spelled(b) == (if n < 0 {
        n + span(k)
    } else {
        n
    })
}

proof fn lemma_spelled(b: Seq<u8>)
    ensures
        spelled(b) == le_nat(b),
    decreases b.len(),
{
    if b.len() == 1 {
        assert(b.subrange(1, 1) =~= Seq::empty());
        assert(b.drop_last() =~= Seq::empty());
        lemma_pow256_small();
        assert(spelled(b.subrange(1, 1)) == 0);
        assert(le_nat(b.drop_last()) == 0);
        assert(b.last() * pow256(0) == b.last()) by (nonlinear_arith)
            requires
                pow256(0) == 1,
        ;
    } else if b.len() > 1 {
        let tail = b.subrange(1, b.len() as int);
        let front = b.drop_last();
        lemma_spelled(tail);
        lemma_spelled(front);
        lemma_spelled(tail.drop_last());
        assert(front.subrange(1, front.len() as int) =~= tail.drop_last());
        let p = pow256((b.len() - 2) as nat);
        let d = b.last() as int;
        assert(tail.last() == b.last());
        assert(le_nat(tail) == le_nat(tail.drop_last()) + d * p);
        assert(spelled(front) == b[0] + 256 * spelled(tail.drop_last()));
        assert(pow256((b.len() - 1) as nat) == 256 * p);
        assert(d * (256 * p) == 256 * (d * p)) by (nonlinear_arith);
        assert(le_nat(b) == le_nat(front) + d * (256 * p));
    }
}

proof fn lemma_unsigned(n: int, k: nat)
    requires
        k == 1 || k == 2 || k == 4 || k == 8,
        0 <= n < span(k),
    ensures
        bytes_read_as(le_bytes(n, k), n, k),
{
    lemma_pow256_small();
    crate::wire::le_bytes_spell_the_number(n, k);
    lemma_spelled(le_bytes(n, k));
}

pub(crate) proof fn lemma_signed(n: int, k: nat)
    requires
        k == 1 || k == 2 || k == 4 || k == 8 || k == 16 || k == 32,
        -span(k) <= 2 * n < span(k),
    ensures
        bytes_read_as(int_bytes(n, k), n, k),
{
    lemma_pow256_small();
    if k == 16 {
        reveal_with_fuel(pow256, 17);
    } else if k == 32 {
        crate::u256::lemma_pow256_32();
    }
    let u = if n < 0 {
        n + span(k)
    } else {
        n
    };
    crate::wire::le_bytes_spell_the_number(u, k);
    lemma_spelled(le_bytes(u, k));
}

/// Integers keep their value and their width.
pub proof fn integers_keep_their_value(d: Option<DecimalWire>, a: i16, b: i32, c: i64, o: u32)
    ensures
        reads_as(encoded(ColumnValue::Int2(a), d), a as int, 2),
        reads_as(encoded(ColumnValue::Int4(b), d), b as int, 4),
        reads_as(encoded(ColumnValue::Int8(c), d), c as int, 8),
        reads_as(encoded(ColumnValue::Oid(o), d), o as int, 4),
        reads_as(encoded(ColumnValue::Time(c), d), c as int, 8),
{
    lemma_signed(a as int, 2);
    lemma_signed(b as int, 4);
    lemma_signed(c as int, 8);
    lemma_unsigned(o as int, 4);
}

/// Flags are one byte, one for true; characters and the bits of floats are
/// shipped as they are.
pub proof fn flags_and_bits_are_shipped_as_they_are(
    d: Option<DecimalWire>,
    flag: bool,
    c: u8,
    single: u32,
    double: u64,
)
    ensures
        reads_as(encoded(ColumnValue::Bool(flag), d), if flag { 1 } else { 0 }, 1),
        reads_as(encoded(ColumnValue::Char(c), d), c as int, 1),
        reads_as(encoded(ColumnValue::Float4(single), d), single as int, 4),
        reads_as(encoded(ColumnValue::Float8(double), d), double as int, 8),
{
    reveal_with_fuel(spelled, 2);
    lemma_unsigned(single as int, 4);
    lemma_unsigned(double as int, 8);
}

/// A timestamp with and one without time zone are shipped alike: as the
/// microseconds since 1970, of which 2000 is 946684800 seconds ahead. One too
/// late to be told is the latest that can be.
pub proof fn timestamps_count_from_1970(d: Option<DecimalWire>, n: i64)
    ensures
        encoded(ColumnValue::Timestamp(n), d) == encoded(ColumnValue::TimestampTz(n), d),
        n + 946_684_800_000_000 <= 0x7fff_ffff_ffff_ffff ==> reads_as(
            encoded(ColumnValue::Timestamp(n), d),
            n + 946_684_800_000_000,
            8,
        ),
        n + 946_684_800_000_000 > 0x7fff_ffff_ffff_ffff ==> reads_as(
            encoded(ColumnValue::Timestamp(n), d),
            0x7fff_ffff_ffff_ffff,
            8,
        ),
{
    if n + 946_684_800_000_000 <= 0x7fff_ffff_ffff_ffff {
        lemma_signed(n + 946_684_800_000_000, 8);
    } else {
        lemma_signed(0x7fff_ffff_ffff_ffff, 8);
    }
}

/// Of two timestamps the later one is never shipped as the earlier.
pub proof fn later_timestamps_are_shipped_later(
    d: Option<DecimalWire>,
    a: i64,
    b: i64,
    x: int,
    y: int,
)
    requires
        a <= b,
        reads_as(encoded(ColumnValue::Timestamp(a), d), x, 8),
        reads_as(encoded(ColumnValue::Timestamp(b), d), y, 8),
        x <= 0x7fff_ffff_ffff_ffff,
        y <= 0x7fff_ffff_ffff_ffff,
    ensures
        x <= y,
{
    timestamps_count_from_1970(d, a);
    timestamps_count_from_1970(d, b);
}

/// Dates are days since 1970, 10957 of which lie before 2000.
pub proof fn dates_count_from_1970(d: Option<DecimalWire>, n: i32)
    ensures
        n + 10_957 <= 0x7fff_ffff ==> reads_as(
            encoded(ColumnValue::Date(n), d),
            n + 10_957,
            4,
        ),
        n + 10_957 > 0x7fff_ffff ==> reads_as(encoded(ColumnValue::Date(n), d), 0x7fff_ffff, 4),
{
    if n + 10_957 <= 0x7fff_ffff {
        lemma_signed(n + 10_957, 4);
    } else {
        lemma_signed(0x7fff_ffff, 4);
    }
}

/// Text kinds with one text are shipped alike, as its UTF-8 bytes, whatever
/// Decimal form the column has; bytes are shipped as they are.
pub proof fn texts_are_shipped_alike(
    d: Option<DecimalWire>,
    e: Option<DecimalWire>,
    s: String,
    oid: u32,
    b: Vec<u8>,
    id: [u8; 16],
)
    ensures
        encoded(ColumnValue::Text(s), d) == Encoded::Text(encode_utf8(s@)),
        encoded(ColumnValue::Name(s), d) == encoded(ColumnValue::Text(s), e),
        encoded(ColumnValue::Json(s), d) == encoded(ColumnValue::Text(s), e),
        encoded(ColumnValue::TimeTz(s), d) == encoded(ColumnValue::Text(s), e),
        encoded(ColumnValue::Inet(s), d) == encoded(ColumnValue::Text(s), e),
        encoded(ColumnValue::Interval(s), d) == encoded(ColumnValue::Text(s), e),
        encoded(ColumnValue::PgPendingText { type_oid: oid, text: s }, d) == encoded(
            ColumnValue::Text(s),
            e,
        ),
        encoded(ColumnValue::Numeric(NumericKind::Finite(s)), None) == encoded(
            ColumnValue::Text(s),
            e,
        ),
        encoded(ColumnValue::Bytea(b), d) == Encoded::Text(b@),
        encoded(ColumnValue::Uuid(id), d) == Encoded::Fixed(id@),
{
}

/// What only the source can tell is never shipped as if it were a value.
pub proof fn unresolved_values_are_refused(
    d: Option<DecimalWire>,
    shape: Shape,
    v: ColumnValue,
)
    requires
        v is ExternalToast || v is PgPending || v is Unsupported,
    ensures
        shape.takes(encoded(v, d)) is Err,
{
}

/// A Decimal column refuses what is not finite; a text column spells it.
pub proof fn only_finite_numerics_are_decimals(d: DecimalWire, n: NumericKind, shape: Shape)
    requires
        !(n is Finite),
    ensures
        shape.takes(encoded(ColumnValue::Numeric(n), Some(d))) is Err,
        encoded(ColumnValue::Numeric(n), None) is Text,
{
}

/// NULL is shipped as NULL where the column has one, and refused elsewhere;
/// a value is never shipped as NULL.
pub proof fn null_is_told_from_values(d: Option<DecimalWire>, shape: Shape, v: ColumnValue)
    requires
        !(shape is Foreign),
    ensures
        (shape is NullableFixed || shape is NullableText) ==> shape.takes(
            encoded(ColumnValue::Null, d),
        ) == Ok::<_, ErrorView>(CellView::Null),
        (shape is Fixed || shape is Text) ==> shape.takes(encoded(ColumnValue::Null, d)) is Err,
        !(v is Null) && shape.takes(encoded(v, d)) is Ok ==> shape.takes(
            encoded(v, d),
        )->Ok_0 is Bytes,
{
}

/// A cell holds exactly the bytes of its value, in a column that has room for
/// just them.
pub proof fn cells_hold_their_bytes(shape: Shape, b: Seq<u8>)
    ensures
        shape.takes(Encoded::Fixed(b)) == Ok::<_, ErrorView>(CellView::Bytes(b)) <==> shape
            == Shape::Fixed(b.len()) || shape == Shape::NullableFixed(b.len()),
        shape.takes(Encoded::Text(b)) == Ok::<_, ErrorView>(CellView::Bytes(b)) <==> shape is Text
            || shape is NullableText,
        shape.takes(Encoded::Fixed(b)) is Ok ==> shape.takes(Encoded::Text(b)) is Err,
{
}

/// An insert or update ships the new image of the row, whatever the old one
/// is; a delete ships the old one, whatever the new one is.
pub proof fn rows_ship_the_image_of_their_operation(
    h: DecodedHeap,
    g: DecodedHeap,
    t: DecodedTuple,
    attnum: i16,
)
    requires
        1 <= attnum <= t.columns@.len(),
    ensures
        h.op != HeapOp::Delete && h.new == Some(t) ==> h.value(attnum) == t.columns@[attnum - 1],
        h.op == HeapOp::Delete && h.old == Some(t) ==> h.value(attnum) == t.columns@[attnum - 1],
        h.op != HeapOp::Delete && g.op != HeapOp::Delete && h.new == g.new ==> h.value(attnum)
            == g.value(attnum),
        h.op == HeapOp::Delete && g.op == HeapOp::Delete && h.old == g.old ==> h.value(attnum)
            == g.value(attnum),
{
}

/// A column that was not logged has no value, nor has one outside of the row.
pub proof fn unlogged_columns_have_no_value(h: DecodedHeap, attnum: i16)
    ensures
        attnum < 1 ==> h.value(attnum) is None,
        h.op != HeapOp::Delete && h.new is None ==> h.value(attnum) is None,
        h.op == HeapOp::Delete && h.old is None ==> h.value(attnum) is None,
        h.op != HeapOp::Delete && h.new is Some && attnum > h.new->0.columns@.len() ==> h.value(
            attnum,
        ) is None,
        h.op == HeapOp::Delete && h.old is Some && attnum > h.old->0.columns@.len() ==> h.value(
            attnum,
        ) is None,
{
}

/// The columns behind a row's own say where it comes from: the position of its
/// record, its transaction, when that committed, and whether the row is gone.
/// Only a delete says so.
pub proof fn rows_carry_their_origin(t: CommittedTuple, code: i8)
    requires
        t.commit_ts + 946_684_800_000_000 <= 0x7fff_ffff_ffff_ffff,
        op_code(t.decoded.op) == Some(code),
    ensures
        appended_cell(t, code, 0) is Bytes,
        bytes_read_as(appended_cell(t, code, 0)->Bytes_0, t.decoded.source_lsn as int, 8),
        bytes_read_as(appended_cell(t, code, 1)->Bytes_0, t.decoded.xid as int, 4),
        bytes_read_as(
            appended_cell(t, code, 2)->Bytes_0,
            t.commit_ts + 946_684_800_000_000,
            8,
        ),
        appended_cell(t, code, 3) == CellView::Bytes(seq![1u8]) <==> t.decoded.op
            == HeapOp::Delete,
        appended_cell(t, code, 3) == CellView::Bytes(seq![0u8]) <==> t.decoded.op
            != HeapOp::Delete,
{
    lemma_unsigned(t.decoded.source_lsn as int, 8);
    lemma_unsigned(t.decoded.xid as int, 4);
    lemma_signed(t.commit_ts + 946_684_800_000_000, 8);
    assert(seq![1u8][0] != seq![0u8][0]);
}

/// Operations that ship a row have a code of their own; both kinds of update
/// share theirs, and a truncate ships none.
pub proof fn shipped_operations_are_told_apart(a: HeapOp, b: HeapOp)
    ensures
        op_code(a) is None <==> a == HeapOp::Truncate,
        a != HeapOp::Truncate && op_code(a) == op_code(b) ==> a == b || (a == HeapOp::Update || a
            == HeapOp::HotUpdate) && (b == HeapOp::Update || b == HeapOp::HotUpdate),
        op_code(HeapOp::Update) == op_code(HeapOp::HotUpdate),
{
}

} // verus!
