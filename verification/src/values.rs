//! Source column values and their encoding.
use vstd::prelude::*;
use vstd::string::*;
use vstd::utf8::encode_utf8;

use crate::columns::{shape_error, CellView, ColumnBuf, Shape};
use crate::decimal::{
    decimal_bytes, decimal_text_to_scaled_le, out_of_range, twos_complement, DecimalWire,
};
use crate::errors::{EmitterError, ErrorView};
use crate::oracle::{OracleCell, OracleCellView};
use crate::u256::{le_nat, pow256};
use crate::wire::{append_all, copy_range, le_bytes, lemma_pow256_small, push_le};

verus! {

/// Microseconds between the Unix epoch and the source's epoch of 2000-01-01.
pub const DATETIME64_PG_EPOCH_US: i64 = 946_684_800_000_000;

/// The same distance in days.
pub const DATE32_PG_EPOCH_DAYS: i32 = 10_957;

#[derive(Debug)]
pub enum NumericKind {
    /// Decimal text, as the source prints it.
    Finite(String),
    NaN,
    PInf,
    NInf,
}

/// Reference to a value that the source stores out of line.
#[derive(Clone, Copy, Debug, PartialEq, Eq, Structural)]
pub struct ToastPointer {
    pub va_rawsize: i32,
    pub va_extinfo: u32,
    pub va_valueid: u32,
    pub va_toastrelid: u32,
}

/// A decoded source value. Floats are carried as their bits; kinds that are
/// shipped as text carry the text.
#[derive(Debug)]
pub enum ColumnValue {
    Null,
    Bool(bool),
    Char(u8),
    Int2(i16),
    Int4(i32),
    Int8(i64),
    Float4(u32),
    Float8(u64),
    Oid(u32),
    /// Days since 2000-01-01.
    Date(i32),
    /// Microseconds since midnight.
    Time(i64),
    /// Microseconds since 2000-01-01.
    Timestamp(i64),
    TimestampTz(i64),
    /// Text with its zone: ClickHouse has no zone-aware time type.
    TimeTz(String),
    /// In ClickHouse's byte order.
    Uuid([u8; 16]),
    Name(String),
    Text(String),
    Json(String),
    Numeric(NumericKind),
    Inet(String),
    Interval(String),
    Bytea(Vec<u8>),
    ExternalToast(ToastPointer),
    /// On-disk bytes that only the source database can render.
    PgPending { type_oid: u32, raw: Vec<u8> },
    PgPendingText { type_oid: u32, text: String },
    Unsupported { type_oid: u32, raw: Vec<u8> },
}

/// What a value becomes on its way into a column.
pub enum Encoded {
    Null,
    /// Packed little-endian bytes.
    Fixed(Seq<u8>),
    /// Text or raw bytes.
    Text(Seq<u8>),
    Refused(ErrorView),
}

/// `n` in two's complement, `k` bytes, least significant first.
pub open spec fn int_bytes(n: int, k: nat) -> Seq<u8> {
    le_bytes(twos_complement(n, k), k)
}

pub open spec fn saturate(n: int, lo: int, hi: int) -> int {
    if n < lo {
        lo
    } else if n > hi {
        hi
    } else {
        n
    }
}

/// The text of a numeric, not-a-number and the infinities included.
pub open spec fn numeric_text(n: NumericKind) -> Seq<char> {
    match n {
        NumericKind::Finite(s) => s@,
        NumericKind::NaN => "NaN"@,
        NumericKind::PInf => "Infinity"@,
        NumericKind::NInf => "-Infinity"@,
    }
}

pub open spec fn encoded_numeric(n: NumericKind, decimal: Option<DecimalWire>) -> Encoded {
    match decimal {
        None => Encoded::Text(encode_utf8(numeric_text(n))),
        Some(d) => match n {
            NumericKind::Finite(s) => match decimal_bytes(s@, d.scale as int, d.width) {
                Some(v) => Encoded::Fixed(le_bytes(v, d.width.size())),
                None => Encoded::Refused(out_of_range()),
            },
            _ => Encoded::Refused(
                shape_error("non-finite numeric (NaN/Inf) into Decimal column"@),
            ),
        },
    }
}

/// The encoding of `v` for a column with the Decimal form `decimal`.
pub open spec fn encoded(v: ColumnValue, decimal: Option<DecimalWire>) -> Encoded {
    match v {
        ColumnValue::Null => Encoded::Null,
        ColumnValue::Bool(b) => Encoded::Fixed(
            seq![
                if b {
                    1u8
                } else {
                    0u8
                },
            ],
        ),
        ColumnValue::Char(c) => Encoded::Fixed(seq![c]),
        ColumnValue::Int2(n) => Encoded::Fixed(int_bytes(n as int, 2)),
        ColumnValue::Int4(n) => Encoded::Fixed(int_bytes(n as int, 4)),
        ColumnValue::Int8(n) => Encoded::Fixed(int_bytes(n as int, 8)),
        ColumnValue::Float4(bits) => Encoded::Fixed(le_bytes(bits as int, 4)),
        ColumnValue::Float8(bits) => Encoded::Fixed(le_bytes(bits as int, 8)),
        ColumnValue::Oid(n) => Encoded::Fixed(le_bytes(n as int, 4)),
        ColumnValue::Date(n) => Encoded::Fixed(
            int_bytes(
                saturate(n + DATE32_PG_EPOCH_DAYS, i32::MIN as int, i32::MAX as int),
                4,
            ),
        ),
        ColumnValue::Time(n) => Encoded::Fixed(int_bytes(n as int, 8)),
        ColumnValue::Timestamp(n) => Encoded::Fixed(int_bytes(unix_micros(n), 8)),
        ColumnValue::TimestampTz(n) => Encoded::Fixed(int_bytes(unix_micros(n), 8)),
        ColumnValue::TimeTz(s) => Encoded::Text(encode_utf8(s@)),
        ColumnValue::Uuid(b) => Encoded::Fixed(b@),
        ColumnValue::Name(s) => Encoded::Text(encode_utf8(s@)),
        ColumnValue::Text(s) => Encoded::Text(encode_utf8(s@)),
        ColumnValue::Json(s) => Encoded::Text(encode_utf8(s@)),
        ColumnValue::Numeric(n) => encoded_numeric(n, decimal),
        ColumnValue::Inet(s) => Encoded::Text(encode_utf8(s@)),
        ColumnValue::Interval(s) => Encoded::Text(encode_utf8(s@)),
        ColumnValue::Bytea(b) => Encoded::Text(b@),
        ColumnValue::ExternalToast(_) => Encoded::Refused(
            shape_error("unresolved TOAST pointer (xact buffer should have reassembled)"@),
        ),
        ColumnValue::PgPendingText { text, .. } => Encoded::Text(encode_utf8(text@)),
        ColumnValue::PgPending { .. } => Encoded::Refused(
            shape_error("unresolved source value routed to a local column"@),
        ),
        ColumnValue::Unsupported { .. } => Encoded::Refused(
            shape_error("unresolved source value routed to a local column"@),
        ),
    }
}

/// A source timestamp in Unix microseconds; the infinities saturate.
pub open spec fn unix_micros(n: i64) -> int {
    saturate(n + DATETIME64_PG_EPOCH_US, i64::MIN as int, i64::MAX as int)
}

impl Shape {
    /// The row that `e` becomes in a column of this shape, or why it is
    /// refused.
    pub open spec fn takes(self, e: Encoded) -> Result<CellView, ErrorView> {
        match e {
            Encoded::Null => match self.null_fault() {
                Some(f) => Err(f),
                None => Ok(self.default_cell()),
            },
            Encoded::Fixed(b) => match self.fixed_fault(b.len()) {
                Some(f) => Err(f),
                None => Ok(CellView::Bytes(b)),
            },
            Encoded::Text(b) => match self.text_fault() {
                Some(f) => Err(f),
                None => Ok(CellView::Bytes(b)),
            },
            Encoded::Refused(f) => Err(f),
        }
    }
}

pub fn unix_us(n: i64) -> (r: i64)
    ensures
        r == unix_micros(n),
{
    if n > i64::MAX - DATETIME64_PG_EPOCH_US {
        i64::MAX
    } else {
        n + DATETIME64_PG_EPOCH_US
    }
}

/// Append `n` in two's complement over `k` bytes.
pub fn push_int(out: &mut Vec<u8>, n: i64, k: usize)
    requires
        k <= 8,
        -pow256(k as nat) <= n < pow256(k as nat),
    ensures
        final(out)@ == old(out)@ + int_bytes(n as int, k as nat),
{
    proof {
        lemma_pow256_small();
    }
    if n < 0 {
        let span: i128 = pow256_exec(k);
        push_le(out, (n as i128 + span) as u64, k);
    } else {
        push_le(out, n as u64, k);
    }
}

fn pow256_exec(k: usize) -> (p: i128)
    requires
        k <= 8,
    ensures
        p == pow256(k as nat),
{
    let mut p: i128 = 1;
    let mut i: usize = 0;
    while i < k
        invariant
            i <= k <= 8,
            p == pow256(i as nat),
            1 <= p <= 0x1_0000_0000_0000_0000,
            i < 8 ==> p <= 0x100_0000_0000_0000,
        decreases k - i,
    {
        proof {
            lemma_pow256_small();
            assert(pow256((i + 1) as nat) == 256 * pow256(i as nat));
        }
        p = p * 256;
        i = i + 1;
    }
    p
}

fn unsupported(kind: &'static str) -> (e: EmitterError)
    ensures
        e@ == shape_error(kind@),
{
    EmitterError::UnsupportedValue { target_column: String::new(), kind }
}

fn fixed_int(buf: &mut ColumnBuf, n: i64, k: usize) -> (r: Result<(), EmitterError>)
    requires
        old(buf).wf(),
        0 < k <= 8,
        -pow256(k as nat) <= n < pow256(k as nat),
    ensures
        final(buf).wf(),
        final(buf).shape() == old(buf).shape(),
        match old(buf).shape().takes(Encoded::Fixed(int_bytes(n as int, k as nat))) {
            Ok(c) => r is Ok && final(buf).rows() == old(buf).rows().push(c),
            Err(e) => r is Err && r->Err_0@ == e && *final(buf) == *old(buf),
        },
{
    let mut le: Vec<u8> = Vec::new();
    push_int(&mut le, n, k);
    proof {
        assert(le@ =~= int_bytes(n as int, k as nat));
    }
    buf.append_fixed_bytes(le.as_slice())
}

fn fixed_uint(buf: &mut ColumnBuf, n: u64, k: usize) -> (r: Result<(), EmitterError>)
    requires
        old(buf).wf(),
        0 < k <= 8,
    ensures
        final(buf).wf(),
        final(buf).shape() == old(buf).shape(),
        match old(buf).shape().takes(Encoded::Fixed(le_bytes(n as int, k as nat))) {
            Ok(c) => r is Ok && final(buf).rows() == old(buf).rows().push(c),
            Err(e) => r is Err && r->Err_0@ == e && *final(buf) == *old(buf),
        },
{
    let mut le: Vec<u8> = Vec::new();
    push_le(&mut le, n, k);
    proof {
        assert(le@ =~= le_bytes(n as int, k as nat));
    }
    buf.append_fixed_bytes(le.as_slice())
}

/// Append a little-endian value to a fixed-width column.
pub fn push_fixed(buf: &mut ColumnBuf, le: &[u8]) -> (r: Result<(), EmitterError>)
    requires
        old(buf).wf(),
    ensures
        final(buf).wf(),
        final(buf).shape() == old(buf).shape(),
        match old(buf).shape().takes(Encoded::Fixed(le@)) {
            Ok(c) => r is Ok && final(buf).rows() == old(buf).rows().push(c),
            Err(e) => r is Err && r->Err_0@ == e && *final(buf) == *old(buf),
        },
{
    buf.append_fixed_bytes(le)
}

/// The first `k` bytes of a number that fits them are its bytes.
proof fn lemma_low_bytes(s: Seq<u8>, n: int, k: nat)
    requires
        s.len() >= k,
        le_nat(s) == n,
        0 <= n < pow256(k),
    ensures
        s.subrange(0, k as int) == le_bytes(n, k),
{
    crate::wire::le_bytes_spell_the_number(n, k);
    lemma_prefix_spells(s, k);
    crate::u256::le_nat_is_injective(s.subrange(0, k as int), le_bytes(n, k));
}

proof fn lemma_prefix_spells(s: Seq<u8>, k: nat)
    requires
        s.len() >= k,
        le_nat(s) < pow256(k),
    ensures
        le_nat(s.subrange(0, k as int)) == le_nat(s),
    decreases s.len(),
{
    if s.len() > k {
        let rest = s.drop_last();
        let p = pow256(rest.len());
        let d = s.last() as int;
        crate::u256::lemma_le_nat_bound(rest);
        crate::decimal::lemma_pow256_grows(k, rest.len());
        crate::u256::lemma_pow256_pos(rest.len());
        assert(d == 0) by (nonlinear_arith)
            requires
                d >= 0,
                p > 0,
                le_nat(rest) >= 0,
                le_nat(rest) + d * p < p,
        ;
        assert(0 * p == 0);
        lemma_prefix_spells(rest, k);
        assert(rest.subrange(0, k as int) =~= s.subrange(0, k as int));
    } else {
        assert(s.subrange(0, k as int) =~= s);
    }
}

/// Append `v` to its column.
pub fn encode_value(
    buf: &mut ColumnBuf,
    v: &ColumnValue,
    decimal: Option<DecimalWire>,
) -> (r: Result<(), EmitterError>)
    requires
        old(buf).wf(),
    ensures
        final(buf).wf(),
        final(buf).shape() == old(buf).shape(),
        match old(buf).shape().takes(encoded(*v, decimal)) {
            Ok(c) => r is Ok && final(buf).rows() == old(buf).rows().push(c),
            Err(e) => r is Err && r->Err_0@ == e && *final(buf) == *old(buf),
        },
{
    proof {
        lemma_pow256_small();
    }
    match v {
        ColumnValue::Null => buf.append_null(),
        ColumnValue::Bool(b) => {
            let mut le: Vec<u8> = Vec::new();
            le.push(if *b {
                1u8
            } else {
                0u8
            });
            proof {
                assert(le@ =~= encoded(*v, decimal)->Fixed_0);
            }
            buf.append_fixed_bytes(le.as_slice())
        },
        ColumnValue::Char(c) => {
            let mut le: Vec<u8> = Vec::new();
            le.push(*c);
            proof {
                assert(le@ =~= encoded(*v, decimal)->Fixed_0);
            }
            buf.append_fixed_bytes(le.as_slice())
        },
        ColumnValue::Int2(n) => fixed_int(buf, *n as i64, 2),
        ColumnValue::Int4(n) => fixed_int(buf, *n as i64, 4),
        ColumnValue::Int8(n) => fixed_int(buf, *n, 8),
        ColumnValue::Float4(bits) => fixed_uint(buf, *bits as u64, 4),
        ColumnValue::Float8(bits) => fixed_uint(buf, *bits, 8),
        ColumnValue::Oid(n) => fixed_uint(buf, *n as u64, 4),
        ColumnValue::Date(n) => {
            // Saturating, so that the source's infinite dates stay in range.
            let mut days: i64 = *n as i64 + DATE32_PG_EPOCH_DAYS as i64;
            if days > i32::MAX as i64 {
                days = i32::MAX as i64;
            }
            fixed_int(buf, days, 4)
        },
        ColumnValue::Time(n) => fixed_int(buf, *n, 8),
        ColumnValue::Timestamp(n) => fixed_int(buf, unix_us(*n), 8),
        ColumnValue::TimestampTz(n) => fixed_int(buf, unix_us(*n), 8),
        ColumnValue::TimeTz(s) => buf.append_string_bytes(s.as_str().as_bytes()),
        ColumnValue::Uuid(b) => buf.append_fixed_bytes(b.as_slice()),
        ColumnValue::Name(s) => buf.append_string_bytes(s.as_str().as_bytes()),
        ColumnValue::Text(s) => buf.append_string_bytes(s.as_str().as_bytes()),
        ColumnValue::Json(s) => buf.append_string_bytes(s.as_str().as_bytes()),
        ColumnValue::Numeric(n) => encode_numeric(buf, n, decimal),
        ColumnValue::Inet(s) => buf.append_string_bytes(s.as_str().as_bytes()),
        ColumnValue::Interval(s) => buf.append_string_bytes(s.as_str().as_bytes()),
        ColumnValue::Bytea(b) => buf.append_string_bytes(b.as_slice()),
        ColumnValue::ExternalToast(_) => Err(
            unsupported("unresolved TOAST pointer (xact buffer should have reassembled)"),
        ),
        ColumnValue::PgPendingText { text, .. } => buf.append_string_bytes(
            text.as_str().as_bytes(),
        ),
        // Raw datum bytes are never taken for local text.
        ColumnValue::PgPending { .. } => Err(
            unsupported("unresolved source value routed to a local column"),
        ),
        ColumnValue::Unsupported { .. } => Err(
            unsupported("unresolved source value routed to a local column"),
        ),
    }
}

/// A Decimal column stores the scaled integer and refuses what is not finite;
/// any other column stores the text.
fn encode_numeric(buf: &mut ColumnBuf, n: &NumericKind, decimal: Option<DecimalWire>) -> (r: Result<
    (),
    EmitterError,
>)
    requires
        old(buf).wf(),
    ensures
        final(buf).wf(),
        final(buf).shape() == old(buf).shape(),
        match old(buf).shape().takes(encoded_numeric(*n, decimal)) {
            Ok(c) => r is Ok && final(buf).rows() == old(buf).rows().push(c),
            Err(e) => r is Err && r->Err_0@ == e && *final(buf) == *old(buf),
        },
{
    match decimal {
        None => {
            let text: &str = match n {
                NumericKind::Finite(s) => s.as_str(),
                NumericKind::NaN => "NaN",
                NumericKind::PInf => "Infinity",
                NumericKind::NInf => "-Infinity",
            };
            buf.append_string_bytes(text.as_bytes())
        },
        Some(d) => match n {
            NumericKind::Finite(s) => {
                match decimal_text_to_scaled_le(s.as_str(), d.scale as i32, d.width) {
                    Err(e) => Err(e),
                    Ok(le) => {
                        let k: usize = d.width.bytes();
                        let bytes: Vec<u8> = copy_range(le.as_slice(), 0, k);
                        proof {
                            let v = decimal_bytes(s@, d.scale as int, d.width)->0;
                            crate::decimal::lemma_decimal_bytes_fit(s@, d.scale as int, d.width);
                            lemma_low_bytes(le@, v, k as nat);
                        }
                        buf.append_fixed_bytes(bytes.as_slice())
                    },
                }
            },
            _ => Err(unsupported("non-finite numeric (NaN/Inf) into Decimal column")),
        },
    }
}

/// What a value becomes in a request to the source database: NULL, absent and
/// unlogged fields are default cells; a type must be the planned one.
pub open spec fn foreign_cell(v: Option<ColumnValue>, source_type_oid: u32) -> Result<
    OracleCellView,
    ErrorView,
> {
    let mismatch = |got: u32|
        shape_error(
            if got == 0 {
                "decoded value on an oracle column"@
            } else {
                "source type oid differs from the planned one"@
            },
        );
    match v {
        None => Ok(OracleCellView::Default),
        Some(ColumnValue::Null) => Ok(OracleCellView::Default),
        Some(ColumnValue::PgPending { type_oid, raw }) => if type_oid != source_type_oid {
            Err(mismatch(type_oid))
        } else {
            Ok(OracleCellView::DiskRaw(raw@))
        },
        Some(ColumnValue::Unsupported { type_oid, raw }) => if type_oid != source_type_oid {
            Err(mismatch(type_oid))
        } else {
            Ok(OracleCellView::DiskRaw(raw@))
        },
        Some(ColumnValue::PgPendingText { type_oid, text }) => if type_oid != source_type_oid {
            Err(mismatch(type_oid))
        } else {
            Ok(OracleCellView::TextInput(encode_utf8(text@)))
        },
        Some(ColumnValue::Json(s)) => Ok(OracleCellView::TextInput(encode_utf8(s@))),
        Some(ColumnValue::Text(s)) => Ok(OracleCellView::Literal(encode_utf8(s@))),
        Some(ColumnValue::Name(s)) => Ok(OracleCellView::Literal(encode_utf8(s@))),
        Some(_) => Err(mismatch(0)),
    }
}

fn mismatch(got: u32) -> (e: EmitterError)
    ensures
        e@ == shape_error(
            if got == 0 {
                "decoded value on an oracle column"@
            } else {
                "source type oid differs from the planned one"@
            },
        ),
{
    unsupported(
        if got == 0 {
            "decoded value on an oracle column"
        } else {
            "source type oid differs from the planned one"
        },
    )
}

fn bytes_of(s: &[u8]) -> (v: Vec<u8>)
    ensures
        v@ == s@,
{
    let mut v: Vec<u8> = Vec::new();
    append_all(&mut v, s);
    proof {
        assert(v@ =~= s@);
    }
    v
}

/// The request cell of a value.
pub fn oracle_cell(v: Option<&ColumnValue>, source_type_oid: u32) -> (r: Result<
    OracleCell,
    EmitterError,
>)
    ensures
        ({
            let want = foreign_cell(
                match v {
                    Some(x) => Some(*x),
                    None => None,
                },
                source_type_oid,
            );
            match r {
                Ok(c) => want == Ok::<_, ErrorView>(c@),
                Err(e) => want == Err::<OracleCellView, _>(e@),
            }
        }),
{
    let v: &ColumnValue = match v {
        None => {
            return Ok(OracleCell::Default);
        },
        Some(v) => v,
    };
    match v {
        ColumnValue::Null => Ok(OracleCell::Default),
        ColumnValue::PgPending { type_oid, raw } => {
            if *type_oid != source_type_oid {
                return Err(mismatch(*type_oid));
            }
            Ok(OracleCell::DiskRaw(bytes_of(raw.as_slice())))
        },
        ColumnValue::Unsupported { type_oid, raw } => {
            if *type_oid != source_type_oid {
                return Err(mismatch(*type_oid));
            }
            Ok(OracleCell::DiskRaw(bytes_of(raw.as_slice())))
        },
        ColumnValue::PgPendingText { type_oid, text } => {
            if *type_oid != source_type_oid {
                return Err(mismatch(*type_oid));
            }
            Ok(OracleCell::TextInput(bytes_of(text.as_str().as_bytes())))
        },
        // jsonb needs its input function to rebuild binary storage from text.
        ColumnValue::Json(s) => Ok(OracleCell::TextInput(bytes_of(s.as_str().as_bytes()))),
        // Well-known text must bypass the type's output function.
        ColumnValue::Text(s) => Ok(OracleCell::Literal(bytes_of(s.as_str().as_bytes()))),
        ColumnValue::Name(s) => Ok(OracleCell::Literal(bytes_of(s.as_str().as_bytes()))),
        _ => Err(mismatch(0)),
    }
}

} // verus!
