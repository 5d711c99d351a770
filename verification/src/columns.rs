//! On-the-wire column buffers: one dense slab per ClickHouse column.
use vstd::prelude::*;
use vstd::string::*;

use crate::errors::{EmitterError, ErrorView};
use crate::oracle::{clamp, OracleCell, OracleCellView, OracleColumnBuf};
use crate::text::{dec, push_dec, str_eq};
use crate::types::{TypeAst, TypeKind, TypeShape};
use crate::wire::append_all;

verus! {

/// One row of a column.
pub enum CellView {
    Null,
    Bytes(Seq<u8>),
    /// A cell that the source database renders.
    Foreign(OracleCellView),
}

/// What a column holds per row.
pub enum Shape {
    /// So many bytes.
    Fixed(nat),
    /// Any bytes; an absent value is stored as these.
    Text(Seq<u8>),
    NullableFixed(nat),
    NullableText(Seq<u8>),
    Foreign,
}

/// The cells of one column of a block.
#[derive(Debug)]
pub enum ColumnBuf {
    /// `width` bytes per row, packed little-endian.
    Fixed { width: usize, bytes: Vec<u8> },
    /// `offsets[i]` is the cumulative exclusive end of row `i` in `data`.
    String { offsets: Vec<u64>, data: Vec<u8>, absent: Vec<u8> },
    /// `null_map[i] = 1` means NULL; zero bytes go into `inner` for null rows
    /// so the slab stays dense.
    NullableFixed { width: usize, null_map: Vec<u8>, inner: Vec<u8> },
    NullableString { offsets: Vec<u64>, data: Vec<u8>, null_map: Vec<u8>, absent: Vec<u8> },
    Oracle(OracleColumnBuf),
}

/// Row `i` of a slab with `width` bytes per row.
pub open spec fn slab_row(bytes: Seq<u8>, width: nat, i: int) -> Seq<u8> {
    bytes.subrange(i * width, i * width + width)
}

/// Where row `i` of a text column starts.
pub open spec fn text_start(offsets: Seq<u64>, i: int) -> int {
    if i == 0 {
        0
    } else {
        offsets[i - 1] as int
    }
}

pub open spec fn text_row(offsets: Seq<u64>, data: Seq<u8>, i: int) -> Seq<u8> {
    data.subrange(text_start(offsets, i), offsets[i] as int)
}

/// The offsets are ascending ends in `data`, the last one its end.
pub open spec fn offsets_ok(offsets: Seq<u64>, data: Seq<u8>) -> bool {
    &&& forall|i: int|
        0 <= i < offsets.len() ==> text_start(offsets, i) <= #[trigger] offsets[i] <= data.len()
    &&& data.len() == text_start(offsets, offsets.len() as int)
}

pub open spec fn zeros(n: nat) -> Seq<u8> {
    Seq::new(n, |i: int| 0u8)
}

/// What an absent value of a varying-length type is stored as.
pub open spec fn absent_bytes(kind: TypeKind) -> Seq<u8> {
    if kind == TypeKind::Json {
        seq![123u8, 125u8]
    } else {
        Seq::empty()
    }
}

/// The shape of a type's column.
pub open spec fn shape_of(t: TypeShape) -> Option<Shape> {
    match t.leaf {
        None => None,
        Some(l) => Some(
            if l.elem_size == 0 {
                if t.nullable {
                    Shape::NullableText(absent_bytes(l.kind))
                } else {
                    Shape::Text(absent_bytes(l.kind))
                }
            } else if t.nullable {
                Shape::NullableFixed(l.elem_size as nat)
            } else {
                Shape::Fixed(l.elem_size as nat)
            },
        ),
    }
}

/// Every flag says null or not.
pub open spec fn flags_ok(null_map: Seq<u8>) -> bool {
    forall|i: int| 0 <= i < null_map.len() ==> #[trigger] null_map[i] == 0 || null_map[i] == 1
}

pub open spec fn nullable_cell(null: u8, row: Seq<u8>) -> CellView {
    if null == 1 {
        CellView::Null
    } else {
        CellView::Bytes(row)
    }
}

/// `buf` refuses a value of another shape.
pub open spec fn shape_error(kind: Seq<char>) -> ErrorView {
    ErrorView::UnsupportedValue(Seq::empty(), kind)
}

pub open spec fn width_error(what: Seq<char>, want: nat, got: nat) -> ErrorView {
    ErrorView::Type(what + " mismatch: expected "@ + dec(want) + " bytes, got "@ + dec(got))
}

fn width_mismatch(what: &str, want: usize, got: usize) -> (e: EmitterError)
    ensures
        e@ == width_error(what@, want as nat, got as nat),
{
    let mut s: String = String::from_str(what);
    s.append(" mismatch: expected ");
    push_dec(&mut s, want as u64);
    s.append(" bytes, got ");
    push_dec(&mut s, got as u64);
    EmitterError::Type(s)
}

fn unsupported(kind: &'static str) -> (e: EmitterError)
    ensures
        e@ == shape_error(kind@),
{
    EmitterError::UnsupportedValue { target_column: String::new(), kind }
}

impl Shape {
    /// The row that stands for a missing value.
    pub open spec fn default_cell(self) -> CellView {
        match self {
            Shape::Fixed(w) => CellView::Bytes(zeros(w)),
            Shape::Text(absent) => CellView::Bytes(absent),
            Shape::NullableFixed(_) => CellView::Null,
            Shape::NullableText(_) => CellView::Null,
            Shape::Foreign => CellView::Foreign(OracleCellView::Default),
        }
    }

    /// Why the shape refuses `len` packed bytes, if it does.
    pub open spec fn fixed_fault(self, len: nat) -> Option<ErrorView> {
        match self {
            Shape::Fixed(w) => if len != w {
                Some(width_error("fixed-width"@, w, len))
            } else {
                None
            },
            Shape::NullableFixed(w) => if len != w {
                Some(width_error("nullable-fixed-width"@, w, len))
            } else {
                None
            },
            _ => Some(shape_error("fixed-width value into string-shaped buffer"@)),
        }
    }

    /// Why the shape refuses text bytes, if it does.
    pub open spec fn text_fault(self) -> Option<ErrorView> {
        match self {
            Shape::Text(_) => None,
            Shape::NullableText(_) => None,
            _ => Some(shape_error("string value into fixed-shaped buffer"@)),
        }
    }

    pub open spec fn null_fault(self) -> Option<ErrorView> {
        match self {
            Shape::Fixed(_) => Some(shape_error("NULL for non-Nullable column"@)),
            Shape::Text(_) => Some(shape_error("NULL for non-Nullable column"@)),
            _ => None,
        }
    }
}

impl ColumnBuf {
    pub open spec fn shape(&self) -> Shape {
        match self {
            ColumnBuf::Fixed { width, .. } => Shape::Fixed(*width as nat),
            ColumnBuf::String { absent, .. } => Shape::Text(absent@),
            ColumnBuf::NullableFixed { width, .. } => Shape::NullableFixed(*width as nat),
            ColumnBuf::NullableString { absent, .. } => Shape::NullableText(absent@),
            ColumnBuf::Oracle(_) => Shape::Foreign,
        }
    }

    /// The slab is dense and its side arrays fit it; the null map holds 1 for
    /// a null row and 0 for any other, and null rows hold the filler.
    pub open spec fn wf(&self) -> bool {
        match self {
            ColumnBuf::Fixed { width, bytes } => *width > 0 && bytes@.len() % (*width as nat) == 0,
            ColumnBuf::String { offsets, data, .. } => offsets_ok(offsets@, data@),
            ColumnBuf::NullableFixed { width, null_map, inner } => {
                &&& *width > 0
                &&& inner@.len() == null_map@.len() * *width
                &&& flags_ok(null_map@)
                &&& forall|i: int|
                    0 <= i < null_map@.len() && #[trigger] null_map@[i] == 1 ==> slab_row(
                        inner@,
                        *width as nat,
                        i,
                    ) == zeros(*width as nat)
            },
            ColumnBuf::NullableString { offsets, data, null_map, absent } => {
                &&& offsets_ok(offsets@, data@)
                &&& offsets@.len() == null_map@.len()
                &&& flags_ok(null_map@)
                &&& forall|i: int|
                    0 <= i < null_map@.len() && #[trigger] null_map@[i] == 1 ==> text_row(
                        offsets@,
                        data@,
                        i,
                    ) == absent@
            },
            ColumnBuf::Oracle(o) => o.wf(),
        }
    }

    /// The rows that the buffer holds.
    pub open spec fn rows(&self) -> Seq<CellView> {
        match self {
            ColumnBuf::Fixed { width, bytes } => Seq::new(
                bytes@.len() / (*width as nat),
                |i: int| CellView::Bytes(slab_row(bytes@, *width as nat, i)),
            ),
            ColumnBuf::String { offsets, data, .. } => Seq::new(
                offsets@.len(),
                |i: int| CellView::Bytes(text_row(offsets@, data@, i)),
            ),
            ColumnBuf::NullableFixed { width, null_map, inner } => Seq::new(
                null_map@.len(),
                |i: int| nullable_cell(null_map@[i], slab_row(inner@, *width as nat, i)),
            ),
            ColumnBuf::NullableString { offsets, data, null_map, .. } => Seq::new(
                null_map@.len(),
                |i: int| nullable_cell(null_map@[i], text_row(offsets@, data@, i)),
            ),
            ColumnBuf::Oracle(o) => o.cells().map_values(|c: OracleCellView| CellView::Foreign(c)),
        }
    }

    /// What the slab and its side arrays take on the wire.
    pub open spec fn size(&self) -> nat {
        match self {
            ColumnBuf::Fixed { bytes, .. } => bytes@.len(),
            ColumnBuf::String { offsets, data, .. } => offsets@.len() * 8 + data@.len(),
            ColumnBuf::NullableFixed { null_map, inner, .. } => null_map@.len() + inner@.len(),
            ColumnBuf::NullableString { offsets, data, null_map, .. } => offsets@.len() * 8
                + data@.len() + null_map@.len(),
            ColumnBuf::Oracle(o) => o.size(),
        }
    }

    /// An empty column of the type's shape. A JSON column stores the empty
    /// document for an absent value, because ClickHouse parses JSON cells
    /// even where the null map marks them.
    pub fn new_for_ast(ast: &TypeAst) -> (r: Result<Self, EmitterError>)
        ensures
            match r {
                Ok(b) => b.wf() && b.rows().len() == 0 && Some(b.shape()) == shape_of(ast@),
                Err(e) => shape_of(ast@) is None && e@ == ErrorView::Type(
                    "Nullable type with no child"@,
                ),
            },
    {
        let leaf = match ast.leaf {
            Some(l) => l,
            None => {
                return Err(EmitterError::Type(String::from_str("Nullable type with no child")));
            },
        };
        let mut absent: Vec<u8> = Vec::new();
        if leaf.kind == TypeKind::Json {
            absent.push(123u8);
            absent.push(125u8);
        }
        proof {
            assert(absent@ =~= absent_bytes(leaf.kind));
        }
        let b = if leaf.elem_size == 0 {
            if ast.nullable {
                ColumnBuf::NullableString {
                    offsets: Vec::new(),
                    data: Vec::new(),
                    null_map: Vec::new(),
                    absent,
                }
            } else {
                ColumnBuf::String { offsets: Vec::new(), data: Vec::new(), absent }
            }
        } else if ast.nullable {
            ColumnBuf::NullableFixed {
                width: leaf.elem_size,
                null_map: Vec::new(),
                inner: Vec::new(),
            }
        } else {
            ColumnBuf::Fixed { width: leaf.elem_size, bytes: Vec::new() }
        };
        proof {
            let w = leaf.elem_size as nat;
            if w > 0 {
                assert(0nat % w == 0 && 0nat / w == 0) by (nonlinear_arith)
                    requires
                        w > 0,
                ;
            }
            assert(0 * leaf.elem_size == 0);
        }
        Ok(b)
    }

    /// What the buffers hold from the allocator; at least what they use. Cells
    /// for the oracle count as what they take in a request.
    pub fn allocated_bytes(&self) -> (r: usize)
        requires
            self.wf(),
        ensures
            r >= clamp(self.size()),
            self is Oracle ==> r == self.size(),
    {
        match self {
            ColumnBuf::Fixed { bytes, .. } => capacity_of(bytes),
            ColumnBuf::String { offsets, data, .. } => times8(capacity_of(offsets)).saturating_add(
                capacity_of(data),
            ),
            ColumnBuf::NullableFixed { null_map, inner, .. } => capacity_of(
                null_map,
            ).saturating_add(capacity_of(inner)),
            ColumnBuf::NullableString { offsets, data, null_map, .. } => times8(
                capacity_of(offsets),
            ).saturating_add(capacity_of(data)).saturating_add(capacity_of(null_map)),
            ColumnBuf::Oracle(o) => o.approx_size(),
        }
    }

    /// What the slab and its side arrays take on the wire.
    pub fn approx_size(&self) -> (r: usize)
        requires
            self.wf(),
        ensures
            r == clamp(self.size()),
    {
        match self {
            ColumnBuf::Fixed { bytes, .. } => bytes.len(),
            ColumnBuf::String { offsets, data, .. } => times8(offsets.len()).saturating_add(
                data.len(),
            ),
            ColumnBuf::NullableFixed { null_map, inner, .. } => null_map.len().saturating_add(
                inner.len(),
            ),
            ColumnBuf::NullableString { offsets, data, null_map, .. } => times8(
                offsets.len(),
            ).saturating_add(data.len()).saturating_add(null_map.len()),
            ColumnBuf::Oracle(o) => o.approx_size(),
        }
    }

    /// Append NULL.
    pub fn append_null(&mut self) -> (r: Result<(), EmitterError>)
        requires
            old(self).wf(),
        ensures
            final(self).wf(),
            final(self).shape() == old(self).shape(),
            match old(self).shape().null_fault() {
                Some(e) => r is Err && r->Err_0@ == e && *final(self) == *old(self),
                None => r is Ok && final(self).rows() == old(self).rows().push(
                    old(self).shape().default_cell(),
                ),
            },
    {
        let ghost before = *self;
        match self {
            ColumnBuf::NullableFixed { width, null_map, inner } => {
                let ghost slab = inner@;
                let ghost n = null_map@.len();
                null_map.push(1);
                push_zeros(inner, *width);
                proof {
                    lemma_slab_grows(slab, zeros(*width as nat), *width as nat, n);
                    assert(inner@ == slab + zeros(*width as nat));
                    assert(null_map@.len() * *width == n * *width + *width) by (nonlinear_arith)
                        requires
                            null_map@.len() == n + 1,
                    ;
                }
            },
            ColumnBuf::NullableString { offsets, data, null_map, absent } => {
                let ghost old_offsets = offsets@;
                let ghost old_data = data@;
                null_map.push(1);
                append_all(data, absent.as_slice());
                offsets.push(data.len() as u64);
                proof {
                    lemma_text_grows(old_offsets, old_data, absent@);
                }
            },
            ColumnBuf::Oracle(o) => {
                o.push(OracleCell::Default);
            },
            _ => {
                return Err(unsupported("NULL for non-Nullable column"));
            },
        }
        proof {
            assert(self.rows() =~= before.rows().push(before.shape().default_cell()));
        }
        Ok(())
    }

    /// Append the type's default to a non-nullable column, NULL otherwise.
    pub fn append_default(&mut self)
        requires
            old(self).wf(),
        ensures
            final(self).wf(),
            final(self).shape() == old(self).shape(),
            final(self).rows() == old(self).rows().push(old(self).shape().default_cell()),
    {
        let ghost before = *self;
        match self {
            ColumnBuf::Fixed { width, bytes } => {
                let ghost slab = bytes@;
                push_zeros(bytes, *width);
                proof {
                    lemma_fixed_grows(slab, zeros(*width as nat), *width as nat);
                    assert(self.rows() =~= before.rows().push(before.shape().default_cell()));
                }
            },
            ColumnBuf::String { offsets, data, absent } => {
                let ghost old_offsets = offsets@;
                let ghost old_data = data@;
                append_all(data, absent.as_slice());
                offsets.push(data.len() as u64);
                proof {
                    lemma_text_grows(old_offsets, old_data, absent@);
                    assert(self.rows() =~= before.rows().push(before.shape().default_cell()));
                }
            },
            _ => {
                let nullable: Result<(), EmitterError> = self.append_null();
            },
        }
    }

    /// Append a packed little-endian value.
    pub fn append_fixed_bytes(&mut self, le: &[u8]) -> (r: Result<(), EmitterError>)
        requires
            old(self).wf(),
        ensures
            final(self).wf(),
            final(self).shape() == old(self).shape(),
            match old(self).shape().fixed_fault(le@.len()) {
                Some(e) => r is Err && r->Err_0@ == e && *final(self) == *old(self),
                None => r is Ok && final(self).rows() == old(self).rows().push(
                    CellView::Bytes(le@),
                ),
            },
    {
        let ghost before = *self;
        match self {
            ColumnBuf::Fixed { width, bytes } => {
                if le.len() != *width {
                    return Err(width_mismatch("fixed-width", *width, le.len()));
                }
                let ghost slab = bytes@;
                append_all(bytes, le);
                proof {
                    lemma_fixed_grows(slab, le@, *width as nat);
                }
            },
            ColumnBuf::NullableFixed { width, null_map, inner } => {
                if le.len() != *width {
                    return Err(width_mismatch("nullable-fixed-width", *width, le.len()));
                }
                let ghost slab = inner@;
                let ghost n = null_map@.len();
                null_map.push(0);
                append_all(inner, le);
                proof {
                    lemma_slab_grows(slab, le@, *width as nat, n);
                    assert(null_map@.len() * *width == n * *width + *width) by (nonlinear_arith)
                        requires
                            null_map@.len() == n + 1,
                    ;
                }
            },
            _ => {
                return Err(unsupported("fixed-width value into string-shaped buffer"));
            },
        }
        proof {
            assert(self.rows() =~= before.rows().push(CellView::Bytes(le@)));
        }
        Ok(())
    }

    /// Append text or raw bytes.
    pub fn append_string_bytes(&mut self, raw: &[u8]) -> (r: Result<(), EmitterError>)
        requires
            old(self).wf(),
        ensures
            final(self).wf(),
            final(self).shape() == old(self).shape(),
            match old(self).shape().text_fault() {
                Some(e) => r is Err && r->Err_0@ == e && *final(self) == *old(self),
                None => r is Ok && final(self).rows() == old(self).rows().push(
                    CellView::Bytes(raw@),
                ),
            },
    {
        let ghost before = *self;
        match self {
            ColumnBuf::String { offsets, data, .. } => {
                let ghost old_offsets = offsets@;
                let ghost old_data = data@;
                append_all(data, raw);
                offsets.push(data.len() as u64);
                proof {
                    lemma_text_grows(old_offsets, old_data, raw@);
                }
            },
            ColumnBuf::NullableString { offsets, data, null_map, .. } => {
                let ghost old_offsets = offsets@;
                let ghost old_data = data@;
                null_map.push(0);
                append_all(data, raw);
                offsets.push(data.len() as u64);
                proof {
                    lemma_text_grows(old_offsets, old_data, raw@);
                }
            },
            _ => {
                return Err(unsupported("string value into fixed-shaped buffer"));
            },
        }
        proof {
            assert(self.rows() =~= before.rows().push(CellView::Bytes(raw@)));
        }
        Ok(())
    }
}

/// The shape that rendered cells take locally.
pub open spec fn literal_shape(target_type: Seq<char>) -> Shape {
    if target_type == "Nullable(String)"@ {
        Shape::NullableText(Seq::empty())
    } else {
        Shape::Text(Seq::empty())
    }
}

/// The local row of a rendered cell.
pub open spec fn literal_row(shape: Shape, c: OracleCellView) -> CellView {
    match c {
        OracleCellView::Literal(b) => CellView::Bytes(b),
        _ => shape.default_cell(),
    }
}

/// The column's own buffer when every one of the batch's cells is rendered
/// already: the source database would hand them back unchanged.
pub fn literal_column(buf: &OracleColumnBuf, target_type: &str, n_rows: usize) -> (r: Option<
    ColumnBuf,
>)
    requires
        buf.wf(),
    ensures
        match r {
            None => !(buf.local() && buf.cells().len() == n_rows),
            Some(b) => {
                &&& buf.local() && buf.cells().len() == n_rows
                &&& b.wf()
                &&& b.shape() == literal_shape(target_type@)
                &&& b.rows() == buf.cells().map_values(
                    |c: OracleCellView| literal_row(literal_shape(target_type@), c),
                )
            },
        },
{
    if !buf.resolves_batch_locally(n_rows) {
        return None;
    }
    let mut local = if str_eq(target_type, "Nullable(String)") {
        ColumnBuf::NullableString {
            offsets: Vec::new(),
            data: Vec::new(),
            null_map: Vec::new(),
            absent: Vec::new(),
        }
    } else {
        ColumnBuf::String { offsets: Vec::new(), data: Vec::new(), absent: Vec::new() }
    };
    let ghost shape = literal_shape(target_type@);
    let cells: &Vec<OracleCell> = buf.cells_ref();
    let ghost all = buf.cells();
    let mut i: usize = 0;
    proof {
        assert(local.shape() == shape);
        assert(local.rows() =~= all.subrange(0, 0).map_values(
            |c: OracleCellView| literal_row(shape, c),
        ));
    }
    while i < cells.len()
        invariant
            i <= cells@.len(),
            all == cells@.map_values(|c: OracleCell| c@),
            shape is Text || shape is NullableText,
            local.wf(),
            local.shape() == shape,
            local.rows() == all.subrange(0, i as int).map_values(
                |c: OracleCellView| literal_row(shape, c),
            ),
        decreases cells@.len() - i,
    {
        match &cells[i] {
            OracleCell::Literal(bytes) => {
                let taken: Result<(), EmitterError> = local.append_string_bytes(bytes.as_slice());
            },
            _ => {
                local.append_default();
            },
        }
        proof {
            assert(all.subrange(0, i as int + 1).map_values(
                |c: OracleCellView| literal_row(shape, c),
            ) =~= all.subrange(0, i as int).map_values(
                |c: OracleCellView| literal_row(shape, c),
            ).push(literal_row(shape, cells@[i as int]@)));
        }
        i = i + 1;
    }
    proof {
        assert(all.subrange(0, i as int) =~= all);
    }
    Some(local)
}

/// `Vec::capacity` is at least the length; how much more is the allocator's
/// choice.
#[verifier::external_body]
fn capacity_of<T>(v: &Vec<T>) -> (c: usize)
    ensures
        c >= v@.len(),
{
    v.capacity()
}

fn times8(n: usize) -> (r: usize)
    ensures
        r == clamp((n * 8) as nat),
{
    if n <= usize::MAX / 8 {
        n * 8
    } else {
        usize::MAX
    }
}

fn push_zeros(out: &mut Vec<u8>, n: usize)
    ensures
        final(out)@ == old(out)@ + zeros(n as nat),
{
    let mut i: usize = 0;
    proof {
        assert(out@ =~= old(out)@ + zeros(0));
    }
    while i < n
        invariant
            i <= n,
            out@ == old(out)@ + zeros(i as nat),
        decreases n - i,
    {
        out.push(0);
        proof {
            assert(out@ =~= old(out)@ + zeros((i + 1) as nat));
        }
        i = i + 1;
    }
}

proof fn lemma_slab_grows(slab: Seq<u8>, row: Seq<u8>, w: nat, n: nat)
    requires
        w > 0,
        slab.len() == n * w,
        row.len() == w,
    ensures
        forall|i: int|
            0 <= i < n ==> #[trigger] slab_row(slab + row, w, i) == slab_row(slab, w, i),
        slab_row(slab + row, w, n as int) == row,
{
    assert forall|i: int| 0 <= i < n implies #[trigger] slab_row(slab + row, w, i) == slab_row(
        slab,
        w,
        i,
    ) by {
        assert(0 <= i * w && i * w + w <= n * w) by (nonlinear_arith)
            requires
                0 <= i < n,
                w > 0,
        ;
        assert(slab_row(slab + row, w, i) =~= slab_row(slab, w, i));
    }
    assert(slab_row(slab + row, w, n as int) =~= row);
}

proof fn lemma_fixed_grows(slab: Seq<u8>, row: Seq<u8>, w: nat)
    requires
        w > 0,
        slab.len() % w == 0,
        row.len() == w,
    ensures
        (slab + row).len() % w == 0,
        (slab + row).len() / w == slab.len() / w + 1,
        forall|i: int|
            0 <= i < slab.len() / w ==> #[trigger] slab_row(slab + row, w, i) == slab_row(
                slab,
                w,
                i,
            ),
        slab_row(slab + row, w, (slab.len() / w) as int) == row,
{
    let n = slab.len() / w;
    vstd::arithmetic::div_mod::lemma_fundamental_div_mod(slab.len() as int, w as int);
    assert(slab.len() == n * w) by (nonlinear_arith)
        requires
            slab.len() == w * n,
    ;
    lemma_slab_grows(slab, row, w, n);
    assert((slab + row).len() == (n + 1) * w) by (nonlinear_arith)
        requires
            slab.len() == n * w,
            (slab + row).len() == slab.len() + w,
    ;
    vstd::arithmetic::div_mod::lemma_fundamental_div_mod_converse(
        (slab + row).len() as int,
        w as int,
        (n + 1) as int,
        0,
    );
}

proof fn lemma_text_grows(offsets: Seq<u64>, data: Seq<u8>, raw: Seq<u8>)
    requires
        offsets_ok(offsets, data),
        data.len() + raw.len() <= u64::MAX,
    ensures
        ({
            let more = data + raw;
            let ends = offsets.push(more.len() as u64);
            &&& offsets_ok(ends, more)
            &&& forall|i: int|
                0 <= i < offsets.len() ==> #[trigger] text_row(ends, more, i) == text_row(
                    offsets,
                    data,
                    i,
                )
            &&& text_row(ends, more, offsets.len() as int) == raw
        }),
{
    let more = data + raw;
    let ends = offsets.push(more.len() as u64);
    assert forall|i: int| 0 <= i < ends.len() implies text_start(ends, i) <= #[trigger] ends[i]
        <= more.len() by {
        if i < offsets.len() {
            assert(text_start(offsets, i) <= offsets[i] <= data.len());
        }
    }
    assert forall|i: int| 0 <= i < offsets.len() implies #[trigger] text_row(ends, more, i)
        == text_row(offsets, data, i) by {
        assert(text_start(offsets, i) <= offsets[i] <= data.len());
        if i > 0 {
            assert(text_start(offsets, i - 1) <= offsets[i - 1] <= data.len());
        }
        assert(text_row(ends, more, i) =~= text_row(offsets, data, i));
    }
    assert(text_row(ends, more, offsets.len() as int) =~= raw);
}

} // verus!
