//! Columns whose cells the source database renders.
use vstd::prelude::*;
use vstd::string::*;

use crate::text::str_eq;

verus! {

/// One cell of a request to the source database.
#[derive(Debug)]
pub enum OracleCell {
    /// NULL, absent or unlogged: the target type's default.
    Default,
    /// On-disk datum bytes.
    DiskRaw(Vec<u8>),
    /// Text for the type's input function.
    TextInput(Vec<u8>),
    /// Rendered already; the source database hands it back unchanged.
    Literal(Vec<u8>),
}

pub enum OracleCellView {
    Default,
    DiskRaw(Seq<u8>),
    TextInput(Seq<u8>),
    Literal(Seq<u8>),
}

impl View for OracleCell {
    type V = OracleCellView;

    open spec fn view(&self) -> OracleCellView {
        match self {
            OracleCell::Default => OracleCellView::Default,
            OracleCell::DiskRaw(b) => OracleCellView::DiskRaw(b@),
            OracleCell::TextInput(b) => OracleCellView::TextInput(b@),
            OracleCell::Literal(b) => OracleCellView::Literal(b@),
        }
    }
}

impl OracleCellView {
    /// Needs no conversion by the source database.
    pub open spec fn rendered(self) -> bool {
        self is Default || self is Literal
    }

    /// Bytes that the cell carries.
    pub open spec fn payload(self) -> nat {
        match self {
            OracleCellView::Default => 0,
            OracleCellView::DiskRaw(b) => b.len(),
            OracleCellView::TextInput(b) => b.len(),
            OracleCellView::Literal(b) => b.len(),
        }
    }

    /// What the cell takes in a request that spends `header` bytes per cell.
    pub open spec fn wire_bytes(self, header: nat) -> nat {
        header + self.payload()
    }
}

impl OracleCell {
    pub fn is_rendered(&self) -> (r: bool)
        ensures
            r == self@.rendered(),
    {
        match self {
            OracleCell::Default => true,
            OracleCell::Literal(_) => true,
            _ => false,
        }
    }

    pub fn wire_bytes(&self, header: usize) -> (r: usize)
        ensures
            r == clamp(self@.wire_bytes(header as nat)),
    {
        match self {
            OracleCell::Default => header,
            OracleCell::DiskRaw(b) => header.saturating_add(b.len()),
            OracleCell::TextInput(b) => header.saturating_add(b.len()),
            OracleCell::Literal(b) => header.saturating_add(b.len()),
        }
    }
}

/// `n`, or the largest size when it is larger than that.
pub open spec fn clamp(n: nat) -> usize {
    if n <= usize::MAX {
        n as usize
    } else {
        usize::MAX
    }
}

/// What a list of cells takes in a request.
pub open spec fn cells_bytes(cells: Seq<OracleCellView>, header: nat) -> nat
    decreases cells.len(),
{
    if cells.len() == 0 {
        0
    } else {
        cells_bytes(cells.drop_last(), header) + cells.last().wire_bytes(header)
    }
}

/// Types whose rendered cells need no conversion.
pub open spec fn is_string_type(type_repr: Seq<char>) -> bool {
    type_repr == "String"@ || type_repr == "Nullable(String)"@
}

/// The cells of one column, gathered for one request.
#[derive(Debug)]
pub struct OracleColumnBuf {
    source_type_oid: u32,
    source_typmod: i32,
    type_repr: String,
    header: usize,
    string_target: bool,
    /// Every cell so far is rendered and the target takes it as it is.
    local: bool,
    bytes: usize,
    cells: Vec<OracleCell>,
}

impl OracleColumnBuf {
    pub closed spec fn cells(&self) -> Seq<OracleCellView> {
        self.cells@.map_values(|c: OracleCell| c@)
    }

    pub closed spec fn type_repr(&self) -> Seq<char> {
        self.type_repr@
    }

    /// The source column's type and type modifier.
    pub closed spec fn source(&self) -> (u32, i32) {
        (self.source_type_oid, self.source_typmod)
    }

    /// Bytes that a request spends per cell besides the payload.
    pub closed spec fn header(&self) -> nat {
        self.header as nat
    }

    /// No cell so far needs the source database.
    pub open spec fn local(&self) -> bool {
        is_string_type(self.type_repr()) && forall|i: int|
            0 <= i < self.cells().len() ==> (#[trigger] self.cells()[i]).rendered()
    }

    pub closed spec fn wf(&self) -> bool {
        &&& self.string_target == is_string_type(self.type_repr@)
        &&& self.local == self.local()
        &&& self.bytes == clamp(cells_bytes(self.cells(), self.header as nat))
    }

    /// What the cells take in a request.
    pub open spec fn size(&self) -> nat {
        clamp(cells_bytes(self.cells(), self.header())) as nat
    }

    /// What the rendered cells start to cost when the column has to be sent
    /// after all.
    pub open spec fn stranded(&self) -> nat {
        if self.local() {
            cells_bytes(self.cells(), self.header())
        } else {
            0
        }
    }

    pub fn new(source_type_oid: u32, source_typmod: i32, type_repr: &str, header: usize) -> (r:
        Self)
        ensures
            r.wf(),
            r.cells().len() == 0,
            r.type_repr() == type_repr@,
            r.header() == header,
            r.source() == (source_type_oid, source_typmod),
    {
        let string_target: bool = str_eq(type_repr, "String") || str_eq(
            type_repr,
            "Nullable(String)",
        );
        OracleColumnBuf {
            source_type_oid,
            source_typmod,
            type_repr: String::from_str(type_repr),
            header,
            string_target,
            local: string_target,
            bytes: 0,
            cells: Vec::new(),
        }
    }

    pub fn push(&mut self, cell: OracleCell)
        requires
            old(self).wf(),
        ensures
            final(self).wf(),
            final(self).cells() == old(self).cells().push(cell@),
            final(self).type_repr() == old(self).type_repr(),
            final(self).header() == old(self).header(),
            final(self).source() == old(self).source(),
    {
        let ghost before = self.cells();
        self.local = self.local && cell.is_rendered();
        self.bytes = self.bytes.saturating_add(cell.wire_bytes(self.header));
        self.cells.push(cell);
        proof {
            let after = self.cells();
            assert(after =~= before.push(cell@));
            assert(after.drop_last() =~= before);
            assert forall|i: int| 0 <= i < before.len() implies before[i] == after[i] by {}
            if self.local() {
                assert(after[before.len() as int].rendered());
                assert forall|i: int| 0 <= i < before.len() implies (
                #[trigger] before[i]).rendered() by {
                    assert(after[i].rendered());
                }
            }
        }
    }

    pub fn source_type_oid(&self) -> (r: u32)
        ensures
            r == self.source().0,
    {
        self.source_type_oid
    }

    pub fn source_typmod(&self) -> (r: i32)
        ensures
            r == self.source().1,
    {
        self.source_typmod
    }

    pub fn cells_ref(&self) -> (r: &Vec<OracleCell>)
        ensures
            r@.map_values(|c: OracleCell| c@) == self.cells(),
    {
        &self.cells
    }

    /// `cell` would leave the column free of conversions.
    pub fn resolves_locally(&self, cell: &OracleCell) -> (r: bool)
        requires
            self.wf(),
        ensures
            r == (self.local() && cell@.rendered()),
    {
        self.local && cell.is_rendered()
    }

    /// The whole batch of `n_rows` is free of conversions.
    pub fn resolves_batch_locally(&self, n_rows: usize) -> (r: bool)
        requires
            self.wf(),
        ensures
            r == (self.local() && self.cells().len() == n_rows),
    {
        self.local && self.cells.len() == n_rows
    }

    pub fn stranded_bytes(&self) -> (r: usize)
        requires
            self.wf(),
        ensures
            r == clamp(self.stranded()),
    {
        if self.local {
            self.bytes
        } else {
            0
        }
    }

    pub fn approx_size(&self) -> (r: usize)
        requires
            self.wf(),
        ensures
            r == self.size(),
    {
        self.bytes
    }
}

} // verus!
