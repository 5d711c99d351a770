//! How tables are planned and what becomes of a row in their columns.
use vstd::prelude::*;
use vstd::string::*;
use vstd::utf8::encode_utf8;

use crate::columns::{literal_row, literal_shape, shape_of, CellView, ColumnBuf, Shape};
use crate::decimal::DecimalWire;
use crate::encoder::{
    appended, appended_cell, appended_width, cell_at, filled, foreign_at, foreign_fault,
    local_fault, named, row_bytes, strand_bytes, TableEncoder,
};
use crate::errors::ErrorView;
use crate::mapping::{
    route_in, ColumnMapping, ColumnMappingView, SystemColumnNames, SystemView, TableMapping,
};
use crate::oracle::{is_string_type, OracleCellView, OracleColumnBuf};
use crate::plan::{
    live_attr, planned, rendered_bytes, ColumnEncoding, ColumnPlan, ColumnPlanView, ColumnTypes,
    TablePlan,
};
use crate::schema::{RelAttr, RelKey, RelName, ReplIdent};
use crate::tuples::{CommittedTuple, DecodedHeap};
use crate::types::{admissible, LeafType, TypeKind, TypeShape};
use crate::value_laws::lemma_signed;
use crate::values::{foreign_cell, unix_micros, ColumnValue};
use crate::wire::lemma_le_bytes_len;

verus! {

/// A value that is null, absent or unlogged is a null where the column has
/// nulls; otherwise it is zero, or the empty text of its type.
pub proof fn missing_values_take_the_default(
    plans: Seq<ColumnPlan>,
    bufs: Seq<ColumnBuf>,
    heap: DecodedHeap,
    cols: Seq<ColumnMapping>,
    i: int,
)
    requires
        !(bufs[i] is Oracle),
        heap.value(cols[i].src_attnum) is None || heap.value(cols[i].src_attnum) == Some(
            ColumnValue::Null,
        ),
    ensures
        match bufs[i].shape() {
            Shape::NullableFixed(_) => cell_at(plans, bufs, heap, cols, i) == Ok::<_, ErrorView>(
                CellView::Null,
            ),
            Shape::NullableText(_) => cell_at(plans, bufs, heap, cols, i) == Ok::<_, ErrorView>(
                CellView::Null,
            ),
            Shape::Text(empty) => cell_at(plans, bufs, heap, cols, i) == Ok::<_, ErrorView>(
                CellView::Bytes(empty),
            ),
            Shape::Fixed(w) => {
                let c = cell_at(plans, bufs, heap, cols, i);
                c is Ok && c->Ok_0 is Bytes && c->Ok_0->Bytes_0.len() == w && forall|k: int|
                    0 <= k < w ==> #[trigger] c->Ok_0->Bytes_0[k] == 0
            },
            Shape::Foreign => true,
        },
{
}

/// A cell depends on its own column's value alone: two rows that agree in it
/// have the same cell.
pub proof fn cells_depend_on_their_own_value(
    plans: Seq<ColumnPlan>,
    bufs: Seq<ColumnBuf>,
    a: DecodedHeap,
    b: DecodedHeap,
    cols: Seq<ColumnMapping>,
    i: int,
)
    requires
        a.value(cols[i].src_attnum) == b.value(cols[i].src_attnum),
    ensures
        cell_at(plans, bufs, a, cols, i) == cell_at(plans, bufs, b, cols, i),
{
}

/// What the source database is to render goes to it as it is on disk or as
/// text; text that needs no rendering goes as it is. A value of another type
/// than the planned one is refused.
pub proof fn bridged_values_keep_their_form(v: ColumnValue, oid: u32)
    ensures
        foreign_cell(None, oid) == Ok::<_, ErrorView>(OracleCellView::Default),
        v is Null ==> foreign_cell(Some(v), oid) == Ok::<_, ErrorView>(OracleCellView::Default),
        v matches ColumnValue::Text(s) ==> foreign_cell(Some(v), oid) == Ok::<_, ErrorView>(
            OracleCellView::Literal(encode_utf8(s@)),
        ),
        v matches ColumnValue::Name(s) ==> foreign_cell(Some(v), oid) == Ok::<_, ErrorView>(
            OracleCellView::Literal(encode_utf8(s@)),
        ),
        v matches ColumnValue::Json(s) ==> foreign_cell(Some(v), oid) == Ok::<_, ErrorView>(
            OracleCellView::TextInput(encode_utf8(s@)),
        ),
        v matches ColumnValue::PgPending { type_oid, raw } ==> if type_oid == oid {
            foreign_cell(Some(v), oid) == Ok::<_, ErrorView>(OracleCellView::DiskRaw(raw@))
        } else {
            foreign_cell(Some(v), oid) is Err
        },
        v matches ColumnValue::Unsupported { type_oid, raw } ==> if type_oid == oid {
            foreign_cell(Some(v), oid) == Ok::<_, ErrorView>(OracleCellView::DiskRaw(raw@))
        } else {
            foreign_cell(Some(v), oid) is Err
        },
        v matches ColumnValue::PgPendingText { type_oid, text } ==> if type_oid == oid {
            foreign_cell(Some(v), oid) == Ok::<_, ErrorView>(
                OracleCellView::TextInput(encode_utf8(text@)),
            )
        } else {
            foreign_cell(Some(v), oid) is Err
        },
        v is Bool || v is Int2 || v is Int4 || v is Int8 || v is Date || v is Timestamp
            || v is ExternalToast || v is Bytea ==> foreign_cell(Some(v), oid) is Err,
{
}

/// A row that is taken stands behind the earlier rows of every column, which
/// stay as they are, and its cell is that of its own value.
pub proof fn taken_rows_stand_behind_the_others(
    pre: TableEncoder,
    post: TableEncoder,
    t: CommittedTuple,
    m: TableMapping,
    code: i8,
    i: int,
)
    requires
        pre.grew_to(post, t, m, code),
        0 <= i < m.columns@.len(),
        m.columns@.len() <= pre.buffers@.len(),
        pre.rows < usize::MAX,
    ensures
        post.rows == pre.rows + 1,
        post.plan == pre.plan && post.limits == pre.limits,
        post.buffers@.len() == pre.buffers@.len(),
        post.buffers@[i].rows().len() == pre.buffers@[i].rows().len() + 1,
        post.buffers@[i].rows().drop_last() == pre.buffers@[i].rows(),
        cell_at(pre.plan.columns@, pre.buffers@, t.decoded, m.columns@, i) == Ok::<_, ErrorView>(
            post.buffers@[i].rows().last(),
        ),
        post.oracle_bytes >= pre.oracle_bytes,
{
    assert(filled(
        pre.plan.columns@,
        pre.buffers@,
        t.decoded,
        m.columns@,
        i,
        post.buffers@[i],
        pre.limits.cell_header,
    ));
}

/// A first row is never told to wait for the block to be sealed. One that is
/// taken leaves the request within both limits.
pub proof fn taken_rows_fit_a_request(e: TableEncoder, t: CommittedTuple, m: TableMapping)
    ensures
        e.rows == 0 ==> !(e.verdict(t, m) is Full),
        e.verdict(t, m) is Done ==> e.oracle_overhead + row_bytes(
            e.buffers@,
            t.decoded,
            m.columns@,
            m.columns@.len(),
        ) <= e.limits.max_request_bytes,
        e.verdict(t, m) is Done && e.rows > 0 ==> e.oracle_bytes + row_bytes(
            e.buffers@,
            t.decoded,
            m.columns@,
            m.columns@.len(),
        ) + strand_bytes(e.buffers@, t.decoded, m.columns@, m.columns@.len())
            <= e.limits.seal_bytes,
{
}

/// A row of which nothing is rendered elsewhere adds nothing to a request.
pub proof fn own_columns_need_no_request(
    bufs: Seq<ColumnBuf>,
    heap: DecodedHeap,
    cols: Seq<ColumnMapping>,
    n: nat,
)
    requires
        forall|i: int| 0 <= i < n ==> !(#[trigger] bufs[i] is Oracle),
    ensures
        row_bytes(bufs, heap, cols, n) == 0,
        strand_bytes(bufs, heap, cols, n) == 0,
    decreases n,
{
    if n > 0 {
        own_columns_need_no_request(bufs, heap, cols, (n - 1) as nat);
        assert(!(bufs[n - 1] is Oracle));
    }
}

/// A row fails in the column that it says, whose name the error then has; all
/// columns before it take their values.
pub proof fn faults_name_their_column(
    plans: Seq<ColumnPlan>,
    bufs: Seq<ColumnBuf>,
    heap: DecodedHeap,
    cols: Seq<ColumnMapping>,
    i: int,
)
    requires
        0 <= i,
    ensures
        match local_fault(plans, bufs, heap, cols, i) {
            None => forall|k: int|
                i <= k < cols.len() ==> #[trigger] cell_at(plans, bufs, heap, cols, k) is Ok,
            Some((k, e)) => {
                &&& i <= k < cols.len()
                &&& cell_at(plans, bufs, heap, cols, k) is Err
                &&& e == named(cell_at(plans, bufs, heap, cols, k)->Err_0, cols[k].target_name@)
                &&& forall|j: int|
                    i <= j < k ==> #[trigger] cell_at(plans, bufs, heap, cols, j) is Ok
            },
        },
    decreases cols.len() - i,
{
    if i < cols.len() {
        faults_name_their_column(plans, bufs, heap, cols, i + 1);
    }
}

/// A value that a column cannot hold is reported under the column's name; other
/// errors stay as they are.
pub proof fn unsupported_values_are_named(e: ErrorView, target: Seq<char>)
    ensures
        e matches ErrorView::UnsupportedValue(_, k) ==> named(e, target)
            == ErrorView::UnsupportedValue(target, k),
        !(e is UnsupportedValue) ==> named(e, target) == e,
{
}

/// A row is refused before any column changes when a value of it cannot go to
/// the source database.
pub proof fn unbridgeable_rows_are_refused(
    bufs: Seq<ColumnBuf>,
    heap: DecodedHeap,
    cols: Seq<ColumnMapping>,
    i: int,
)
    requires
        0 <= i,
    ensures
        foreign_fault(bufs, heap, cols, i) is None <==> forall|k: int|
            i <= k < cols.len() && #[trigger] bufs[k] is Oracle ==> foreign_at(bufs, heap, cols, k)
                is Ok,
    decreases cols.len() - i,
{
    if i < cols.len() {
        unbridgeable_rows_are_refused(bufs, heap, cols, i + 1);
    }
}

/// A type of fixed size has cells of that size, any other has text; a nullable
/// type has nulls. A missing object is the empty one, other text is empty.
pub proof fn types_decide_their_cells(nullable: bool, l: LeafType)
    ensures
        shape_of(TypeShape { nullable, leaf: None }) is None,
        l.elem_size > 0 && !nullable ==> shape_of(TypeShape { nullable, leaf: Some(l) }) == Some(
            Shape::Fixed(l.elem_size as nat),
        ),
        l.elem_size > 0 && nullable ==> shape_of(TypeShape { nullable, leaf: Some(l) }) == Some(
            Shape::NullableFixed(l.elem_size as nat),
        ),
        l.elem_size == 0 && l.kind == TypeKind::Json && !nullable ==> shape_of(
            TypeShape { nullable, leaf: Some(l) },
        ) == Some(Shape::Text(seq![123u8, 125u8])),
        l.elem_size == 0 && l.kind != TypeKind::Json && !nullable ==> shape_of(
            TypeShape { nullable, leaf: Some(l) },
        ) == Some(Shape::Text(Seq::empty())),
        l.elem_size == 0 && nullable ==> shape_of(TypeShape { nullable, leaf: Some(l) }) is Some
            && shape_of(TypeShape { nullable, leaf: Some(l) })->0 is NullableText,
{
}

/// A cell that is rendered already goes into a text column as it is; any other
/// is a null in a nullable column and empty elsewhere.
pub proof fn rendered_cells_are_taken(c: OracleCellView, target: Seq<char>)
    ensures
        c matches OracleCellView::Literal(b) ==> literal_row(literal_shape(target), c)
            == CellView::Bytes(b),
        c is Default && target == "Nullable(String)"@ ==> literal_row(literal_shape(target), c)
            == CellView::Null,
        c is Default && target != "Nullable(String)"@ ==> literal_row(literal_shape(target), c)
            == CellView::Bytes(Seq::empty()),
{
}

/// Only text columns go without the source database, and only while none of
/// their cells needs it.
pub proof fn text_columns_may_stay_local(o: OracleColumnBuf, i: int)
    ensures
        o.local() ==> o.type_repr() == "String"@ || o.type_repr() == "Nullable(String)"@,
        o.local() && 0 <= i < o.cells().len() ==> o.cells()[i] is Default || o.cells()[i]
            is Literal,
        is_string_type(o.type_repr()) && o.cells().len() == 0 ==> o.local(),
        0 <= i < o.cells().len() && (o.cells()[i] is DiskRaw || o.cells()[i] is TextInput)
            ==> !o.local(),
{
}

/// A decimal column has its type's scale and as many bytes as its type; types
/// of other kinds, sizes or scales are no decimals.
pub proof fn decimals_have_their_types_size(t: TypeShape)
    ensures
        t.decimal() matches Some(d) ==> t.leaf is Some && d.scale == t.leaf->0.decimal_scale
            && d.width.size() == t.leaf->0.elem_size,
        t.leaf is None ==> t.decimal() is None,
        t.leaf matches Some(l) ==> (t.decimal() is Some <==> (l.kind == TypeKind::Decimal32
            || l.kind == TypeKind::Decimal64 || l.kind == TypeKind::Decimal128 || l.kind
            == TypeKind::Decimal256) && 0 <= l.decimal_scale <= 255 && (l.elem_size == 4
            || l.elem_size == 8 || l.elem_size == 16 || l.elem_size == 32)),
{
}

/// A column may always have the type that it has.
pub proof fn own_types_are_admissible(t: TypeShape)
    requires
        t.leaf is Some,
    ensures
        admissible(t, t) == Some(t.decimal()),
{
}

/// A decimal column may be configured to another decimal, whose own scale and
/// size it then has, to text, or to a signed integer, which is a decimal
/// without places.
pub proof fn decimals_may_be_widened(default: TypeShape, over: TypeShape, l: LeafType)
    requires
        default.decimal() is Some,
        over.leaf == Some(l),
    ensures
        over.decimal() is Some ==> admissible(default, over) == Some(over.decimal()),
        l.elem_size == 0 ==> admissible(default, over) == Some(None::<DecimalWire>),
        over.decimal() is None && l.elem_size > 0 && !(l.kind == TypeKind::Int32 || l.kind
            == TypeKind::Int64 || l.kind == TypeKind::Int128 || l.kind == TypeKind::Int256)
            ==> admissible(default, over) is None,
        (l.kind == TypeKind::Int32 && l.elem_size == 4 || l.kind == TypeKind::Int64 && l.elem_size
            == 8 || l.kind == TypeKind::Int128 && l.elem_size == 16 || l.kind == TypeKind::Int256
            && l.elem_size == 32) ==> ({
            let a = admissible(default, over);
            a is Some && a->0 is Some && a->0->0.scale == 0 && a->0->0.width.size() == l.elem_size
        }),
{
}

/// A column of another kind keeps the size of its cells, and does not become a
/// decimal.
pub proof fn other_columns_keep_their_size(default: TypeShape, over: TypeShape)
    requires
        default.decimal() is None,
    ensures
        admissible(default, over) matches Some(d) ==> d is None && default.leaf is Some && over.leaf
            is Some && default.leaf->0.elem_size == over.leaf->0.elem_size,
        default.leaf is Some && over.leaf is Some && default.leaf->0.elem_size
            == over.leaf->0.elem_size && over.decimal() is None ==> admissible(default, over)
            is Some,
{
}

/// A column of several values is rendered by the source database, and so is one
/// of a type that is not covered here; all others are encoded here. What is
/// rendered has its attribute's type, or none where every cell defaults.
pub proof fn covered_columns_are_encoded_here(att: Option<RelAttr>, covered: bool, t: TypeShape)
    ensures
        t.composite() ==> ColumnEncoding::chosen(att, covered, t) is Oracle,
        !t.composite() ==> (ColumnEncoding::chosen(att, covered, t) is Local <==> att is None
            || covered),
        att is Some && ColumnEncoding::chosen(att, covered, t) is Oracle
            ==> ColumnEncoding::chosen(att, covered, t)->source_type_oid == att->0.type_oid
            && ColumnEncoding::chosen(att, covered, t)->source_typmod == att->0.typmod,
        att is None && ColumnEncoding::chosen(att, covered, t) is Oracle
            ==> ColumnEncoding::chosen(att, covered, t)->source_type_oid == 0
            && ColumnEncoding::chosen(att, covered, t)->source_typmod == -1,
        t.composite() <==> t.leaf is Some && (t.leaf->0.kind == TypeKind::Array || t.leaf->0.kind
            == TypeKind::MapOf || t.leaf->0.kind == TypeKind::Object),
{
}

/// An attribute is found by its number as long as it has not been dropped.
pub proof fn live_attributes_are_found(attrs: Seq<RelAttr>, attnum: i16)
    ensures
        live_attr(attrs, attnum) is None <==> forall|i: int|
            0 <= i < attrs.len() ==> (#[trigger] attrs[i]).attnum != attnum || attrs[i].dropped,
        live_attr(attrs, attnum) matches Some(a) ==> attrs.contains(a) && a.attnum == attnum
            && !a.dropped,
    decreases attrs.len(),
{
    if attrs.len() > 0 {
        let rest = attrs.subrange(1, attrs.len() as int);
        live_attributes_are_found(rest, attnum);
        if attrs[0].attnum == attnum && !attrs[0].dropped {
            assert(attrs.contains(attrs[0]));
        } else {
            if live_attr(rest, attnum) is Some {
                let a = live_attr(rest, attnum)->0;
                let k = choose|k: int| 0 <= k < rest.len() && rest[k] == a;
                assert(attrs[k + 1] == a);
                assert(attrs[k + 1].attnum == attnum && !attrs[k + 1].dropped);
            } else {
                assert forall|i: int| 0 <= i < attrs.len() implies (#[trigger] attrs[i]).attnum
                    != attnum || attrs[i].dropped by {
                    if i > 0 {
                        assert(rest[i - 1] == attrs[i]);
                    }
                }
            }
        }
    }
}

/// A column is planned under its configured name. An override decides its type
/// where the attribute is live and the type is admissible; otherwise the
/// declared type does. A declared type that cannot be read refuses the table.
pub proof fn admissible_overrides_decide_the_type(
    att: Option<RelAttr>,
    c: ColumnMappingView,
    t: ColumnTypes,
)
    ensures
        planned(att, c, t) is Ok <==> t.declared is Ok,
        planned(att, c, t) is Err ==> planned(att, c, t)->Err_0 is Type,
        planned(att, c, t) matches Ok(p) ==> p.name == c.target_name,
        t.declared is Ok && (att is None || t.over is None) ==> planned(att, c, t)->Ok_0.shape
            == t.declared->Ok_0@ && planned(att, c, t)->Ok_0.request_bytes == t.request_bytes
            && planned(att, c, t)->Ok_0.decimal == t.declared->Ok_0@.decimal(),
        (t.declared is Ok && att is Some && t.over is Some) ==> {
            let (ty, read) = t.over->0;
            let p = planned(att, c, t)->Ok_0;
            if read is Ok && admissible(t.declared->Ok_0@, read->Ok_0@) is Some {
                p.shape == read->Ok_0@ && p.request_bytes == t.over_request_bytes && Some(p.decimal)
                    == admissible(t.declared->Ok_0@, read->Ok_0@)
            } else {
                p.shape == t.declared->Ok_0@ && p.request_bytes == t.request_bytes
            }
        },
{
}

/// Only columns that the source database renders take room in a request.
pub proof fn own_columns_take_no_request_room(columns: Seq<ColumnPlanView>, c: ColumnPlanView)
    ensures
        rendered_bytes(Seq::<ColumnPlanView>::empty()) == 0,
        c.encoding is Local ==> rendered_bytes(columns.push(c)) == rendered_bytes(columns),
        c.encoding is Oracle ==> rendered_bytes(columns.push(c)) == rendered_bytes(columns)
            + c.request_bytes,
{
    assert(columns.push(c).drop_last() == columns);
}

/// Faults of the connection, of the server or of its answering in time may pass
/// when they are tried again; faults of the row or of the configuration do not.
pub proof fn only_server_faults_are_tried_again(e: ErrorView)
    ensures
        e.retryable() <==> e is Io || e is Client || e is ServerException || e is Timeout,
        e is Type || e is Config || e is NoTableMapping || e is CompressionUnsupported || e
            is UnsupportedValue ==> !e.retryable(),
{
}

/// A configured name of a system column replaces the one it had, and silence
/// keeps it; the empty name takes the mark of deletes away.
pub proof fn configured_names_replace_the_others(n: SystemColumnNames, base: SystemView)
    ensures
        n.lsn is None ==> n.over(base).lsn == base.lsn,
        n.lsn matches Some(s) ==> n.over(base).lsn == s@,
        n.xid is None ==> n.over(base).xid == base.xid,
        n.xid matches Some(s) ==> n.over(base).xid == s@,
        n.commit_ts is None ==> n.over(base).commit_ts == base.commit_ts,
        n.commit_ts matches Some(s) ==> n.over(base).commit_ts == s@,
        n.is_deleted is None ==> n.over(base).is_deleted == base.is_deleted,
        n.is_deleted matches Some(s) ==> (s@.len() > 0 ==> n.over(base).is_deleted == Some(s@)) && (
        s@.len() == 0 ==> n.over(base).is_deleted is None),
{
}

/// The names of a table's system columns are those of the position, the
/// transaction and the time of the commit, in this order, then that of the mark
/// of deletes where there is one.
pub proof fn system_columns_have_their_order(s: SystemView)
    ensures
        s.names().len() == (if s.is_deleted is Some {
            4nat
        } else {
            3
        }),
        s.names()[0] == s.lsn,
        s.names()[1] == s.xid,
        s.names()[2] == s.commit_ts,
        s.is_deleted is Some ==> s.names()[3] == s.is_deleted->0,
{
}

/// A relation's route is the one entered for it last, whatever is entered for
/// others.
pub proof fn routes_are_found_by_their_relation(
    entries: Seq<(RelName, TableMapping)>,
    name: RelName,
    m: TableMapping,
    rel: RelKey,
)
    ensures
        route_in(entries.push((name, m)), name@) == Some(m@),
        name@ != rel ==> route_in(entries.push((name, m)), rel) == route_in(entries, rel),
        route_in(Seq::<(RelName, TableMapping)>::empty(), rel) is None,
{
    assert(entries.push((name, m)).drop_last() == entries);
}

/// A row is known by the index that was chosen for it, else by its primary key,
/// also where the whole row is logged; without either it has no key.
pub proof fn rows_are_known_by_their_key(keys: Vec<i16>, oid: u32)
    ensures
        (ReplIdent::UsingIndex { index_oid: oid, key_attnums: keys }).key() == keys@,
        (ReplIdent::Default { pk_attnums: Some(keys) }).key() == keys@,
        (ReplIdent::Full { pk_attnums: Some(keys) }).key() == keys@,
        (ReplIdent::Default { pk_attnums: None }).key().len() == 0,
        (ReplIdent::Full { pk_attnums: None }).key().len() == 0,
        ReplIdent::Nothing.key().len() == 0,
{
}

/// The columns behind a row's own are eight, four and eight bytes wide, and the
/// mark of deletes one; there are as many as the table has system columns.
pub proof fn appended_columns_have_their_width(p: TablePlan, t: CommittedTuple, code: i8, i: int)
    requires
        0 <= i < appended(p),
    ensures
        appended(p) == p.system@.names().len(),
        appended_width(0) == 8 && appended_width(1) == 4 && appended_width(2) == 8
            && appended_width(3) == 1,
        appended_cell(t, code, i) is Bytes && appended_cell(t, code, i)->Bytes_0.len()
            == appended_width(i),
{
    lemma_le_bytes_len(t.decoded.source_lsn as int, 8);
    lemma_le_bytes_len(t.decoded.xid as int, 4);
    lemma_signed(unix_micros(t.commit_ts), 8);
}

} // verus!
