//! Encoding plan of one destination table.
use vstd::prelude::*;
use vstd::string::*;

use crate::decimal::DecimalWire;
use crate::errors::{EmitterError, ErrorView};
use crate::mapping::{
    column_views, ColumnMapping, ColumnMappingView, SystemColumns, SystemView, TableMapping,
};
use crate::oracle::clamp;
use crate::schema::{RelAttr, RelDescriptor};
use crate::text::{join, joined, quote_ident, quoted, views};
use crate::types::{
    admissible, composite_target, decimal_wire_of, override_wire, TypeAst, TypeShape,
};

verus! {

/// The type modifier of a column that has none.
pub const NO_TYPMOD: i32 = -1;

#[derive(Clone, Copy, Debug, PartialEq, Eq, Structural)]
pub enum ColumnEncoding {
    Local,
    /// The source database renders the column.
    Oracle {
        /// Zero when every cell defaults.
        source_type_oid: u32,
        source_typmod: i32,
    },
}

impl ColumnEncoding {
    /// Who encodes a column: the daemon if it covers the source type and the
    /// target is no composite. A column without a source attribute has only
    /// default cells.
    pub open spec fn chosen(att: Option<RelAttr>, covered: bool, t: TypeShape) -> ColumnEncoding {
        match att {
            None => if t.composite() {
                ColumnEncoding::Oracle { source_type_oid: 0, source_typmod: NO_TYPMOD }
            } else {
                ColumnEncoding::Local
            },
            Some(a) => if t.composite() || !covered {
                ColumnEncoding::Oracle { source_type_oid: a.type_oid, source_typmod: a.typmod }
            } else {
                ColumnEncoding::Local
            },
        }
    }

    pub fn for_column(att: Option<&RelAttr>, covered: bool, ast: &TypeAst) -> (r: Self)
        ensures
            r == Self::chosen(
                match att {
                    Some(a) => Some(*a),
                    None => None,
                },
                covered,
                ast@,
            ),
    {
        let composite: bool = composite_target(ast);
        match att {
            None => if composite {
                ColumnEncoding::Oracle { source_type_oid: 0, source_typmod: NO_TYPMOD }
            } else {
                ColumnEncoding::Local
            },
            Some(a) => if composite || !covered {
                ColumnEncoding::Oracle { source_type_oid: a.type_oid, source_typmod: a.typmod }
            } else {
                ColumnEncoding::Local
            },
        }
    }
}

/// What is known of one mapped column's types: the parsed target type, the
/// operator's override with its parsed type, and whether the daemon encodes
/// the source type itself.
///
/// `request_bytes` is what the column's name and declared type take in a
/// request to the source database, `over_request_bytes` what they take with
/// the override.
#[derive(Debug)]
pub struct ColumnTypes {
    pub declared: Result<TypeAst, String>,
    pub over: Option<(String, Result<TypeAst, String>)>,
    pub covered: bool,
    pub request_bytes: usize,
    pub over_request_bytes: usize,
}

#[derive(Debug)]
pub struct ColumnPlan {
    pub name: String,
    /// Canonical type, shared by request and response.
    pub type_repr: String,
    pub ast: TypeAst,
    pub decimal: Option<DecimalWire>,
    pub encoding: ColumnEncoding,
    /// What name and type take in a request to the source database.
    pub request_bytes: usize,
}

pub struct ColumnPlanView {
    pub name: Seq<char>,
    pub type_repr: Seq<char>,
    pub shape: TypeShape,
    pub decimal: Option<DecimalWire>,
    pub encoding: ColumnEncoding,
    pub request_bytes: usize,
}

impl View for ColumnPlan {
    type V = ColumnPlanView;

    open spec fn view(&self) -> ColumnPlanView {
        ColumnPlanView {
            name: self.name@,
            type_repr: self.type_repr@,
            shape: self.ast@,
            decimal: self.decimal,
            encoding: self.encoding,
            request_bytes: self.request_bytes,
        }
    }
}

/// The live source attribute with number `attnum`: the first one that is not
/// dropped.
pub open spec fn live_attr(attrs: Seq<RelAttr>, attnum: i16) -> Option<RelAttr>
    decreases attrs.len(),
{
    if attrs.len() == 0 {
        None
    } else if attrs[0].attnum == attnum && !attrs[0].dropped {
        Some(attrs[0])
    } else {
        live_attr(attrs.subrange(1, attrs.len() as int), attnum)
    }
}

pub fn find_attr<'a>(attrs: &'a Vec<RelAttr>, attnum: i16) -> (r: Option<&'a RelAttr>)
    ensures
        match r {
            Some(a) => live_attr(attrs@, attnum) == Some(*a),
            None => live_attr(attrs@, attnum) is None,
        },
{
    let mut i: usize = 0;
    proof {
        assert(attrs@.subrange(0, attrs@.len() as int) =~= attrs@);
    }
    while i < attrs.len()
        invariant
            i <= attrs@.len(),
            live_attr(attrs@, attnum) == live_attr(
                attrs@.subrange(i as int, attrs@.len() as int),
                attnum,
            ),
        decreases attrs@.len() - i,
    {
        let ghost rest = attrs@.subrange(i as int, attrs@.len() as int);
        proof {
            assert(rest[0] == attrs@[i as int]);
            assert(rest.subrange(1, rest.len() as int) =~= attrs@.subrange(
                i as int + 1,
                attrs@.len() as int,
            ));
        }
        if attrs[i].attnum == attnum && !attrs[i].dropped {
            return Some(&attrs[i]);
        }
        i = i + 1;
    }
    None
}

/// A type's canonical spelling, else the configured one.
pub open spec fn type_text(ast: TypeAst, configured: Seq<char>) -> Seq<char> {
    match ast.name {
        Some(n) => n@,
        None => configured,
    }
}

fn canonical_type(ast: &TypeAst, configured: &str) -> (r: String)
    ensures
        r@ == type_text(*ast, configured@),
{
    match &ast.name {
        Some(n) => n.clone(),
        None => String::from_str(configured),
    }
}

/// The plan of one column, or the error of its target type.
pub open spec fn planned(att: Option<RelAttr>, c: ColumnMappingView, t: ColumnTypes) -> Result<
    ColumnPlanView,
    ErrorView,
> {
    match t.declared {
        Err(e) => Err(ErrorView::Type(c.target_type + ": "@ + e@)),
        Ok(ast) => {
            let default = ColumnPlanView {
                name: c.target_name,
                type_repr: type_text(ast, c.target_type),
                shape: ast@,
                decimal: ast@.decimal(),
                encoding: ColumnEncoding::chosen(att, t.covered, ast@),
                request_bytes: t.request_bytes,
            };
            match (att, t.over) {
                (Some(_), Some((ty, Ok(over)))) => match admissible(ast@, over@) {
                    Some(decimal) => Ok(
                        ColumnPlanView {
                            name: c.target_name,
                            type_repr: type_text(over, ty@),
                            shape: over@,
                            decimal,
                            encoding: ColumnEncoding::chosen(att, t.covered, over@),
                            request_bytes: t.over_request_bytes,
                        },
                    ),
                    None => Ok(default),
                },
                _ => Ok(default),
            }
        },
    }
}

/// Plan one mapped column. An override that does not parse or does not fit
/// the wire is passed over for the default.
fn plan_column(att: Option<&RelAttr>, c: &ColumnMapping, t: &ColumnTypes) -> (r: Result<
    ColumnPlan,
    EmitterError,
>)
    ensures
        ({
            let want = planned(
                match att {
                    Some(a) => Some(*a),
                    None => None,
                },
                c@,
                *t,
            );
            match r {
                Ok(p) => want == Ok::<_, ErrorView>(p@),
                Err(e) => want == Err::<ColumnPlanView, _>(e@),
            }
        }),
{
    let ast: &TypeAst = match &t.declared {
        Ok(ast) => ast,
        Err(e) => {
            let mut m: String = c.target_type.clone();
            m.append(": ");
            m.append(e.as_str());
            return Err(EmitterError::Type(m));
        },
    };
    if att.is_some() {
        if let Some((ty, Ok(over))) = &t.over {
            if let Some(decimal) = override_wire(ast, over) {
                return Ok(
                    ColumnPlan {
                        name: c.target_name.clone(),
                        type_repr: canonical_type(over, ty.as_str()),
                        ast: over.copied(),
                        decimal,
                        encoding: ColumnEncoding::for_column(att, t.covered, over),
                        request_bytes: t.over_request_bytes,
                    },
                );
            }
        }
    }
    Ok(
        ColumnPlan {
            name: c.target_name.clone(),
            type_repr: canonical_type(ast, c.target_type.as_str()),
            ast: ast.copied(),
            decimal: decimal_wire_of(ast),
            encoding: ColumnEncoding::for_column(att, t.covered, ast),
            request_bytes: t.request_bytes,
        },
    )
}

/// Plan of one destination table.
#[derive(Debug)]
pub struct TablePlan {
    pub columns: Vec<ColumnPlan>,
    pub system: SystemColumns,
    /// Rendered once, so that rows do not reassemble it.
    pub insert_sql: String,
}

pub struct TablePlanView {
    pub columns: Seq<ColumnPlanView>,
    pub system: SystemView,
    pub insert_sql: Seq<char>,
}

pub open spec fn plan_views(v: Seq<ColumnPlan>) -> Seq<ColumnPlanView> {
    v.map_values(|c: ColumnPlan| c@)
}

impl View for TablePlan {
    type V = TablePlanView;

    open spec fn view(&self) -> TablePlanView {
        TablePlanView {
            columns: plan_views(self.columns@),
            system: self.system@,
            insert_sql: self.insert_sql@,
        }
    }
}

/// What the columns that the source database renders take in a request,
/// without their cells.
pub open spec fn rendered_bytes(columns: Seq<ColumnPlanView>) -> nat
    decreases columns.len(),
{
    if columns.len() == 0 {
        0
    } else {
        rendered_bytes(columns.drop_last()) + (if columns.last().encoding is Oracle {
            columns.last().request_bytes as nat
        } else {
            0
        })
    }
}

/// The size of a request for the plan's columns without any cell: its frame,
/// and every column that the source database renders.
pub open spec fn overhead_of(plan: TablePlanView, frame: usize) -> usize {
    clamp(frame as nat + rendered_bytes(plan.columns))
}

/// Every name quoted.
pub open spec fn quoted_all(names: Seq<Seq<char>>) -> Seq<Seq<char>> {
    names.map_values(|n: Seq<char>| quoted(n))
}

pub open spec fn target_names(columns: Seq<ColumnMappingView>) -> Seq<Seq<char>> {
    columns.map_values(|c: ColumnMappingView| c.target_name)
}

/// The statement that ships a block.
pub open spec fn insert_text(
    target: Seq<char>,
    columns: Seq<ColumnMappingView>,
    system: SystemView,
) -> Seq<char> {
    "INSERT INTO "@ + target + " ("@ + joined(
        quoted_all(target_names(columns)) + quoted_all(system.names()),
        ", "@,
    ) + ") FORMAT Native"@
}

/// The plan of column `i`.
pub open spec fn planned_at(
    rel: RelDescriptor,
    mapping: TableMapping,
    types: Seq<ColumnTypes>,
    i: int,
) -> Result<ColumnPlanView, ErrorView> {
    planned(
        live_attr(rel.attributes@, mapping.columns@[i].src_attnum),
        mapping.columns@[i]@,
        types[i],
    )
}

/// `p` plans every mapped column, with the statement that ships its block.
pub open spec fn plan_built(
    rel: RelDescriptor,
    mapping: TableMapping,
    types: Seq<ColumnTypes>,
    system: SystemView,
    p: TablePlanView,
) -> bool {
    &&& p.columns.len() == mapping.columns@.len()
    &&& forall|i: int|
        0 <= i < mapping.columns@.len() ==> #[trigger] planned_at(rel, mapping, types, i) == Ok::<
            _,
            ErrorView,
        >(p.columns[i])
    &&& p.system == system
    &&& p.insert_sql == insert_text(mapping.target@.sql(), column_views(mapping.columns@), system)
}

/// `e` is the error of the first column that cannot be planned.
pub open spec fn plan_refused(
    rel: RelDescriptor,
    mapping: TableMapping,
    types: Seq<ColumnTypes>,
    e: ErrorView,
) -> bool {
    exists|i: int|
        {
            &&& 0 <= i < mapping.columns@.len()
            &&& #[trigger] planned_at(rel, mapping, types, i) == Err::<ColumnPlanView, _>(e)
            &&& forall|k: int| 0 <= k < i ==> #[trigger] planned_at(rel, mapping, types, k) is Ok
        }
}

fn push_quoted(out: &mut Vec<String>, name: &str)
    ensures
        views(final(out)@) == views(old(out)@).push(quoted(name@)),
{
    out.push(quote_ident(name));
    proof {
        assert(views(out@) =~= views(old(out)@).push(quoted(name@)));
    }
}

impl TablePlan {
    /// Plan every mapped column and render the insert statement. A mapped
    /// column that the relation does not have is no error: mappings may
    /// declare columns ahead of the schema change that adds them.
    pub fn build(
        rel: &RelDescriptor,
        mapping: &TableMapping,
        types: &Vec<ColumnTypes>,
        system: &SystemColumns,
    ) -> (r: Result<TablePlan, EmitterError>)
        requires
            types@.len() == mapping.columns@.len(),
        ensures
            match r {
                Ok(p) => plan_built(*rel, *mapping, types@, system@, p@),
                Err(e) => plan_refused(*rel, *mapping, types@, e@),
            },
    {
        let mut columns: Vec<ColumnPlan> = Vec::new();
        let mut names: Vec<String> = Vec::new();
        let ghost cols = column_views(mapping.columns@);
        let mut i: usize = 0;
        proof {
            assert(views(names@) =~= quoted_all(target_names(cols.subrange(0, 0))));
        }
        while i < mapping.columns.len()
            invariant
                i <= mapping.columns@.len(),
                types@.len() == mapping.columns@.len(),
                cols == column_views(mapping.columns@),
                columns@.len() == i,
                forall|k: int|
                    0 <= k < i ==> #[trigger] planned_at(*rel, *mapping, types@, k) == Ok::<
                        _,
                        ErrorView,
                    >(columns@[k]@),
                views(names@) == quoted_all(target_names(cols.subrange(0, i as int))),
            decreases mapping.columns@.len() - i,
        {
            let c: &ColumnMapping = &mapping.columns[i];
            let att: Option<&RelAttr> = find_attr(&rel.attributes, c.src_attnum);
            match plan_column(att, c, &types[i]) {
                Ok(p) => {
                    columns.push(p);
                },
                Err(e) => {
                    proof {
                        assert(planned_at(*rel, *mapping, types@, i as int) == Err::<
                            ColumnPlanView,
                            _,
                        >(e@));
                    }
                    return Err(e);
                },
            }
            push_quoted(&mut names, c.target_name.as_str());
            proof {
                assert(quoted_all(target_names(cols.subrange(0, i as int + 1))) =~= quoted_all(
                    target_names(cols.subrange(0, i as int)),
                ).push(quoted(c.target_name@)));
            }
            i = i + 1;
        }
        push_quoted(&mut names, system.lsn.as_str());
        push_quoted(&mut names, system.xid.as_str());
        push_quoted(&mut names, system.commit_ts.as_str());
        if let Some(d) = &system.is_deleted {
            push_quoted(&mut names, d.as_str());
        }
        proof {
            assert(cols.subrange(0, i as int) =~= cols);
            assert(views(names@) =~= quoted_all(target_names(cols)) + quoted_all(system@.names()));
        }
        let mut sql: String = String::from_str("INSERT INTO ");
        sql.append(mapping.target.sql().as_str());
        sql.append(" (");
        sql.append(join(&names, ", ").as_str());
        sql.append(") FORMAT Native");
        let p = TablePlan { columns, system: system.copied(), insert_sql: sql };
        proof {
            assert forall|k: int| 0 <= k < mapping.columns@.len() implies #[trigger] planned_at(
                *rel,
                *mapping,
                types@,
                k,
            ) == Ok::<_, ErrorView>(p@.columns[k]) by {
                assert(p@.columns[k] == p.columns@[k]@);
            }
        }
        Ok(p)
    }

    /// The size of a request for the plan's columns without any cell, given
    /// that of a request without columns.
    pub fn request_overhead(&self, frame: usize) -> (r: usize)
        ensures
            r == overhead_of(self@, frame),
    {
        let ghost cols = self@.columns;
        let mut sum: usize = frame;
        let mut i: usize = 0;
        proof {
            assert(cols.subrange(0, 0) =~= Seq::empty());
        }
        while i < self.columns.len()
            invariant
                i <= self.columns@.len(),
                cols == self@.columns,
                cols.len() == self.columns@.len(),
                sum == clamp(frame as nat + rendered_bytes(cols.subrange(0, i as int))),
            decreases self.columns@.len() - i,
        {
            proof {
                let part = cols.subrange(0, i as int + 1);
                assert(part.drop_last() =~= cols.subrange(0, i as int));
                assert(part.last() == self.columns@[i as int]@);
            }
            if let ColumnEncoding::Oracle { .. } = self.columns[i].encoding {
                sum = sum.saturating_add(self.columns[i].request_bytes);
            }
            i = i + 1;
        }
        proof {
            assert(cols.subrange(0, i as int) =~= cols);
        }
        sum
    }

    /// Some column needs the source database's rendering.
    pub fn needs_oracle(&self) -> (r: bool)
        ensures
            r == exists|i: int|
                0 <= i < self.columns@.len() && (#[trigger] self.columns@[i]).encoding is Oracle,
    {
        let mut i: usize = 0;
        while i < self.columns.len()
            invariant
                i <= self.columns@.len(),
                forall|k: int| 0 <= k < i ==> !((#[trigger] self.columns@[k]).encoding is Oracle),
            decreases self.columns@.len() - i,
        {
            if let ColumnEncoding::Oracle { .. } = self.columns[i].encoding {
                return true;
            }
            i = i + 1;
        }
        false
    }
}

} // verus!
