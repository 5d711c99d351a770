//! Table blocks of a configuration document, and what they resolve to.
use vstd::prelude::*;
use vstd::string::*;

use crate::ddl::config::{find_namespace, namespace_in};
use crate::ddl::snowflake::ColumnRule;
use crate::errors::{EmitterError, ErrorView};
use crate::mapping::{
    column_views, copy_opt, list_view, opt_view, or_else, ColumnMapping, ColumnMappingView,
    InitialLoadMode, MappingView, MatchKind, NamespaceMapping, RuleView, SystemColumnNames,
    TableMapping, TableRule, TableTarget, TargetView,
};
use crate::schema::{RelKey, RelName};
use crate::text::{dec, push_dec};

verus! {

/// One entry of a block's column list. It is keyed either on a column number
/// or on a name.
#[derive(Debug)]
pub struct ColumnPatch {
    pub attnum: Option<i16>,
    pub name: Option<String>,
    pub target: Option<String>,
    pub target_type: Option<String>,
    pub match_kind: Option<MatchKind>,
}

/// What a block says of the relations that it is for.
#[derive(Debug)]
pub struct TablePatch {
    pub replicate: Option<bool>,
    pub target_database: Option<String>,
    pub target_table: Option<String>,
    pub initial_load: Option<InitialLoadMode>,
    pub order_by: Option<Vec<String>>,
    pub primary_key: Option<Vec<String>>,
    pub system: SystemColumnNames,
    /// What is wrong with the names of `system`, if anything is.
    pub system_fault: Option<String>,
    pub match_kind: Option<MatchKind>,
    pub columns: Vec<ColumnPatch>,
}

/// A block with the name that it stands under.
#[derive(Debug)]
pub struct TableBlock {
    pub namespace: String,
    pub name: String,
    pub patch: TablePatch,
}

/// A column rule and the columns that it is for.
#[derive(Debug)]
pub struct ColumnEntry {
    pub rel: RelName,
    pub rel_kind: MatchKind,
    pub attname: String,
    pub att_kind: MatchKind,
    pub rule: ColumnRule,
}

/// A relation that is selected without a projection of its own.
#[derive(Debug)]
pub struct TableRow {
    pub target_database: Option<String>,
    pub target_table: Option<String>,
    pub replicate: Option<bool>,
    pub initial_load: Option<String>,
}

pub struct ColumnEntryView {
    pub rel: RelKey,
    pub rel_kind: MatchKind,
    pub attname: Seq<char>,
    pub att_kind: MatchKind,
    pub target_name: Option<Seq<char>>,
    pub target_type: Option<Seq<char>>,
}

impl View for ColumnEntry {
    type V = ColumnEntryView;

    open spec fn view(&self) -> ColumnEntryView {
        ColumnEntryView {
            rel: self.rel@,
            rel_kind: self.rel_kind,
            attname: self.attname@,
            att_kind: self.att_kind,
            target_name: opt_view(self.rule.target_name),
            target_type: opt_view(self.rule.target_type),
        }
    }
}

pub struct RowView {
    pub target_database: Option<Seq<char>>,
    pub target_table: Option<Seq<char>>,
    pub replicate: Option<bool>,
    pub initial_load: Option<Seq<char>>,
}

impl View for TableRow {
    type V = RowView;

    open spec fn view(&self) -> RowView {
        RowView {
            target_database: opt_view(self.target_database),
            target_table: opt_view(self.target_table),
            replicate: self.replicate,
            initial_load: opt_view(self.initial_load),
        }
    }
}

/// What all blocks resolve to.
#[derive(Debug)]
pub struct TableSection {
    /// Relations with a projection of their own.
    pub tables: Vec<(RelName, TableMapping)>,
    pub table_initial_loads: Vec<(RelName, String)>,
    /// Rules in the order in which they are declared.
    pub table_entries: Vec<(RelName, MatchKind, TableRule)>,
    pub column_entries: Vec<ColumnEntry>,
    pub table_opt_ins: Vec<(RelName, TableRow)>,
}

#[verifier::ext_equal]
pub struct SectionView {
    pub tables: Seq<(RelKey, MappingView)>,
    pub table_initial_loads: Seq<(RelKey, Seq<char>)>,
    pub table_entries: Seq<(RelKey, MatchKind, RuleView)>,
    pub column_entries: Seq<ColumnEntryView>,
    pub table_opt_ins: Seq<(RelKey, RowView)>,
}

pub open spec fn entry_views(v: Seq<ColumnEntry>) -> Seq<ColumnEntryView> {
    v.map_values(|e: ColumnEntry| e@)
}

pub open spec fn table_views(v: Seq<(RelName, TableMapping)>) -> Seq<(RelKey, MappingView)> {
    v.map_values(|e: (RelName, TableMapping)| (e.0@, e.1@))
}

pub open spec fn load_views(v: Seq<(RelName, String)>) -> Seq<(RelKey, Seq<char>)> {
    v.map_values(|e: (RelName, String)| (e.0@, e.1@))
}

pub open spec fn rule_views(v: Seq<(RelName, MatchKind, TableRule)>) -> Seq<
    (RelKey, MatchKind, RuleView),
> {
    v.map_values(|e: (RelName, MatchKind, TableRule)| (e.0@, e.1, e.2@))
}

pub open spec fn row_views(v: Seq<(RelName, TableRow)>) -> Seq<(RelKey, RowView)> {
    v.map_values(|e: (RelName, TableRow)| (e.0@, e.1@))
}

impl View for TableSection {
    type V = SectionView;

    open spec fn view(&self) -> SectionView {
        SectionView {
            tables: table_views(self.tables@),
            table_initial_loads: load_views(self.table_initial_loads@),
            table_entries: rule_views(self.table_entries@),
            column_entries: entry_views(self.column_entries@),
            table_opt_ins: row_views(self.table_opt_ins@),
        }
    }
}

pub open spec fn kind_of(k: Option<MatchKind>) -> MatchKind {
    match k {
        Some(k) => k,
        None => MatchKind::Exact,
    }
}

/// How errors name a block.
pub open spec fn block_context(b: TableBlock) -> Seq<char> {
    "table."@ + b.namespace@ + "."@ + b.name@
}

/// How errors name column `i` of a block.
pub open spec fn column_context(block: Seq<char>, i: nat) -> Seq<char> {
    block + ".columns["@ + dec(i) + "]"@
}

/// What is wrong with a column entry, if anything is. A numbered entry names
/// one column and states it in full; a named one may be a pattern, and then
/// names several columns, which cannot share one target.
pub open spec fn column_fault(ctx: Seq<char>, c: ColumnPatch) -> Option<Seq<char>> {
    match (c.attnum, c.name) {
        (Some(_), Some(_)) => Some(ctx + ": attnum and name are alternatives, not both"@),
        (None, None) => Some(ctx + ": missing attnum or name"@),
        (Some(_), None) => if c.match_kind is Some {
            Some(ctx + ".match: an attnum entry names one column already"@)
        } else if c.target is None {
            Some(ctx + ": missing target"@)
        } else if c.target_type is None {
            Some(ctx + ": missing type"@)
        } else {
            None
        },
        (None, Some(_)) => if c.target is Some && kind_of(c.match_kind) != MatchKind::Exact {
            Some(
                ctx + ".target: a `match = \""@ + kind_of(c.match_kind).text()
                    + "\"` entry can name several columns, which cannot share one target"@,
            )
        } else if c.target is None && c.target_type is None {
            Some(ctx + ": sets neither target nor type"@)
        } else {
            None
        },
    }
}

/// What is wrong with the first faulty entry.
pub open spec fn columns_fault(block: Seq<char>, cols: Seq<ColumnPatch>) -> Option<Seq<char>>
    decreases cols.len(),
{
    if cols.len() == 0 {
        None
    } else {
        match columns_fault(block, cols.drop_last()) {
            Some(m) => Some(m),
            None => column_fault(
                column_context(block, (cols.len() - 1) as nat),
                cols.last(),
            ),
        }
    }
}

/// The projection that the numbered entries pin.
pub open spec fn pinned(cols: Seq<ColumnPatch>) -> Seq<ColumnMappingView>
    decreases cols.len(),
{
    if cols.len() == 0 {
        Seq::empty()
    } else {
        let rest = pinned(cols.drop_last());
        let c = cols.last();
        match (c.attnum, c.target, c.target_type) {
            (Some(src_attnum), Some(n), Some(t)) => rest.push(
                ColumnMappingView { src_attnum, target_name: n@, target_type: t@ },
            ),
            _ => rest,
        }
    }
}

/// The rules that the named entries state.
pub open spec fn named(rel: RelKey, rel_kind: MatchKind, cols: Seq<ColumnPatch>) -> Seq<
    ColumnEntryView,
>
    decreases cols.len(),
{
    if cols.len() == 0 {
        Seq::empty()
    } else {
        let rest = named(rel, rel_kind, cols.drop_last());
        let c = cols.last();
        match c.name {
            Some(n) => rest.push(
                ColumnEntryView {
                    rel,
                    rel_kind,
                    attname: n@,
                    att_kind: kind_of(c.match_kind),
                    target_name: opt_view(c.target),
                    target_type: opt_view(c.target_type),
                },
            ),
            None => rest,
        }
    }
}

pub open spec fn block_rel(b: TableBlock) -> RelKey {
    RelKey { namespace: b.namespace@, name: b.name@ }
}

/// What is wrong with a block, if anything is.
pub open spec fn block_fault(b: TableBlock) -> Option<Seq<char>> {
    let ctx = block_context(b);
    let kind = kind_of(b.patch.match_kind);
    let pins = pinned(b.patch.columns@).len() > 0;
    match b.patch.system_fault {
        Some(m) => Some(m@),
        None => match columns_fault(ctx, b.patch.columns@) {
            Some(m) => Some(m),
            None => if pins && named(block_rel(b), kind, b.patch.columns@).len() > 0 {
                Some(
                    ctx
                        + ".columns: attnum entries pin the whole projection, so a name entry beside them would never apply"@,
                )
            } else if pins && kind != MatchKind::Exact {
                Some(
                    ctx + ".columns: a `match = \""@ + kind.text()
                        + "\"` entry cannot pin attnums; key the entries on `name` instead"@,
                )
            } else {
                None
            },
        },
    }
}

pub open spec fn block_rule(b: TableBlock) -> RuleView {
    RuleView {
        replicate: b.patch.replicate,
        target_database: opt_view(b.patch.target_database),
        target_table: opt_view(b.patch.target_table),
        initial_load: mode_text(b.patch.initial_load),
        order_by: list_view(b.patch.order_by),
        primary_key: list_view(b.patch.primary_key),
        system: b.patch.system@,
    }
}

pub open spec fn mode_text(m: Option<InitialLoadMode>) -> Option<Seq<char>> {
    match m {
        Some(m) => Some(m.text()),
        None => None,
    }
}

/// The database of a pinned relation: its own, else its namespace's, else the
/// default one.
pub open spec fn pinned_database(
    b: TableBlock,
    namespaces: Seq<(String, NamespaceMapping)>,
    database: Seq<char>,
) -> Seq<char> {
    match b.patch.target_database {
        Some(d) => d@,
        None => match namespace_in(namespaces, b.namespace@) {
            Some(n) => or_else(opt_view(n.target_database), database),
            None => database,
        },
    }
}

/// The section with a block that nothing is wrong with. Every block states a
/// rule. A block for one relation also selects it: without a projection as
/// an opt-in, with one as a mapping, unless it is not to be replicated.
pub open spec fn with_block(
    s: SectionView,
    b: TableBlock,
    namespaces: Seq<(String, NamespaceMapping)>,
    database: Seq<char>,
) -> SectionView {
    let rel = block_rel(b);
    let kind = kind_of(b.patch.match_kind);
    let rule = block_rule(b);
    let pins = pinned(b.patch.columns@);
    let stated = SectionView {
        table_entries: s.table_entries.push((rel, kind, rule)),
        column_entries: s.column_entries + named(rel, kind, b.patch.columns@),
        ..s
    };
    if kind != MatchKind::Exact {
        stated
    } else if pins.len() == 0 {
        SectionView {
            table_opt_ins: s.table_opt_ins.push(
                (
                    rel,
                    RowView {
                        target_database: rule.target_database,
                        target_table: rule.target_table,
                        replicate: rule.replicate,
                        initial_load: rule.initial_load,
                    },
                ),
            ),
            ..stated
        }
    } else if rule.replicate == Some(false) {
        stated
    } else {
        SectionView {
            tables: s.tables.push(
                (
                    rel,
                    MappingView {
                        target: TargetView {
                            database: pinned_database(b, namespaces, database),
                            table: or_else(rule.target_table, b.name@),
                        },
                        columns: pins,
                    },
                ),
            ),
            table_initial_loads: match rule.initial_load {
                Some(m) => s.table_initial_loads.push((rel, m)),
                None => s.table_initial_loads,
            },
            ..stated
        }
    }
}

/// The section of all blocks in order, or what is wrong with the first
/// faulty one.
pub open spec fn section_of(
    blocks: Seq<TableBlock>,
    namespaces: Seq<(String, NamespaceMapping)>,
    database: Seq<char>,
) -> Result<SectionView, Seq<char>>
    decreases blocks.len(),
{
    if blocks.len() == 0 {
        Ok(
            SectionView {
                tables: Seq::empty(),
                table_initial_loads: Seq::empty(),
                table_entries: Seq::empty(),
                column_entries: Seq::empty(),
                table_opt_ins: Seq::empty(),
            },
        )
    } else {
        match section_of(blocks.drop_last(), namespaces, database) {
            Err(m) => Err(m),
            Ok(s) => match block_fault(blocks.last()) {
                Some(m) => Err(m),
                None => Ok(with_block(s, blocks.last(), namespaces, database)),
            },
        }
    }
}

fn context_of(b: &TableBlock) -> (r: String)
    ensures
        r@ == block_context(*b),
{
    let mut s: String = String::from_str("table.");
    s.append(b.namespace.as_str());
    s.append(".");
    s.append(b.name.as_str());
    s
}

fn context_of_column(block: &str, i: usize) -> (r: String)
    ensures
        r@ == column_context(block@, i as nat),
{
    let mut s: String = String::from_str(block);
    s.append(".columns[");
    push_dec(&mut s, i as u64);
    s.append("]");
    s
}

fn config_error(ctx: String, text: &str) -> (e: EmitterError)
    ensures
        e@ == ErrorView::Config(ctx@ + text@),
{
    let mut m: String = ctx;
    m.append(text);
    EmitterError::Config(m)
}

/// Check one entry.
fn check_column(ctx: String, c: &ColumnPatch) -> (r: Result<(), EmitterError>)
    ensures
        match column_fault(ctx@, *c) {
            Some(m) => r is Err && r->Err_0@ == ErrorView::Config(m),
            None => r is Ok,
        },
{
    let kind: MatchKind = match c.match_kind {
        Some(k) => k,
        None => MatchKind::Exact,
    };
    match (&c.attnum, &c.name) {
        (Some(_), Some(_)) => Err(
            config_error(ctx, ": attnum and name are alternatives, not both"),
        ),
        (None, None) => Err(config_error(ctx, ": missing attnum or name")),
        (Some(_), None) => {
            if c.match_kind.is_some() {
                return Err(config_error(ctx, ".match: an attnum entry names one column already"));
            }
            if c.target.is_none() {
                return Err(config_error(ctx, ": missing target"));
            }
            if c.target_type.is_none() {
                return Err(config_error(ctx, ": missing type"));
            }
            Ok(())
        },
        (None, Some(_)) => {
            if c.target.is_some() && kind != MatchKind::Exact {
                let mut m: String = ctx;
                m.append(".target: a `match = \"");
                m.append(kind.as_str());
                m.append("\"` entry can name several columns, which cannot share one target");
                return Err(EmitterError::Config(m));
            }
            if c.target.is_none() && c.target_type.is_none() {
                return Err(config_error(ctx, ": sets neither target nor type"));
            }
            Ok(())
        },
    }
}

/// Split a block's entries into the projection that is pinned and the rules
/// that are stated.
fn split_columns(rel: &RelName, rel_kind: MatchKind, block: &str, columns: Vec<ColumnPatch>) -> (r:
    Result<(Vec<ColumnMapping>, Vec<ColumnEntry>), EmitterError>)
    ensures
        match columns_fault(block@, columns@) {
            Some(m) => r is Err && r->Err_0@ == ErrorView::Config(m),
            None => match r {
                Ok((pins, names)) => column_views(pins@) == pinned(columns@) && entry_views(names@)
                    == named(rel@, rel_kind, columns@),
                Err(_) => false,
            },
        },
{
    let ghost all = columns@;
    let n: usize = columns.len();
    let mut pins: Vec<ColumnMapping> = Vec::new();
    let mut names: Vec<ColumnEntry> = Vec::new();
    let mut i: usize = 0;
    proof {
        assert(all.subrange(0, 0) =~= Seq::empty());
        assert(column_views(pins@) =~= Seq::empty());
        assert(entry_views(names@) =~= Seq::empty());
    }
    for c in iter: columns
        invariant
            iter.seq() == all,
            i == iter.index(),
            i <= n == all.len(),
            columns_fault(block@, all.subrange(0, i as int)) is None,
            column_views(pins@) == pinned(all.subrange(0, i as int)),
            entry_views(names@) == named(rel@, rel_kind, all.subrange(0, i as int)),
    {
        let ghost next = all.subrange(0, i as int + 1);
        let ghost pins0 = pins@;
        let ghost names0 = names@;
        proof {
            assert(next.drop_last() =~= all.subrange(0, i as int));
            assert(next.last() == all[i as int]);
            assert(c == all[i as int]);
        }
        let ctx: String = context_of_column(block, i);
        if let Err(e) = check_column(ctx, &c) {
            proof {
                lemma_fault_stays(block@, all, i as int + 1);
            }
            return Err(e);
        }
        match (c.attnum, c.name) {
            (Some(src_attnum), _) => {
                if let (Some(target_name), Some(target_type)) = (c.target, c.target_type) {
                    pins.push(ColumnMapping { src_attnum, target_name, target_type });
                    proof {
                        assert(column_views(pins@) =~= column_views(pins0).push(pins@.last()@));
                    }
                }
            },
            (None, Some(attname)) => {
                names.push(
                    ColumnEntry {
                        rel: rel.copied(),
                        rel_kind,
                        attname,
                        att_kind: match c.match_kind {
                            Some(k) => k,
                            None => MatchKind::Exact,
                        },
                        rule: ColumnRule { target_name: c.target, target_type: c.target_type },
                    },
                );
                proof {
                    assert(entry_views(names@) =~= entry_views(names0).push(names@.last()@));
                }
            },
            (None, None) => {},
        }
        i = i + 1;
    }
    proof {
        assert(all.subrange(0, i as int) =~= all);
    }
    Ok((pins, names))
}

proof fn lemma_fault_stays(block: Seq<char>, cols: Seq<ColumnPatch>, i: int)
    requires
        0 <= i <= cols.len(),
        columns_fault(block, cols.subrange(0, i)) is Some,
    ensures
        columns_fault(block, cols) == columns_fault(block, cols.subrange(0, i)),
    decreases cols.len() - i,
{
    if i < cols.len() {
        assert(cols.subrange(0, i + 1).drop_last() =~= cols.subrange(0, i));
        lemma_fault_stays(block, cols, i + 1);
    } else {
        assert(cols.subrange(0, i) =~= cols);
    }
}

fn mode_string(m: Option<InitialLoadMode>) -> (r: Option<String>)
    ensures
        opt_view(r) == mode_text(m),
{
    match m {
        Some(m) => Some(String::from_str(m.as_str())),
        None => None,
    }
}

impl TableSection {
    pub fn new() -> (r: Self)
        ensures
            forall|ns: Seq<(String, NamespaceMapping)>, d: Seq<char>|
                Ok::<SectionView, Seq<char>>(r@) == #[trigger] section_of(Seq::empty(), ns, d),
    {
        let r = TableSection {
            tables: Vec::new(),
            table_initial_loads: Vec::new(),
            table_entries: Vec::new(),
            column_entries: Vec::new(),
            table_opt_ins: Vec::new(),
        };
        proof {
            assert(r@.tables =~= Seq::empty());
            assert(r@.table_initial_loads =~= Seq::empty());
            assert(r@.table_entries =~= Seq::empty());
            assert(r@.column_entries =~= Seq::empty());
            assert(r@.table_opt_ins =~= Seq::empty());
        }
        r
    }

    /// Take a block in.
    pub fn add_block(
        &mut self,
        b: TableBlock,
        namespaces: &Vec<(String, NamespaceMapping)>,
        database: &str,
    ) -> (r: Result<(), EmitterError>)
        ensures
            match block_fault(b) {
                Some(m) => r is Err && r->Err_0@ == ErrorView::Config(m) && *final(self) == *old(
                    self,
                ),
                None => r is Ok && final(self)@ == with_block(
                    old(self)@,
                    b,
                    namespaces@,
                    database@,
                ),
            },
    {
        let ghost pre = *self;
        let ctx: String = context_of(&b);
        let rel: RelName = RelName::new(b.namespace.as_str(), b.name.as_str());
        let kind: MatchKind = match b.patch.match_kind {
            Some(k) => k,
            None => MatchKind::Exact,
        };
        if let Some(m) = b.patch.system_fault {
            return Err(EmitterError::Config(m));
        }
        let t: TablePatch = b.patch;
        let replicate: Option<bool> = t.replicate;
        let initial_load: Option<String> = mode_string(t.initial_load);
        let target_database: Option<String> = copy_opt(&t.target_database);
        let target_table: Option<String> = copy_opt(&t.target_table);
        let (pins, names) = match split_columns(&rel, kind, ctx.as_str(), t.columns) {
            Ok(x) => x,
            Err(e) => {
                return Err(e);
            },
        };
        proof {
            assert(column_views(pins@).len() == pins@.len());
            assert(entry_views(names@).len() == names@.len());
        }
        if pins.len() > 0 && names.len() > 0 {
            return Err(
                config_error(
                    ctx,
                    ".columns: attnum entries pin the whole projection, so a name entry beside them would never apply",
                ),
            );
        }
        if pins.len() > 0 && kind != MatchKind::Exact {
            let mut m: String = ctx;
            m.append(".columns: a `match = \"");
            m.append(kind.as_str());
            m.append("\"` entry cannot pin attnums; key the entries on `name` instead");
            return Err(EmitterError::Config(m));
        }
        let rule = TableRule {
            replicate,
            target_database: t.target_database,
            target_table: t.target_table,
            initial_load: copy_opt(&initial_load),
            order_by: t.order_by,
            primary_key: t.primary_key,
            system: t.system,
        };
        let mut names: Vec<ColumnEntry> = names;
        let ghost names0 = names@;
        self.table_entries.push((rel.copied(), kind, rule));
        self.column_entries.append(&mut names);
        proof {
            assert(rule_views(self.table_entries@) =~= rule_views(pre.table_entries@).push(
                (rel@, kind, rule@),
            ));
            assert(entry_views(self.column_entries@) =~= entry_views(pre.column_entries@)
                + entry_views(names0));
        }
        if kind != MatchKind::Exact {
            return Ok(());
        }
        if pins.len() == 0 {
            let row = TableRow { target_database, target_table, replicate, initial_load };
            let ghost rv = row@;
            self.table_opt_ins.push((rel, row));
            proof {
                assert(row_views(self.table_opt_ins@) =~= row_views(pre.table_opt_ins@).push(
                    (rel@, rv),
                ));
            }
            return Ok(());
        }
        if let Some(false) = replicate {
            return Ok(());
        }
        let database: String = match target_database {
            Some(d) => d,
            None => match find_namespace(namespaces, b.namespace.as_str()) {
                Some(n) => match &n.target_database {
                    Some(d) => d.clone(),
                    None => String::from_str(database),
                },
                None => String::from_str(database),
            },
        };
        let table: String = match target_table {
            Some(t) => t,
            None => b.name,
        };
        let mapping = TableMapping { target: TableTarget { database, table }, columns: pins };
        let ghost mv = mapping@;
        self.tables.push((rel.copied(), mapping));
        proof {
            assert(table_views(self.tables@) =~= table_views(pre.tables@).push((rel@, mv)));
        }
        if let Some(mode) = initial_load {
            self.table_initial_loads.push((rel, mode));
            proof {
                assert(load_views(self.table_initial_loads@) =~= load_views(
                    pre.table_initial_loads@,
                ).push((rel@, mode@)));
            }
        }
        Ok(())
    }
}

proof fn lemma_section_fault_stays(
    blocks: Seq<TableBlock>,
    namespaces: Seq<(String, NamespaceMapping)>,
    database: Seq<char>,
    i: int,
)
    requires
        0 <= i <= blocks.len(),
        section_of(blocks.subrange(0, i), namespaces, database) is Err,
    ensures
        section_of(blocks, namespaces, database) == section_of(
            blocks.subrange(0, i),
            namespaces,
            database,
        ),
    decreases blocks.len() - i,
{
    if i < blocks.len() {
        assert(blocks.subrange(0, i + 1).drop_last() =~= blocks.subrange(0, i));
        lemma_section_fault_stays(blocks, namespaces, database, i + 1);
    } else {
        assert(blocks.subrange(0, i) =~= blocks);
    }
}

/// Resolve the blocks in order.
pub fn resolve_tables(
    blocks: Vec<TableBlock>,
    namespaces: &Vec<(String, NamespaceMapping)>,
    database: &str,
) -> (r: Result<TableSection, EmitterError>)
    ensures
        match section_of(blocks@, namespaces@, database@) {
            Ok(s) => r is Ok && r->Ok_0@ == s,
            Err(m) => r is Err && r->Err_0@ == ErrorView::Config(m),
        },
{
    let ghost all = blocks@;
    let n: usize = blocks.len();
    let mut out = TableSection::new();
    let mut i: usize = 0;
    proof {
        assert(all.subrange(0, 0) =~= Seq::empty());
    }
    for b in iter: blocks
        invariant
            iter.seq() == all,
            i == iter.index(),
            i <= n == all.len(),
            section_of(all.subrange(0, i as int), namespaces@, database@) == Ok::<
                SectionView,
                Seq<char>,
            >(out@),
    {
        proof {
            let next = all.subrange(0, i as int + 1);
            assert(next.drop_last() =~= all.subrange(0, i as int));
            assert(next.last() == all[i as int]);
            assert(b == all[i as int]);
        }
        if let Err(e) = out.add_block(b, namespaces, database) {
            proof {
                lemma_section_fault_stays(all, namespaces@, database@, i as int + 1);
            }
            return Err(e);
        }
        i = i + 1;
    }
    proof {
        assert(all.subrange(0, i as int) =~= all);
    }
    Ok(out)
}

/// No two blocks have one name.
pub open spec fn blocks_distinct(blocks: Seq<TableBlock>) -> bool {
    forall|i: int, j: int|
        0 <= i < j < blocks.len() ==> block_rel(#[trigger] blocks[i]) != block_rel(
            #[trigger] blocks[j],
        )
}

/// No two entries are of one relation.
pub open spec fn keys_distinct<V>(list: Seq<(RelKey, V)>) -> bool {
    forall|i: int, j: int| 0 <= i < j < list.len() ==> (#[trigger] list[i]).0 != (#[trigger] list[j]).0
}

/// Every entry is of a block's relation.
pub open spec fn keys_among<V>(list: Seq<(RelKey, V)>, blocks: Seq<TableBlock>) -> bool {
    forall|i: int| 0 <= i < list.len() ==> block_names(blocks, (#[trigger] list[i]).0)
}

pub open spec fn block_names(blocks: Seq<TableBlock>, rel: RelKey) -> bool {
    exists|j: int| 0 <= j < blocks.len() && block_rel(#[trigger] blocks[j]) == rel
}

proof fn lemma_names_push(blocks: Seq<TableBlock>, rel: RelKey)
    requires
        blocks.len() > 0,
        block_names(blocks.drop_last(), rel),
    ensures
        block_names(blocks, rel),
        blocks_distinct(blocks) ==> rel != block_rel(blocks.last()),
{
    let rest = blocks.drop_last();
    let j = choose|j: int| 0 <= j < rest.len() && block_rel(#[trigger] rest[j]) == rel;
    assert(block_rel(blocks[j]) == rel);
    assert(blocks[blocks.len() - 1] == blocks.last());
}

/// An entry of the last block's relation repeats no earlier one.
proof fn lemma_entry_added<V>(list: Seq<(RelKey, V)>, next: Seq<(RelKey, V)>, blocks: Seq<TableBlock>)
    requires
        blocks.len() > 0,
        blocks_distinct(blocks),
        keys_distinct(list),
        keys_among(list, blocks.drop_last()),
        next == list || (next.len() == list.len() + 1 && next.drop_last() == list
            && next.last().0 == block_rel(blocks.last())),
    ensures
        keys_distinct(next),
        keys_among(next, blocks),
{
    assert forall|i: int| 0 <= i < next.len() implies block_names(blocks, (#[trigger] next[i]).0)
        && (i < list.len() ==> next[i] == list[i] && next[i].0 != block_rel(blocks.last())) by {
        if i < list.len() {
            assert(next[i] == list[i]);
            lemma_names_push(blocks, list[i].0);
        } else {
            assert(block_rel(blocks[blocks.len() - 1]) == next[i].0);
        }
    }
}

/// A relation has at most one mapping, one way to be loaded and one opt-in,
/// given that no two blocks have one name.
pub proof fn relations_are_configured_once(
    blocks: Seq<TableBlock>,
    namespaces: Seq<(String, NamespaceMapping)>,
    database: Seq<char>,
)
    requires
        blocks_distinct(blocks),
    ensures
        match section_of(blocks, namespaces, database) {
            Ok(s) => {
                &&& keys_distinct(s.tables) && keys_among(s.tables, blocks)
                &&& keys_distinct(s.table_initial_loads) && keys_among(
                    s.table_initial_loads,
                    blocks,
                )
                &&& keys_distinct(s.table_opt_ins) && keys_among(s.table_opt_ins, blocks)
            },
            Err(_) => true,
        },
    decreases blocks.len(),
{
    if blocks.len() > 0 {
        let rest = blocks.drop_last();
        assert forall|i: int, j: int| 0 <= i < j < rest.len() implies block_rel(
            #[trigger] rest[i],
        ) != block_rel(#[trigger] rest[j]) by {
            assert(block_rel(blocks[i]) != block_rel(blocks[j]));
        }
        relations_are_configured_once(rest, namespaces, database);
        match section_of(rest, namespaces, database) {
            Ok(s) => {
                let t = with_block(s, blocks.last(), namespaces, database);
                assert(t.tables == s.tables || t.tables.drop_last() =~= s.tables);
                assert(t.table_initial_loads == s.table_initial_loads
                    || t.table_initial_loads.drop_last() =~= s.table_initial_loads);
                assert(t.table_opt_ins == s.table_opt_ins || t.table_opt_ins.drop_last()
                    =~= s.table_opt_ins);
                lemma_entry_added(s.tables, t.tables, blocks);
                lemma_entry_added(s.table_initial_loads, t.table_initial_loads, blocks);
                lemma_entry_added(s.table_opt_ins, t.table_opt_ins, blocks);
            },
            Err(_) => {},
        }
    }
}

/// A block whose name is a pattern only states rules: it maps no relation and
/// queues no opt-in.
pub proof fn pattern_block_only_states_rules(
    s: SectionView,
    b: TableBlock,
    namespaces: Seq<(String, NamespaceMapping)>,
    database: Seq<char>,
)
    requires
        kind_of(b.patch.match_kind) != MatchKind::Exact,
    ensures
        with_block(s, b, namespaces, database).tables == s.tables,
        with_block(s, b, namespaces, database).table_initial_loads == s.table_initial_loads,
        with_block(s, b, namespaces, database).table_opt_ins == s.table_opt_ins,
        with_block(s, b, namespaces, database).table_entries.last().1 == kind_of(
            b.patch.match_kind,
        ),
{
}

/// A block that opts its relation out maps nothing and loads nothing.
pub proof fn opted_out_block_maps_nothing(
    s: SectionView,
    b: TableBlock,
    namespaces: Seq<(String, NamespaceMapping)>,
    database: Seq<char>,
)
    requires
        b.patch.replicate == Some(false),
    ensures
        with_block(s, b, namespaces, database).tables == s.tables,
        with_block(s, b, namespaces, database).table_initial_loads == s.table_initial_loads,
{
}

} // verus!
