//! Where a relation's rows go, and under which names.
use vstd::prelude::*;
use vstd::string::*;

use crate::schema::{RelKey, RelName};
use crate::text::{lowered, quote_target, quoted_target, str_eq, to_lower, views};

verus! {

/// A destination table.
#[derive(Debug)]
pub struct TableTarget {
    pub database: String,
    pub table: String,
}

pub struct TargetView {
    pub database: Seq<char>,
    pub table: Seq<char>,
}

impl View for TableTarget {
    type V = TargetView;

    open spec fn view(&self) -> TargetView {
        TargetView { database: self.database@, table: self.table@ }
    }
}

impl TargetView {
    /// The table as SQL names it.
    pub open spec fn sql(self) -> Seq<char> {
        quoted_target(self.database, self.table)
    }

    /// `database.table`.
    pub open spec fn text(self) -> Seq<char> {
        self.database + "."@ + self.table
    }
}

impl TableTarget {
    pub fn new(database: &str, table: &str) -> (r: TableTarget)
        ensures
            r@ == (TargetView { database: database@, table: table@ }),
    {
        TableTarget { database: String::from_str(database), table: String::from_str(table) }
    }

    pub fn sql(&self) -> (s: String)
        ensures
            s@ == self@.sql(),
    {
        quote_target(self.database.as_str(), self.table.as_str())
    }

    pub fn to_text(&self) -> (s: String)
        ensures
            s@ == self@.text(),
    {
        let mut s: String = self.database.clone();
        s.append(".");
        s.append(self.table.as_str());
        s
    }

    pub fn same(&self, other: &TableTarget) -> (r: bool)
        ensures
            r == (self@ == other@),
    {
        str_eq(self.database.as_str(), other.database.as_str()) && str_eq(
            self.table.as_str(),
            other.table.as_str(),
        )
    }

    pub fn copied(&self) -> (r: TableTarget)
        ensures
            r@ == self@,
    {
        TableTarget { database: self.database.clone(), table: self.table.clone() }
    }
}

/// One destination column and the source column that fills it.
#[derive(Debug)]
pub struct ColumnMapping {
    pub src_attnum: i16,
    pub target_name: String,
    pub target_type: String,
}

pub struct ColumnMappingView {
    pub src_attnum: i16,
    pub target_name: Seq<char>,
    pub target_type: Seq<char>,
}

impl View for ColumnMapping {
    type V = ColumnMappingView;

    open spec fn view(&self) -> ColumnMappingView {
        ColumnMappingView {
            src_attnum: self.src_attnum,
            target_name: self.target_name@,
            target_type: self.target_type@,
        }
    }
}

impl ColumnMapping {
    pub fn copied(&self) -> (r: ColumnMapping)
        ensures
            r@ == self@,
    {
        ColumnMapping {
            src_attnum: self.src_attnum,
            target_name: self.target_name.clone(),
            target_type: self.target_type.clone(),
        }
    }
}

/// A relation's route: its destination and the columns that are shipped.
#[derive(Debug)]
pub struct TableMapping {
    pub target: TableTarget,
    pub columns: Vec<ColumnMapping>,
}

pub struct MappingView {
    pub target: TargetView,
    pub columns: Seq<ColumnMappingView>,
}

pub open spec fn column_views(v: Seq<ColumnMapping>) -> Seq<ColumnMappingView> {
    v.map_values(|c: ColumnMapping| c@)
}

impl View for TableMapping {
    type V = MappingView;

    open spec fn view(&self) -> MappingView {
        MappingView { target: self.target@, columns: column_views(self.columns@) }
    }
}

pub fn copy_columns(v: &Vec<ColumnMapping>) -> (r: Vec<ColumnMapping>)
    ensures
        column_views(r@) == column_views(v@),
{
    let mut r: Vec<ColumnMapping> = Vec::new();
    let mut i: usize = 0;
    while i < v.len()
        invariant
            i <= v@.len(),
            column_views(r@) == column_views(v@.subrange(0, i as int)),
        decreases v@.len() - i,
    {
        let ghost before = r@;
        r.push(v[i].copied());
        proof {
            assert(column_views(r@) =~= column_views(before).push(v@[i as int]@));
            assert(column_views(v@.subrange(0, i as int + 1)) =~= column_views(
                v@.subrange(0, i as int),
            ).push(v@[i as int]@));
        }
        i = i + 1;
    }
    proof {
        assert(v@.subrange(0, i as int) =~= v@);
    }
    r
}

impl TableMapping {
    pub fn copied(&self) -> (r: TableMapping)
        ensures
            r@ == self@,
    {
        TableMapping { target: self.target.copied(), columns: copy_columns(&self.columns) }
    }
}

/// Names of the columns that every destination table has besides its own, and
/// whether the delete marker exists.
#[derive(Debug)]
pub struct SystemColumns {
    pub lsn: String,
    pub xid: String,
    pub commit_ts: String,
    pub is_deleted: Option<String>,
}

pub struct SystemView {
    pub lsn: Seq<char>,
    pub xid: Seq<char>,
    pub commit_ts: Seq<char>,
    pub is_deleted: Option<Seq<char>>,
}

pub open spec fn opt_view(s: Option<String>) -> Option<Seq<char>> {
    match s {
        Some(x) => Some(x@),
        None => None,
    }
}

impl View for SystemColumns {
    type V = SystemView;

    open spec fn view(&self) -> SystemView {
        SystemView {
            lsn: self.lsn@,
            xid: self.xid@,
            commit_ts: self.commit_ts@,
            is_deleted: opt_view(self.is_deleted),
        }
    }
}

pub open spec fn default_system() -> SystemView {
    SystemView {
        lsn: "_lsn"@,
        xid: "_xid"@,
        commit_ts: "_commit_ts"@,
        is_deleted: Some("_is_deleted"@),
    }
}

impl Default for SystemColumns {
    fn default() -> (r: Self)
        ensures
            r@ == default_system(),
    {
        SystemColumns {
            lsn: String::from_str("_lsn"),
            xid: String::from_str("_xid"),
            commit_ts: String::from_str("_commit_ts"),
            is_deleted: Some(String::from_str("_is_deleted")),
        }
    }
}

impl SystemView {
    /// The names in table order.
    pub open spec fn names(self) -> Seq<Seq<char>> {
        let base = seq![self.lsn, self.xid, self.commit_ts];
        match self.is_deleted {
            Some(d) => base.push(d),
            None => base,
        }
    }
}

impl SystemColumns {
    pub fn copied(&self) -> (r: SystemColumns)
        ensures
            r@ == self@,
    {
        SystemColumns {
            lsn: self.lsn.clone(),
            xid: self.xid.clone(),
            commit_ts: self.commit_ts.clone(),
            is_deleted: match &self.is_deleted {
                Some(d) => Some(d.clone()),
                None => None,
            },
        }
    }
}

/// A relation's own names for the appended columns; an empty delete marker
/// drops the column.
#[derive(Debug)]
pub struct SystemColumnNames {
    pub lsn: Option<String>,
    pub xid: Option<String>,
    pub commit_ts: Option<String>,
    pub is_deleted: Option<String>,
}

impl SystemColumnNames {
    /// The names in force over the cluster-wide ones.
    pub open spec fn over(&self, base: SystemView) -> SystemView {
        SystemView {
            lsn: or_else(opt_view(self.lsn), base.lsn),
            xid: or_else(opt_view(self.xid), base.xid),
            commit_ts: or_else(opt_view(self.commit_ts), base.commit_ts),
            is_deleted: match opt_view(self.is_deleted) {
                Some(n) => if n.len() == 0 {
                    None
                } else {
                    Some(n)
                },
                None => base.is_deleted,
            },
        }
    }
}

pub open spec fn or_else(o: Option<Seq<char>>, base: Seq<char>) -> Seq<char> {
    match o {
        Some(s) => s,
        None => base,
    }
}

/// A copy of an optional string.
pub fn copy_opt(s: &Option<String>) -> (r: Option<String>)
    ensures
        opt_view(r) == opt_view(*s),
{
    match s {
        Some(x) => Some(x.clone()),
        None => None,
    }
}

pub fn or_clone(o: &Option<String>, base: &str) -> (r: String)
    ensures
        r@ == or_else(opt_view(*o), base@),
{
    match o {
        Some(s) => s.clone(),
        None => String::from_str(base),
    }
}

/// What happens to a destination when its source table is dropped.
#[derive(Clone, Copy, Debug, PartialEq, Eq, Structural)]
pub enum DropTableStrategy {
    Retain,
    Warn,
    Drop,
}

impl DropTableStrategy {
    /// The strategy that `s` names, in any case.
    pub open spec fn named(s: Seq<char>) -> Option<DropTableStrategy> {
        let l = lowered(s);
        if l == "retain"@ {
            Some(DropTableStrategy::Retain)
        } else if l == "warn"@ {
            Some(DropTableStrategy::Warn)
        } else if l == "drop"@ {
            Some(DropTableStrategy::Drop)
        } else {
            None
        }
    }

    pub fn parse(s: &str) -> (r: Result<DropTableStrategy, String>)
        ensures
            match r {
                Ok(d) => Self::named(s@) == Some(d),
                Err(m) => Self::named(s@) is None && m@ == "unknown drop_table_strategy `"@ + s@
                    + "`; expected retain, warn or drop"@,
            },
    {
        let l: String = to_lower(s);
        if str_eq(l.as_str(), "retain") {
            return Ok(DropTableStrategy::Retain);
        }
        if str_eq(l.as_str(), "warn") {
            return Ok(DropTableStrategy::Warn);
        }
        if str_eq(l.as_str(), "drop") {
            return Ok(DropTableStrategy::Drop);
        }
        let mut m: String = String::from_str("unknown drop_table_strategy `");
        m.append(s);
        m.append("`; expected retain, warn or drop");
        Err(m)
    }
}

/// A namespace's overrides.
#[derive(Debug)]
pub struct NamespaceMapping {
    pub target_database: Option<String>,
    pub auto_create: bool,
    pub drop_table_strategy: Option<DropTableStrategy>,
    pub initial_load: Option<InitialLoadMode>,
}

/// How a newly selected relation gets its existing rows.
#[derive(Clone, Copy, Debug, PartialEq, Eq, Structural)]
pub enum InitialLoadMode {
    Off,
    Copy,
    BaseBackup,
    ObjectStore,
}

impl InitialLoadMode {
    /// The mode's name in configuration.
    pub open spec fn text(self) -> Seq<char> {
        match self {
            InitialLoadMode::Off => "none"@,
            InitialLoadMode::Copy => "copy"@,
            InitialLoadMode::BaseBackup => "base_backup"@,
            InitialLoadMode::ObjectStore => "object_store"@,
        }
    }

    pub fn as_str(self) -> (r: &'static str)
        ensures
            r@ == self.text(),
    {
        match self {
            InitialLoadMode::Off => "none",
            InitialLoadMode::Copy => "copy",
            InitialLoadMode::BaseBackup => "base_backup",
            InitialLoadMode::ObjectStore => "object_store",
        }
    }
}

/// Operator settings of one relation.
#[derive(Debug)]
pub struct TableRule {
    pub replicate: Option<bool>,
    pub target_database: Option<String>,
    pub target_table: Option<String>,
    /// Name of the mode in which existing rows are loaded.
    pub initial_load: Option<String>,
    pub order_by: Option<Vec<String>>,
    pub primary_key: Option<Vec<String>>,
    pub system: SystemColumnNames,
}

/// How a rule's name picks what the rule is for.
#[derive(Clone, Copy, Debug, PartialEq, Eq, Structural)]
pub enum MatchKind {
    Exact,
    Glob,
    Regex,
}

impl MatchKind {
    /// The kind's name in configuration.
    pub open spec fn text(self) -> Seq<char> {
        match self {
            MatchKind::Exact => "exact"@,
            MatchKind::Glob => "glob"@,
            MatchKind::Regex => "regex"@,
        }
    }

    pub fn as_str(self) -> (r: &'static str)
        ensures
            r@ == self.text(),
    {
        match self {
            MatchKind::Exact => "exact",
            MatchKind::Glob => "glob",
            MatchKind::Regex => "regex",
        }
    }
}

/// Own names for the appended columns, as a mathematical value.
pub struct NamesView {
    pub lsn: Option<Seq<char>>,
    pub xid: Option<Seq<char>>,
    pub commit_ts: Option<Seq<char>>,
    pub is_deleted: Option<Seq<char>>,
}

impl View for SystemColumnNames {
    type V = NamesView;

    open spec fn view(&self) -> NamesView {
        NamesView {
            lsn: opt_view(self.lsn),
            xid: opt_view(self.xid),
            commit_ts: opt_view(self.commit_ts),
            is_deleted: opt_view(self.is_deleted),
        }
    }
}

pub struct RuleView {
    pub replicate: Option<bool>,
    pub target_database: Option<Seq<char>>,
    pub target_table: Option<Seq<char>>,
    pub initial_load: Option<Seq<char>>,
    pub order_by: Option<Seq<Seq<char>>>,
    pub primary_key: Option<Seq<Seq<char>>>,
    pub system: NamesView,
}

pub open spec fn list_view(v: Option<Vec<String>>) -> Option<Seq<Seq<char>>> {
    match v {
        Some(x) => Some(views(x@)),
        None => None,
    }
}

impl View for TableRule {
    type V = RuleView;

    open spec fn view(&self) -> RuleView {
        RuleView {
            replicate: self.replicate,
            target_database: opt_view(self.target_database),
            target_table: opt_view(self.target_table),
            initial_load: opt_view(self.initial_load),
            order_by: list_view(self.order_by),
            primary_key: list_view(self.primary_key),
            system: self.system@,
        }
    }
}

impl Default for SystemColumnNames {
    fn default() -> (r: Self)
        ensures
            r == (SystemColumnNames { lsn: None, xid: None, commit_ts: None, is_deleted: None }),
    {
        SystemColumnNames { lsn: None, xid: None, commit_ts: None, is_deleted: None }
    }
}

impl Default for TableRule {
    fn default() -> (r: Self)
        ensures
            r == (TableRule {
                replicate: None,
                target_database: None,
                target_table: None,
                initial_load: None,
                order_by: None,
                primary_key: None,
                system: SystemColumnNames { lsn: None, xid: None, commit_ts: None, is_deleted: None },
            }),
    {
        TableRule {
            replicate: None,
            target_database: None,
            target_table: None,
            initial_load: None,
            order_by: None,
            primary_key: None,
            system: SystemColumnNames { lsn: None, xid: None, commit_ts: None, is_deleted: None },
        }
    }
}

impl TableRule {
    /// The appended columns of the relation.
    pub fn system_columns(&self, base: &SystemColumns) -> (r: SystemColumns)
        ensures
            r@ == self.system.over(base@),
    {
        SystemColumns {
            lsn: or_clone(&self.system.lsn, base.lsn.as_str()),
            xid: or_clone(&self.system.xid, base.xid.as_str()),
            commit_ts: or_clone(&self.system.commit_ts, base.commit_ts.as_str()),
            is_deleted: match &self.system.is_deleted {
                Some(n) => if n.as_str().is_empty() {
                    None
                } else {
                    Some(n.clone())
                },
                None => match &base.is_deleted {
                    Some(d) => Some(d.clone()),
                    None => None,
                },
            },
        }
    }
}

/// A frozen routing map: every relation at most once.
#[derive(Debug)]
pub struct RouteMap {
    pub entries: Vec<(RelName, TableMapping)>,
}

impl RouteMap {
    /// No relation has two routes.
    pub open spec fn wf(&self) -> bool {
        forall|i: int, j: int|
            0 <= i < j < self.entries@.len() ==> (#[trigger] self.entries@[i]).0@ != (
            #[trigger] self.entries@[j]).0@
    }

    /// The relation's route, if it has one.
    pub open spec fn route(&self, rel: RelKey) -> Option<MappingView> {
        route_in(self.entries@, rel)
    }

    pub fn get(&self, rel: &RelName) -> (r: Option<&TableMapping>)
        ensures
            match r {
                Some(m) => self.route(rel@) == Some(m@),
                None => self.route(rel@) is None,
            },
    {
        let mut i: usize = self.entries.len();
        proof {
            assert(self.entries@.subrange(0, i as int) =~= self.entries@);
        }
        while i > 0
            invariant
                i <= self.entries@.len(),
                route_in(self.entries@, rel@) == route_in(
                    self.entries@.subrange(0, i as int),
                    rel@,
                ),
            decreases i,
        {
            let ghost part = self.entries@.subrange(0, i as int);
            proof {
                assert(part.drop_last() =~= self.entries@.subrange(0, i - 1));
                assert(part.last() == self.entries@[i - 1]);
            }
            if self.entries[i - 1].0.same(rel) {
                return Some(&self.entries[i - 1].1);
            }
            i = i - 1;
        }
        None
    }

    pub fn contains_key(&self, rel: &RelName) -> (r: bool)
        ensures
            r == (self.route(rel@) is Some),
    {
        self.get(rel).is_some()
    }
}

/// The last entry of `rel` counts.
pub open spec fn route_in(entries: Seq<(RelName, TableMapping)>, rel: RelKey) -> Option<MappingView>
    decreases entries.len(),
{
    if entries.len() == 0 {
        None
    } else if entries.last().0@ == rel {
        Some(entries.last().1@)
    } else {
        route_in(entries.drop_last(), rel)
    }
}

} // verus!
