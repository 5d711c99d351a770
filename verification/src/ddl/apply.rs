//! What a schema change does on the destination, as steps in order.
//!
//! The steps carry the statements and the routing-map edits; whoever runs
//! them stops at the first failure. Renames come before additions and drops,
//! so that a renamed column is never taken for a dropped and an added one.
use vstd::prelude::*;
use vstd::string::*;

use crate::ddl::config::DdlConfig;
use crate::ddl::render::{
    add_column_text, create_table_text, live_defs, mapped_def, render_add_column,
    render_create_table, render_create_table_from_mapping, Bridged, CreateShape, DefView,
};
use crate::ddl::snowflake::{
    route_fault, snow_columns, snowflake_columns, snowflake_target, validate_snowflake_route,
    ColumnRule, SnowflakeTargets,
};
use crate::errors::{EmitterError, ErrorView};
use crate::mapping::{
    column_views, opt_view, ColumnMapping, ColumnMappingView, DropTableStrategy, MappingView,
    TableMapping, TableRule, TableTarget, TargetView,
};
use crate::schema::{RelAttr, RelDescriptor, RelKey, RelName, SchemaDiff};
use crate::text::{quote_ident, quoted, str_eq};

verus! {

/// What the DDL side has done so far.
#[derive(Debug, Clone, Copy, PartialEq, Eq, Structural)]
pub struct DdlStats {
    pub alters_applied: u64,
    pub creates_applied: u64,
    pub drops_applied: u64,
    /// Events that were received and passed over: the relation is not mapped,
    /// its namespace creates no tables, a type change was rejected, or the
    /// drop strategy keeps the destination.
    pub skipped: u64,
    pub type_changes_rejected: u64,
}

impl Default for DdlStats {
    fn default() -> (r: Self)
        ensures
            r == (DdlStats {
                alters_applied: 0,
                creates_applied: 0,
                drops_applied: 0,
                skipped: 0,
                type_changes_rejected: 0,
            }),
    {
        DdlStats {
            alters_applied: 0,
            creates_applied: 0,
            drops_applied: 0,
            skipped: 0,
            type_changes_rejected: 0,
        }
    }
}

#[derive(Debug, Clone, Copy, PartialEq, Eq, Structural)]
pub enum DdlCounter {
    Altered,
    Created,
    Dropped,
    Skipped,
    TypesRejected,
}

impl DdlStats {
    pub open spec fn counted(self, c: DdlCounter, n: u64) -> DdlStats {
        match c {
            DdlCounter::Altered => DdlStats {
                alters_applied: (self.alters_applied + n) as u64,
                ..self
            },
            DdlCounter::Created => DdlStats {
                creates_applied: (self.creates_applied + n) as u64,
                ..self
            },
            DdlCounter::Dropped => DdlStats {
                drops_applied: (self.drops_applied + n) as u64,
                ..self
            },
            DdlCounter::Skipped => DdlStats { skipped: (self.skipped + n) as u64, ..self },
            DdlCounter::TypesRejected => DdlStats {
                type_changes_rejected: (self.type_changes_rejected + n) as u64,
                ..self
            },
        }
    }

    pub open spec fn held(self, c: DdlCounter) -> u64 {
        match c {
            DdlCounter::Altered => self.alters_applied,
            DdlCounter::Created => self.creates_applied,
            DdlCounter::Dropped => self.drops_applied,
            DdlCounter::Skipped => self.skipped,
            DdlCounter::TypesRejected => self.type_changes_rejected,
        }
    }

    pub fn count(&mut self, c: DdlCounter, n: u64)
        requires
            old(self).held(c) + n <= u64::MAX,
        ensures
            *final(self) == old(self).counted(c, n),
    {
        match c {
            DdlCounter::Altered => {
                self.alters_applied = self.alters_applied + n;
            },
            DdlCounter::Created => {
                self.creates_applied = self.creates_applied + n;
            },
            DdlCounter::Dropped => {
                self.drops_applied = self.drops_applied + n;
            },
            DdlCounter::Skipped => {
                self.skipped = self.skipped + n;
            },
            DdlCounter::TypesRejected => {
                self.type_changes_rejected = self.type_changes_rejected + n;
            },
        }
    }
}

/// One step of a schema change.
#[derive(Debug)]
pub enum DdlStep {
    /// Create the database unless it was ensured before.
    EnsureDatabase(String),
    Execute(String),
    Count(DdlCounter, u64),
    /// Fail if the routing map was republished since the change began.
    CheckUnmoved,
    EnsureSnowflakeTable,
    ApplySnowflakeSchema,
    TruncateSnowflake,
    /// Route the relation this way.
    Register(TableMapping),
    /// Route the renamed relation this way, and its old name no more.
    Rename(TableMapping),
    /// Fold the column changes into the relation's route.
    FoldDiff,
    /// Forget the relation's derived route.
    Forget,
}

pub enum StepView {
    EnsureDatabase(Seq<char>),
    Execute(Seq<char>),
    Count(DdlCounter, u64),
    CheckUnmoved,
    EnsureSnowflakeTable,
    ApplySnowflakeSchema,
    TruncateSnowflake,
    Register(MappingView),
    Rename(MappingView),
    FoldDiff,
    Forget,
}

impl View for DdlStep {
    type V = StepView;

    open spec fn view(&self) -> StepView {
        match self {
            DdlStep::EnsureDatabase(d) => StepView::EnsureDatabase(d@),
            DdlStep::Execute(s) => StepView::Execute(s@),
            DdlStep::Count(c, n) => StepView::Count(*c, *n),
            DdlStep::CheckUnmoved => StepView::CheckUnmoved,
            DdlStep::EnsureSnowflakeTable => StepView::EnsureSnowflakeTable,
            DdlStep::ApplySnowflakeSchema => StepView::ApplySnowflakeSchema,
            DdlStep::TruncateSnowflake => StepView::TruncateSnowflake,
            DdlStep::Register(m) => StepView::Register(m@),
            DdlStep::Rename(m) => StepView::Rename(m@),
            DdlStep::FoldDiff => StepView::FoldDiff,
            DdlStep::Forget => StepView::Forget,
        }
    }
}

pub open spec fn step_views(v: Seq<DdlStep>) -> Seq<StepView> {
    v.map_values(|s: DdlStep| s@)
}

/// Append a step.
pub fn push_step(out: &mut Vec<DdlStep>, s: DdlStep)
    ensures
        step_views(final(out)@) == step_views(old(out)@).push(s@),
{
    out.push(s);
    proof {
        assert(step_views(out@) =~= step_views(old(out)@).push(s@));
    }
}

pub open spec fn skip() -> Seq<StepView> {
    seq![StepView::Count(DdlCounter::Skipped, 1)]
}

/// The steps of an event that is passed over.
pub fn skipped() -> (out: Vec<DdlStep>)
    ensures
        step_views(out@) == skip(),
{
    let mut out: Vec<DdlStep> = Vec::new();
    push_step(&mut out, DdlStep::Count(DdlCounter::Skipped, 1));
    proof {
        assert(step_views(out@) =~= skip());
    }
    out
}

/// What is known of a relation when its change is planned: its settings, what
/// its attributes bridge to, and their Snowflake settings and types, one for
/// one with the attributes.
pub struct RelationFacts<'a> {
    pub desc: &'a RelDescriptor,
    pub settings: &'a TableRule,
    pub bridged: &'a Vec<Bridged>,
    pub rules: &'a Vec<ColumnRule>,
    pub types: &'a Vec<String>,
}

impl<'a> RelationFacts<'a> {
    pub open spec fn wf(&self) -> bool {
        let n = self.desc.attributes@.len();
        self.bridged@.len() == n && self.rules@.len() == n && self.types@.len() == n
    }

    pub open spec fn rel(&self) -> RelKey {
        self.desc.rel_name@
    }

    pub open spec fn defs(&self) -> Option<Seq<DefView>> {
        live_defs(self.desc.attributes@, self.bridged@)
    }

    pub open spec fn snow(&self) -> Result<Seq<ColumnMappingView>, ErrorView> {
        snow_columns(self.desc.rel_name@, self.desc.attributes@, self.rules@, self.types@)
    }
}

/// The route's columns of a created table: the columns of its statement.
pub open spec fn derived_columns(defs: Seq<DefView>) -> Seq<ColumnMappingView> {
    defs.map_values(
        |d: DefView|
            ColumnMappingView {
                src_attnum: d.attnum,
                target_name: d.name,
                target_type: d.ch_type,
            },
    )
}

/// The columns of the live attributes under their bridged names and types.
pub fn derive_columns_for_mapping(attrs: &Vec<RelAttr>, bridged: &Vec<Bridged>) -> (r: Option<
    Vec<ColumnMapping>,
>)
    requires
        bridged@.len() == attrs@.len(),
    ensures
        match (r, live_defs(attrs@, bridged@)) {
            (Some(c), Some(defs)) => column_views(c@) == derived_columns(defs),
            (None, None) => true,
            _ => false,
        },
{
    let mut cols: Vec<ColumnMapping> = Vec::new();
    let mut i: usize = 0;
    proof {
        assert(attrs@.subrange(0, 0) =~= Seq::empty());
        assert(column_views(cols@) =~= derived_columns(Seq::empty()));
    }
    while i < attrs.len()
        invariant
            i <= attrs@.len(),
            bridged@.len() == attrs@.len(),
            live_defs(attrs@.subrange(0, i as int), bridged@.subrange(0, i as int)) is Some,
            column_views(cols@) == derived_columns(
                live_defs(attrs@.subrange(0, i as int), bridged@.subrange(0, i as int))->0,
            ),
        decreases attrs@.len() - i,
    {
        let ghost before = cols@;
        let ghost defs = live_defs(
            attrs@.subrange(0, i as int),
            bridged@.subrange(0, i as int),
        )->0;
        proof {
            assert(attrs@.subrange(0, i as int + 1).drop_last() =~= attrs@.subrange(0, i as int));
            assert(bridged@.subrange(0, i as int + 1).drop_last() =~= bridged@.subrange(
                0,
                i as int,
            ));
        }
        if !attrs[i].dropped {
            match &bridged[i] {
                None => {
                    proof {
                        crate::ddl::render::lemma_unbridged(attrs@, bridged@, i as int + 1);
                    }
                    return None;
                },
                Some((name, r)) => {
                    cols.push(
                        ColumnMapping {
                            src_attnum: attrs[i].attnum,
                            target_name: name.clone(),
                            target_type: r.ch_type.clone(),
                        },
                    );
                    proof {
                        let now = live_defs(
                            attrs@.subrange(0, i as int + 1),
                            bridged@.subrange(0, i as int + 1),
                        )->0;
                        assert(column_views(cols@) =~= column_views(before).push(cols@.last()@));
                        assert(derived_columns(now) =~= derived_columns(defs).push(
                            cols@.last()@,
                        ));
                    }
                },
            }
        }
        i = i + 1;
    }
    proof {
        assert(attrs@.subrange(0, i as int) =~= attrs@);
        assert(bridged@.subrange(0, i as int) =~= bridged@);
    }
    Some(cols)
}

/// Steps for a relation that appeared. A mapped relation's destination is
/// created from its mapping; otherwise the relation is created and routed if
/// its settings ask for it and nothing excludes it.
pub open spec fn added_steps(
    cfg: DdlConfig,
    f: RelationFacts,
    mapped: Option<MappingView>,
    excluded: bool,
    snow: Option<SnowflakeTargets>,
) -> Result<Seq<StepView>, ErrorView> {
    let rel = f.rel();
    let created = StepView::Count(DdlCounter::Created, 1);
    match (mapped, snow) {
        (Some(m), Some(targets)) => match route_fault(*f.desc, m, targets) {
            Some(e) => Err(e),
            None => Ok(seq![StepView::EnsureSnowflakeTable, created]),
        },
        (Some(m), None) => Ok(
            seq![
                StepView::EnsureDatabase(m.target.database),
                StepView::Execute(
                    create_table_text(
                        m.target.sql(),
                        m.columns.map_values(|c: ColumnMappingView| mapped_def(c)),
                        f.desc.replident.key(),
                        cfg.shape_of(*f.settings),
                    ),
                ),
                created,
            ],
        ),
        (None, _) => if excluded || !cfg.creates(*f.settings, rel) {
            Ok(skip())
        } else {
            let target = cfg.target_of(*f.settings, rel);
            match snow {
                Some(targets) => match f.snow() {
                    Err(e) => Err(e),
                    Ok(columns) => if (f.settings.target_database is Some
                        || f.settings.target_table is Some) && target != targets.target(rel) {
                        Err(
                            ErrorView::Config(
                                "Snowflake table target override for "@ + rel.text()
                                    + " is unsupported"@,
                            ),
                        )
                    } else {
                        Ok(
                            seq![
                                StepView::EnsureSnowflakeTable,
                                created,
                                StepView::Register(
                                    MappingView { target: targets.target(rel), columns },
                                ),
                            ],
                        )
                    },
                },
                None => match f.defs() {
                    None => Ok(skip()),
                    Some(defs) => Ok(
                        seq![
                            StepView::EnsureDatabase(target.database),
                            StepView::Execute(
                                create_table_text(
                                    target.sql(),
                                    defs,
                                    f.desc.replident.key(),
                                    cfg.shape_of(*f.settings),
                                ),
                            ),
                            created,
                            StepView::Register(
                                MappingView { target, columns: derived_columns(defs) },
                            ),
                        ],
                    ),
                },
            }
        },
    }
}

pub open spec fn opt_mapping(m: Option<&TableMapping>) -> Option<MappingView> {
    match m {
        Some(x) => Some(x@),
        None => None,
    }
}

pub open spec fn opt_targets(t: Option<&SnowflakeTargets>) -> Option<SnowflakeTargets> {
    match t {
        Some(x) => Some(*x),
        None => None,
    }
}

pub fn apply_added(
    cfg: &DdlConfig,
    f: &RelationFacts<'_>,
    mapped: Option<&TableMapping>,
    excluded: bool,
    snow: Option<&SnowflakeTargets>,
) -> (r: Result<Vec<DdlStep>, EmitterError>)
    requires
        f.wf(),
    ensures
        ({
            let want = added_steps(*cfg, *f, opt_mapping(mapped), excluded, opt_targets(snow));
            match r {
                Ok(v) => want == Ok::<_, ErrorView>(step_views(v@)),
                Err(e) => want == Err::<Seq<StepView>, _>(e@),
            }
        }),
{
    let mut out: Vec<DdlStep> = Vec::new();
    let ghost none = step_views(out@);
    proof {
        assert(none =~= Seq::empty());
    }
    if let Some(m) = mapped {
        if let Some(targets) = snow {
            match validate_snowflake_route(f.desc, m, targets) {
                Ok(()) => {},
                Err(e) => {
                    return Err(e);
                },
            }
            push_step(&mut out, DdlStep::EnsureSnowflakeTable);
            push_step(&mut out, DdlStep::Count(DdlCounter::Created, 1));
            proof {
                assert(step_views(out@) =~= added_steps(
                    *cfg,
                    *f,
                    opt_mapping(mapped),
                    excluded,
                    opt_targets(snow),
                )->Ok_0);
            }
            return Ok(out);
        }
        let shape: CreateShape = cfg.create_shape(f.settings);
        push_step(&mut out, DdlStep::EnsureDatabase(m.target.database.clone()));
        push_step(
            &mut out,
            DdlStep::Execute(render_create_table_from_mapping(f.desc, m, &shape)),
        );
        push_step(&mut out, DdlStep::Count(DdlCounter::Created, 1));
        proof {
            assert(step_views(out@) =~= added_steps(
                *cfg,
                *f,
                opt_mapping(mapped),
                excluded,
                opt_targets(snow),
            )->Ok_0);
        }
        return Ok(out);
    }
    // An operator's opt-out goes before any automatic creation.
    if excluded || !cfg.auto_creates(f.settings, &f.desc.rel_name) {
        return Ok(skipped());
    }
    let target: TableTarget = cfg.create_target(f.settings, &f.desc.rel_name);
    if let Some(targets) = snow {
        let columns: Vec<ColumnMapping> = match snowflake_columns(f.desc, f.rules, f.types) {
            Ok(c) => c,
            Err(e) => {
                return Err(e);
            },
        };
        let expected: TableTarget = snowflake_target(f.desc, targets);
        if (f.settings.target_database.is_some() || f.settings.target_table.is_some())
            && !target.same(&expected) {
            let mut m: String = String::from_str("Snowflake table target override for ");
            m.append(f.desc.rel_name.to_text().as_str());
            m.append(" is unsupported");
            return Err(EmitterError::Config(m));
        }
        push_step(&mut out, DdlStep::EnsureSnowflakeTable);
        push_step(&mut out, DdlStep::Count(DdlCounter::Created, 1));
        push_step(&mut out, DdlStep::Register(TableMapping { target: expected, columns }));
        proof {
            assert(step_views(out@) =~= added_steps(
                *cfg,
                *f,
                opt_mapping(mapped),
                excluded,
                opt_targets(snow),
            )->Ok_0);
        }
        return Ok(out);
    }
    let shape: CreateShape = cfg.create_shape(f.settings);
    let sql: String = match render_create_table(f.desc, &target, &shape, f.bridged) {
        Some(s) => s,
        None => {
            return Ok(skipped());
        },
    };
    let columns: Vec<ColumnMapping> = match derive_columns_for_mapping(
        &f.desc.attributes,
        f.bridged,
    ) {
        Some(c) => c,
        None => {
            return Ok(skipped());
        },
    };
    push_step(&mut out, DdlStep::EnsureDatabase(target.database.clone()));
    push_step(&mut out, DdlStep::Execute(sql));
    push_step(&mut out, DdlStep::Count(DdlCounter::Created, 1));
    push_step(&mut out, DdlStep::Register(TableMapping { target, columns }));
    proof {
        assert(step_views(out@) =~= added_steps(
            *cfg,
            *f,
            opt_mapping(mapped),
            excluded,
            opt_targets(snow),
        )->Ok_0);
    }
    Ok(out)
}

/// The statement that renames a column.
pub open spec fn rename_text(target: Seq<char>, old: Seq<char>, new: Seq<char>) -> Seq<char> {
    "ALTER TABLE "@ + target + " RENAME COLUMN IF EXISTS "@ + quoted(old) + " TO "@ + quoted(new)
}

/// The statement that drops a column.
pub open spec fn drop_column_text(target: Seq<char>, name: Seq<char>) -> Seq<char> {
    "ALTER TABLE "@ + target + " DROP COLUMN IF EXISTS "@ + quoted(name)
}

pub open spec fn named_column(cols: Seq<ColumnMappingView>, name: Seq<char>) -> bool {
    exists|i: int| 0 <= i < cols.len() && (#[trigger] cols[i]).target_name == name
}

/// The mapping already says the new name, or never said the old one: an
/// operator's name makes the source's rename invisible.
pub open spec fn already_renamed(
    cols: Seq<ColumnMappingView>,
    old: Seq<char>,
    new: Seq<char>,
) -> bool {
    named_column(cols, new) || !named_column(cols, old)
}

pub open spec fn rename_steps(
    target: Seq<char>,
    cols: Seq<ColumnMappingView>,
    renames: Seq<(i16, String, String)>,
) -> Seq<StepView>
    decreases renames.len(),
{
    if renames.len() == 0 {
        Seq::empty()
    } else {
        let (_, old, new) = renames.last();
        let rest = rename_steps(target, cols, renames.drop_last()).push(StepView::CheckUnmoved);
        if already_renamed(cols, old@, new@) {
            rest
        } else {
            rest.push(StepView::Execute(rename_text(target, old@, new@))).push(
                StepView::Count(DdlCounter::Altered, 1),
            )
        }
    }
}

/// Additions; a column whose type does not bridge is passed over.
pub open spec fn add_steps(target: Seq<char>, added: Seq<Bridged>) -> Seq<StepView>
    decreases added.len(),
{
    if added.len() == 0 {
        Seq::empty()
    } else {
        let rest = add_steps(target, added.drop_last());
        match added.last() {
            None => rest.push(StepView::Count(DdlCounter::Skipped, 1)),
            Some((name, r)) => rest.push(
                StepView::Execute(
                    add_column_text(target, name@, r.ch_type@, opt_view(r.default_sql)),
                ),
            ).push(StepView::Count(DdlCounter::Altered, 1)),
        }
    }
}

/// The name that an attribute number had.
pub open spec fn old_name(attrs: Seq<RelAttr>, attnum: i16) -> Option<Seq<char>>
    decreases attrs.len(),
{
    if attrs.len() == 0 {
        None
    } else if attrs[0].attnum == attnum {
        Some(attrs[0].name@)
    } else {
        old_name(attrs.subrange(1, attrs.len() as int), attnum)
    }
}

pub open spec fn drop_steps(
    target: Seq<char>,
    attrs: Seq<RelAttr>,
    dropped: Seq<i16>,
) -> Seq<StepView>
    decreases dropped.len(),
{
    if dropped.len() == 0 {
        Seq::empty()
    } else {
        let rest = drop_steps(target, attrs, dropped.drop_last());
        match old_name(attrs, dropped.last()) {
            None => rest.push(StepView::Count(DdlCounter::Skipped, 1)),
            Some(name) => rest.push(StepView::Execute(drop_column_text(target, name))).push(
                StepView::Count(DdlCounter::Altered, 1),
            ),
        }
    }
}

/// Steps for a relation whose columns changed: renames, additions, drops;
/// type changes are counted and not applied, and an event that holds some
/// counts as skipped; at last the route follows.
pub open spec fn changed_steps(
    mapped: Option<MappingView>,
    old: RelDescriptor,
    diff: SchemaDiff,
    added: Seq<Bridged>,
) -> Seq<StepView> {
    match mapped {
        None => skip(),
        Some(m) => {
            let t = m.target.sql();
            let moves = rename_steps(t, m.columns, diff.renamed_columns@) + add_steps(t, added)
                + drop_steps(t, old.attributes@, diff.dropped_columns@);
            let n = diff.type_changes@.len();
            (if n > 0 {
                moves.push(StepView::Count(DdlCounter::TypesRejected, n as u64)).push(
                    StepView::Count(DdlCounter::Skipped, 1),
                )
            } else {
                moves
            }).push(StepView::FoldDiff)
        },
    }
}

fn has_column(cols: &Vec<ColumnMapping>, name: &str) -> (r: bool)
    ensures
        r == named_column(column_views(cols@), name@),
{
    let ghost all = column_views(cols@);
    let mut i: usize = 0;
    while i < cols.len()
        invariant
            i <= cols@.len(),
            all == column_views(cols@),
            forall|k: int| 0 <= k < i ==> (#[trigger] all[k]).target_name != name@,
        decreases cols@.len() - i,
    {
        proof {
            assert(all[i as int] == cols@[i as int]@);
        }
        if str_eq(cols[i].target_name.as_str(), name) {
            return true;
        }
        i = i + 1;
    }
    false
}

fn push_renames(
    out: &mut Vec<DdlStep>,
    target: &str,
    cols: &Vec<ColumnMapping>,
    renames: &Vec<(i16, String, String)>,
)
    ensures
        step_views(final(out)@) == step_views(old(out)@) + rename_steps(
            target@,
            column_views(cols@),
            renames@,
        ),
{
    let ghost first = step_views(out@);
    let ghost all = column_views(cols@);
    let mut i: usize = 0;
    proof {
        assert(renames@.subrange(0, 0) =~= Seq::empty());
        assert(first =~= first + rename_steps(target@, all, Seq::empty()));
    }
    while i < renames.len()
        invariant
            i <= renames@.len(),
            all == column_views(cols@),
            step_views(out@) == first + rename_steps(
                target@,
                all,
                renames@.subrange(0, i as int),
            ),
        decreases renames@.len() - i,
    {
        let ghost part = renames@.subrange(0, i as int + 1);
        proof {
            assert(part.drop_last() =~= renames@.subrange(0, i as int));
            assert(part.last() == renames@[i as int]);
        }
        let old_col: &str = renames[i].1.as_str();
        let new_col: &str = renames[i].2.as_str();
        push_step(out, DdlStep::CheckUnmoved);
        if !(has_column(cols, new_col) || !has_column(cols, old_col)) {
            let mut sql: String = String::from_str("ALTER TABLE ");
            sql.append(target);
            sql.append(" RENAME COLUMN IF EXISTS ");
            sql.append(quote_ident(old_col).as_str());
            sql.append(" TO ");
            sql.append(quote_ident(new_col).as_str());
            push_step(out, DdlStep::Execute(sql));
            push_step(out, DdlStep::Count(DdlCounter::Altered, 1));
        }
        proof {
            assert(step_views(out@) =~= first + rename_steps(target@, all, part));
        }
        i = i + 1;
    }
    proof {
        assert(renames@.subrange(0, i as int) =~= renames@);
    }
}

fn push_adds(out: &mut Vec<DdlStep>, target: &str, added: &Vec<Bridged>)
    ensures
        step_views(final(out)@) == step_views(old(out)@) + add_steps(target@, added@),
{
    let ghost first = step_views(out@);
    let mut i: usize = 0;
    proof {
        assert(added@.subrange(0, 0) =~= Seq::empty());
        assert(first =~= first + add_steps(target@, Seq::empty()));
    }
    while i < added.len()
        invariant
            i <= added@.len(),
            step_views(out@) == first + add_steps(target@, added@.subrange(0, i as int)),
        decreases added@.len() - i,
    {
        let ghost part = added@.subrange(0, i as int + 1);
        proof {
            assert(part.drop_last() =~= added@.subrange(0, i as int));
            assert(part.last() == added@[i as int]);
        }
        match &added[i] {
            None => {
                push_step(out, DdlStep::Count(DdlCounter::Skipped, 1));
            },
            Some((name, r)) => {
                push_step(out, DdlStep::Execute(render_add_column(target, name.as_str(), r)));
                push_step(out, DdlStep::Count(DdlCounter::Altered, 1));
            },
        }
        proof {
            assert(step_views(out@) =~= first + add_steps(target@, part));
        }
        i = i + 1;
    }
    proof {
        assert(added@.subrange(0, i as int) =~= added@);
    }
}

fn find_old_name<'a>(attrs: &'a Vec<RelAttr>, attnum: i16) -> (r: Option<&'a str>)
    ensures
        match r {
            Some(s) => old_name(attrs@, attnum) == Some(s@),
            None => old_name(attrs@, attnum) is None,
        },
{
    let mut i: usize = 0;
    proof {
        assert(attrs@.subrange(0, attrs@.len() as int) =~= attrs@);
    }
    while i < attrs.len()
        invariant
            i <= attrs@.len(),
            old_name(attrs@, attnum) == old_name(
                attrs@.subrange(i as int, attrs@.len() as int),
                attnum,
            ),
        decreases attrs@.len() - i,
    {
        proof {
            let rest = attrs@.subrange(i as int, attrs@.len() as int);
            assert(rest[0] == attrs@[i as int]);
            assert(rest.subrange(1, rest.len() as int) =~= attrs@.subrange(
                i as int + 1,
                attrs@.len() as int,
            ));
        }
        if attrs[i].attnum == attnum {
            return Some(attrs[i].name.as_str());
        }
        i = i + 1;
    }
    None
}

fn push_drops(out: &mut Vec<DdlStep>, target: &str, attrs: &Vec<RelAttr>, dropped: &Vec<i16>)
    ensures
        step_views(final(out)@) == step_views(old(out)@) + drop_steps(
            target@,
            attrs@,
            dropped@,
        ),
{
    let ghost first = step_views(out@);
    let mut i: usize = 0;
    proof {
        assert(dropped@.subrange(0, 0) =~= Seq::empty());
        assert(first =~= first + drop_steps(target@, attrs@, Seq::empty()));
    }
    while i < dropped.len()
        invariant
            i <= dropped@.len(),
            step_views(out@) == first + drop_steps(
                target@,
                attrs@,
                dropped@.subrange(0, i as int),
            ),
        decreases dropped@.len() - i,
    {
        let ghost part = dropped@.subrange(0, i as int + 1);
        proof {
            assert(part.drop_last() =~= dropped@.subrange(0, i as int));
            assert(part.last() == dropped@[i as int]);
        }
        match find_old_name(attrs, dropped[i]) {
            None => {
                push_step(out, DdlStep::Count(DdlCounter::Skipped, 1));
            },
            Some(name) => {
                let mut sql: String = String::from_str("ALTER TABLE ");
                sql.append(target);
                sql.append(" DROP COLUMN IF EXISTS ");
                sql.append(quote_ident(name).as_str());
                push_step(out, DdlStep::Execute(sql));
                push_step(out, DdlStep::Count(DdlCounter::Altered, 1));
            },
        }
        proof {
            assert(step_views(out@) =~= first + drop_steps(target@, attrs@, part));
        }
        i = i + 1;
    }
    proof {
        assert(dropped@.subrange(0, i as int) =~= dropped@);
    }
}

/// `added` says what the diff's added columns bridge to, one for one.
pub fn apply_changed(
    mapped: Option<&TableMapping>,
    old: &RelDescriptor,
    diff: &SchemaDiff,
    added: &Vec<Bridged>,
) -> (out: Vec<DdlStep>)
    requires
        added@.len() == diff.added_columns@.len(),
    ensures
        step_views(out@) == changed_steps(opt_mapping(mapped), *old, *diff, added@),
{
    let m: &TableMapping = match mapped {
        None => {
            return skipped();
        },
        Some(m) => m,
    };
    let target: String = m.target.sql();
    let mut out: Vec<DdlStep> = Vec::new();
    proof {
        assert(step_views(out@) =~= Seq::empty());
    }
    push_renames(&mut out, target.as_str(), &m.columns, &diff.renamed_columns);
    push_adds(&mut out, target.as_str(), added);
    push_drops(&mut out, target.as_str(), &old.attributes, &diff.dropped_columns);
    let ghost t = m@.target.sql();
    proof {
        assert(step_views(out@) =~= rename_steps(t, m@.columns, diff.renamed_columns@) + add_steps(
            t,
            added@,
        ) + drop_steps(t, old.attributes@, diff.dropped_columns@));
    }
    if diff.type_changes.len() > 0 {
        push_step(
            &mut out,
            DdlStep::Count(DdlCounter::TypesRejected, diff.type_changes.len() as u64),
        );
        push_step(&mut out, DdlStep::Count(DdlCounter::Skipped, 1));
    }
    push_step(&mut out, DdlStep::FoldDiff);
    out
}

/// Steps for a relation that was dropped: its destination goes only where the
/// strategy says so.
pub open spec fn dropped_steps(
    cfg: DdlConfig,
    rel: RelKey,
    mapped: Option<TargetView>,
) -> Seq<StepView> {
    match mapped {
        Some(t) if cfg.strategy_of(rel.namespace) == DropTableStrategy::Drop => seq![
            StepView::Execute("DROP TABLE IF EXISTS "@ + t.sql()),
            StepView::Count(DdlCounter::Dropped, 1),
            StepView::Forget,
        ],
        _ => skip(),
    }
}

pub open spec fn opt_target(t: Option<&TableTarget>) -> Option<TargetView> {
    match t {
        Some(x) => Some(x@),
        None => None,
    }
}

pub fn apply_dropped(cfg: &DdlConfig, rel: &RelName, mapped: Option<&TableTarget>) -> (out: Vec<
    DdlStep,
>)
    ensures
        step_views(out@) == dropped_steps(*cfg, rel@, opt_target(mapped)),
{
    let target: &TableTarget = match mapped {
        None => {
            return skipped();
        },
        Some(t) => t,
    };
    match cfg.drop_strategy_for(rel.namespace.as_str()) {
        DropTableStrategy::Drop => {
            let mut out: Vec<DdlStep> = Vec::new();
            let mut sql: String = String::from_str("DROP TABLE IF EXISTS ");
            sql.append(target.sql().as_str());
            push_step(&mut out, DdlStep::Execute(sql));
            push_step(&mut out, DdlStep::Count(DdlCounter::Dropped, 1));
            push_step(&mut out, DdlStep::Forget);
            proof {
                assert(step_views(out@) =~= dropped_steps(*cfg, rel@, opt_target(mapped)));
            }
            out
        },
        _ => skipped(),
    }
}

/// Steps of a truncate: nothing for a relation that is not mapped.
pub open spec fn truncate_steps(mapped: Option<TargetView>, snow: bool) -> Seq<StepView> {
    match mapped {
        None => Seq::empty(),
        Some(t) => if snow {
            seq![StepView::TruncateSnowflake]
        } else {
            seq![StepView::Execute("TRUNCATE TABLE "@ + t.sql())]
        },
    }
}

pub fn truncate(mapped: Option<&TableTarget>, snow: bool) -> (out: Vec<DdlStep>)
    ensures
        step_views(out@) == truncate_steps(opt_target(mapped), snow),
{
    let mut out: Vec<DdlStep> = Vec::new();
    if let Some(t) = mapped {
        if snow {
            push_step(&mut out, DdlStep::TruncateSnowflake);
        } else {
            let mut sql: String = String::from_str("TRUNCATE TABLE ");
            sql.append(t.sql().as_str());
            push_step(&mut out, DdlStep::Execute(sql));
        }
    }
    proof {
        assert(step_views(out@) =~= truncate_steps(opt_target(mapped), snow));
    }
    out
}

} // verus!
