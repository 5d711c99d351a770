//! What the DDL session does beside single schema changes: databases that
//! have to exist, tables that are opted in, and settings that change under
//! way.
use vstd::prelude::*;
use vstd::string::*;

use crate::conn::ConnParams;
use crate::ddl::apply::{
    opt_mapping, opt_targets, push_step, skip, skipped, step_views, DdlCounter, DdlStep,
    RelationFacts, StepView,
};
use crate::ddl::config::{auto_create_names, names_hold, DdlConfig};
use crate::ddl::render::{create_table_text, render_create_table, CreateShape};
use crate::ddl::snowflake::{
    route_fault, snowflake_columns, snowflake_target, validate_snowflake_route, SnowflakeTargets,
};
use crate::errors::{EmitterError, ErrorView};
use crate::mapping::{
    opt_view, ColumnMapping, DropTableStrategy, MappingView, NamespaceMapping, TableMapping,
    TableTarget,
};
use crate::schema::RelKey;
use crate::text::{quote_ident, quoted, str_eq, views};

verus! {

pub open spec fn create_database_text(db: Seq<char>) -> Seq<char> {
    "CREATE DATABASE IF NOT EXISTS "@ + quoted(db)
}

pub fn create_database_sql(db: &str) -> (s: String)
    ensures
        s@ == create_database_text(db@),
{
    let mut s: String = String::from_str("CREATE DATABASE IF NOT EXISTS ");
    s.append(quote_ident(db).as_str());
    s
}

/// Databases that were created or found in this session, each once.
pub struct EnsuredDatabases {
    names: Vec<String>,
}

impl EnsuredDatabases {
    pub closed spec fn names(&self) -> Seq<Seq<char>> {
        views(self.names@)
    }

    pub open spec fn wf(&self) -> bool {
        self.names().no_duplicates()
    }

    pub fn new() -> (r: Self)
        ensures
            r.wf(),
            r.names() == Seq::<Seq<char>>::empty(),
    {
        let r = EnsuredDatabases { names: Vec::new() };
        proof {
            assert(r.names() =~= Seq::empty());
        }
        r
    }

    /// The statement that ensures `db`; none if it was ensured before.
    pub fn ensure_database(&self, db: &str) -> (r: Option<String>)
        ensures
            match r {
                Some(s) => !self.names().contains(db@) && s@ == create_database_text(db@),
                None => self.names().contains(db@),
            },
    {
        if names_hold(&self.names, db) {
            return None;
        }
        Some(create_database_sql(db))
    }

    /// The statement for `db` succeeded.
    pub fn ensured(&mut self, db: String)
        requires
            old(self).wf(),
        ensures
            final(self).wf(),
            final(self).names() == (if old(self).names().contains(db@) {
                old(self).names()
            } else {
                old(self).names().push(db@)
            }),
    {
        if names_hold(&self.names, db.as_str()) {
            return;
        }
        let ghost before = self.names();
        self.names.push(db);
        proof {
            assert(views(self.names@) =~= before.push(db@));
            assert forall|i: int, j: int|
                0 <= i < self.names().len() && 0 <= j < self.names().len() && i != j implies (
            #[trigger] self.names()[i]) != (#[trigger] self.names()[j]) by {
                if i < before.len() && j < before.len() {
                    assert(before[i] != before[j]);
                } else if i < before.len() {
                    assert(before.contains(before[i]));
                } else {
                    assert(before.contains(before[j]));
                }
            }
        }
    }
}

/// Steps that create the table of a relation that is opted in, whatever its
/// namespace creates and whether it is mapped or not; and whether the
/// relation may be mapped. The routing map is not touched.
pub open spec fn opted_in_steps(
    cfg: DdlConfig,
    f: RelationFacts,
    mapped: Option<MappingView>,
    snow: Option<SnowflakeTargets>,
) -> Result<(Seq<StepView>, bool), ErrorView> {
    let rel = f.rel();
    let created = StepView::Count(DdlCounter::Created, 1);
    match snow {
        Some(targets) => match f.snow() {
            Err(e) => Err(e),
            Ok(_) => match mapped_fault(f, mapped, targets) {
                Some(e) => Err(e),
                None => Ok((seq![StepView::EnsureSnowflakeTable, created], true)),
            },
        },
        None => match f.defs() {
            None => Ok((skip(), false)),
            Some(defs) => {
                let target = cfg.target_of(*f.settings, rel);
                Ok(
                    (
                        seq![
                            StepView::EnsureDatabase(target.database),
                            StepView::Execute(
                                create_table_text(
                                    target.sql(),
                                    defs,
                                    f.desc.replident.key(),
                                    cfg.shape_of(*f.settings),
                                ),
                            ),
                            created,
                        ],
                        true,
                    ),
                )
            },
        },
    }
}

pub open spec fn mapped_fault(
    f: RelationFacts,
    mapped: Option<MappingView>,
    targets: SnowflakeTargets,
) -> Option<ErrorView> {
    match mapped {
        Some(m) => route_fault(*f.desc, m, targets),
        None => None,
    }
}

pub fn ensure_ch_table(
    cfg: &DdlConfig,
    f: &RelationFacts<'_>,
    mapped: Option<&TableMapping>,
    snow: Option<&SnowflakeTargets>,
) -> (r: Result<(Vec<DdlStep>, bool), EmitterError>)
    requires
        f.wf(),
    ensures
        ({
            let want = opted_in_steps(*cfg, *f, opt_mapping(mapped), opt_targets(snow));
            match r {
                Ok(v) => want == Ok::<_, ErrorView>((step_views(v.0@), v.1)),
                Err(e) => want == Err::<(Seq<StepView>, bool), _>(e@),
            }
        }),
{
    let mut out: Vec<DdlStep> = Vec::new();
    proof {
        assert(step_views(out@) =~= Seq::empty());
    }
    if let Some(targets) = snow {
        if let Err(e) = snowflake_columns(f.desc, f.rules, f.types) {
            return Err(e);
        }
        if let Some(m) = mapped {
            if let Err(e) = validate_snowflake_route(f.desc, m, targets) {
                return Err(e);
            }
        }
        push_step(&mut out, DdlStep::EnsureSnowflakeTable);
        push_step(&mut out, DdlStep::Count(DdlCounter::Created, 1));
        proof {
            assert(step_views(out@) =~= seq![
                StepView::EnsureSnowflakeTable,
                StepView::Count(DdlCounter::Created, 1),
            ]);
        }
        return Ok((out, true));
    }
    let target: TableTarget = cfg.create_target(f.settings, &f.desc.rel_name);
    let shape: CreateShape = cfg.create_shape(f.settings);
    let sql: String = match render_create_table(f.desc, &target, &shape, f.bridged) {
        Some(s) => s,
        None => {
            return Ok((skipped(), false));
        },
    };
    push_step(&mut out, DdlStep::EnsureDatabase(target.database.clone()));
    push_step(&mut out, DdlStep::Execute(sql));
    push_step(&mut out, DdlStep::Count(DdlCounter::Created, 1));
    proof {
        assert(step_views(out@) =~= opted_in_steps(
            *cfg,
            *f,
            opt_mapping(mapped),
            opt_targets(snow),
        )->Ok_0.0);
    }
    Ok((out, true))
}

/// Some override names another value than the only one that is possible.
pub open spec fn overridden(a: Option<Seq<char>>, b: Option<Seq<char>>, only: Seq<char>) -> bool {
    ||| a matches Some(x) && x != only
    ||| b matches Some(x) && x != only
}

pub open spec fn str_view(s: Option<&str>) -> Option<Seq<char>> {
    match s {
        Some(x) => Some(x@),
        None => None,
    }
}

pub open spec fn override_text(what: Seq<char>, rel: RelKey) -> ErrorView {
    ErrorView::Config("Snowflake "@ + what + " override for "@ + rel.text() + " is unsupported"@)
}

/// The route of a relation that is opted in on Snowflake: its own target and
/// all its columns. A target cannot be overridden.
pub open spec fn opt_in_route(
    f: RelationFacts,
    db: Option<Seq<char>>,
    table: Option<Seq<char>>,
    targets: SnowflakeTargets,
) -> Result<MappingView, ErrorView> {
    let rel = f.rel();
    let target = targets.target(rel);
    if overridden(db, opt_view(f.settings.target_database), target.database) {
        Err(override_text("database"@, rel))
    } else if overridden(table, opt_view(f.settings.target_table), target.table) {
        Err(override_text("table"@, rel))
    } else {
        match f.snow() {
            Err(e) => Err(e),
            Ok(columns) => {
                let m = MappingView { target, columns };
                match route_fault(*f.desc, m, targets) {
                    Some(e) => Err(e),
                    None => Ok(m),
                }
            },
        }
    }
}

fn differs(a: Option<&str>, b: &Option<String>, only: &str) -> (r: bool)
    ensures
        r == overridden(str_view(a), opt_view(*b), only@),
{
    let first: bool = match a {
        Some(x) => !str_eq(x, only),
        None => false,
    };
    let second: bool = match b {
        Some(x) => !str_eq(x.as_str(), only),
        None => false,
    };
    first || second
}

fn override_error(what: &str, f: &RelationFacts<'_>) -> (e: EmitterError)
    ensures
        e@ == override_text(what@, f.rel()),
{
    let mut m: String = String::from_str("Snowflake ");
    m.append(what);
    m.append(" override for ");
    m.append(f.desc.rel_name.to_text().as_str());
    m.append(" is unsupported");
    EmitterError::Config(m)
}

/// Resolve and check the route of a relation before anything is done
/// remotely. Only Snowflake has one; elsewhere the mapping is derived.
pub fn snowflake_opt_in_mapping(
    f: &RelationFacts<'_>,
    db_override: Option<&str>,
    table_override: Option<&str>,
    snow: Option<&SnowflakeTargets>,
) -> (r: Result<Option<TableMapping>, EmitterError>)
    requires
        f.wf(),
    ensures
        match snow {
            None => r == Ok::<Option<TableMapping>, EmitterError>(None),
            Some(targets) => match opt_in_route(
                *f,
                str_view(db_override),
                str_view(table_override),
                *targets,
            ) {
                Ok(m) => r matches Ok(Some(x)) && x@ == m,
                Err(e) => r is Err && r->Err_0@ == e,
            },
        },
{
    let targets: &SnowflakeTargets = match snow {
        Some(t) => t,
        None => {
            return Ok(None);
        },
    };
    let expected: TableTarget = snowflake_target(f.desc, targets);
    if differs(db_override, &f.settings.target_database, expected.database.as_str()) {
        return Err(override_error("database", f));
    }
    if differs(table_override, &f.settings.target_table, expected.table.as_str()) {
        return Err(override_error("table", f));
    }
    let columns: Vec<ColumnMapping> = match snowflake_columns(f.desc, f.rules, f.types) {
        Ok(c) => c,
        Err(e) => {
            return Err(e);
        },
    };
    let mapping = TableMapping { target: expected, columns };
    if let Err(e) = validate_snowflake_route(f.desc, &mapping, targets) {
        return Err(e);
    }
    Ok(Some(mapping))
}

/// Server code for a database that does not exist.
pub const UNKNOWN_DATABASE: i32 = 81;

/// What follows the first attempt to connect.
#[derive(Debug)]
pub enum BootDatabase {
    Present,
    /// Run this statement on a session of the `default` database: the server
    /// refuses every session that names a database it does not have.
    Create(String),
    Fail(EmitterError),
}

pub fn ensure_boot_database(connected: Result<(), EmitterError>, database: &str) -> (r: BootDatabase)
    ensures
        match connected {
            Ok(()) => r is Present,
            Err(e) => match e@ {
                ErrorView::Client(code, _) if code == UNKNOWN_DATABASE => r matches BootDatabase::Create(
                    s,
                ) && s@ == create_database_text(database@),
                _ => r == BootDatabase::Fail(e),
            },
        },
{
    match connected {
        Ok(()) => BootDatabase::Present,
        Err(e) => {
            if let EmitterError::Client { server_code, .. } = &e {
                if *server_code == UNKNOWN_DATABASE {
                    return BootDatabase::Create(create_database_sql(database));
                }
            }
            BootDatabase::Fail(e)
        },
    }
}

/// A statement for ClickHouse needs a connection to it; a Snowflake session
/// has none.
pub fn check_session(connected: bool) -> (r: Result<(), EmitterError>)
    ensures
        match r {
            Ok(()) => connected,
            Err(e) => !connected && e@ == ErrorView::Config(
                "ClickHouse DDL attempted in Snowflake mode"@,
            ),
        },
{
    if connected {
        Ok(())
    } else {
        Err(EmitterError::config("ClickHouse DDL attempted in Snowflake mode"))
    }
}

/// Take over a republished configuration: namespaces and drop strategy change
/// live, the rest is fixed at boot. Returns whether the connection has to be
/// dialled anew.
pub fn refresh_config(
    config: &mut DdlConfig,
    conn: &mut ConnParams,
    drop_table_strategy: DropTableStrategy,
    namespaces: Vec<(String, NamespaceMapping)>,
    live: &ConnParams,
) -> (redial: bool)
    ensures
        final(config).drop_table_strategy == drop_table_strategy,
        final(config).namespaces == namespaces,
        views(final(config).auto_create_namespaces@) == auto_create_names(namespaces@),
        final(config).replicate_all == old(config).replicate_all,
        opt_view(final(config).runtime_config_schema) == opt_view(
            old(config).runtime_config_schema,
        ),
        final(config).target_database@ == old(config).target_database@,
        final(config).soft_delete == old(config).soft_delete,
        final(config).system@ == old(config).system@,
        final(conn)@ == live@,
        redial == (old(conn)@ != live@),
{
    *config = DdlConfig::from_resolved(
        drop_table_strategy,
        namespaces,
        config.target_database.clone(),
        config.soft_delete,
        config.system.copied(),
        config.replicate_all,
        crate::mapping::copy_opt(&config.runtime_config_schema),
    );
    conn.refresh(live)
}

} // verus!
