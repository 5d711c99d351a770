//! Settings of the DDL side.
use vstd::prelude::*;
use vstd::string::*;

use crate::ddl::render::{CreateShape, ShapeView};
use crate::mapping::{
    opt_view, or_else, DropTableStrategy, NamespaceMapping, SystemColumns, TableRule, TableTarget,
    TargetView,
};
use crate::schema::{RelKey, RelName};
use crate::text::{starts_with, str_eq, views};

verus! {

/// Knobs of the DDL side, rebuilt whenever the live configuration changes.
#[derive(Debug)]
pub struct DdlConfig {
    pub drop_table_strategy: DropTableStrategy,
    /// Namespaces whose new relations are created automatically.
    pub auto_create_namespaces: Vec<String>,
    pub replicate_all: bool,
    /// Kept out of `replicate_all`, so that configuration tables are not
    /// swept in.
    pub runtime_config_schema: Option<String>,
    /// Database of relations that nothing else directs elsewhere.
    pub target_database: String,
    /// Overrides per namespace; the last entry of a namespace counts.
    pub namespaces: Vec<(String, NamespaceMapping)>,
    /// Keep the delete marker out of the engine's arguments, so that deletes
    /// stay queryable.
    pub soft_delete: bool,
    /// Names of the appended columns; a relation's own names go before.
    pub system: SystemColumns,
}

/// A namespace's overrides.
pub open spec fn namespace_in(list: Seq<(String, NamespaceMapping)>, ns: Seq<char>) -> Option<
    NamespaceMapping,
>
    decreases list.len(),
{
    if list.len() == 0 {
        None
    } else if list.last().0@ == ns {
        Some(list.last().1)
    } else {
        namespace_in(list.drop_last(), ns)
    }
}

/// The overrides of `ns`.
pub fn find_namespace<'a>(list: &'a Vec<(String, NamespaceMapping)>, ns: &str) -> (r: Option<
    &'a NamespaceMapping,
>)
    ensures
        match r {
            Some(n) => namespace_in(list@, ns@) == Some(*n),
            None => namespace_in(list@, ns@) is None,
        },
{
    let mut i: usize = list.len();
    proof {
        assert(list@.subrange(0, i as int) =~= list@);
    }
    while i > 0
        invariant
            i <= list@.len(),
            namespace_in(list@, ns@) == namespace_in(list@.subrange(0, i as int), ns@),
        decreases i,
    {
        proof {
            let part = list@.subrange(0, i as int);
            assert(part.drop_last() =~= list@.subrange(0, i - 1));
            assert(part.last() == list@[i - 1]);
        }
        if str_eq(list[i - 1].0.as_str(), ns) {
            return Some(&list[i - 1].1);
        }
        i = i - 1;
    }
    None
}

/// Names of the namespaces that create automatically, in order.
pub open spec fn auto_create_names(list: Seq<(String, NamespaceMapping)>) -> Seq<Seq<char>>
    decreases list.len(),
{
    if list.len() == 0 {
        Seq::empty()
    } else if list.last().1.auto_create {
        auto_create_names(list.drop_last()).push(list.last().0@)
    } else {
        auto_create_names(list.drop_last())
    }
}

/// The source's own namespaces, and the one of the configuration tables.
pub open spec fn system_namespace(ns: Seq<char>, runtime: Option<Seq<char>>) -> bool {
    ||| ns == "information_schema"@
    ||| "pg_"@.is_prefix_of(ns)
    ||| match runtime {
        Some(s) => s.len() > 0 && s == ns,
        None => false,
    }
}

pub fn is_system_namespace(ns: &str, runtime_config_schema: Option<&str>) -> (r: bool)
    ensures
        r == system_namespace(
            ns@,
            match runtime_config_schema {
                Some(s) => Some(s@),
                None => None,
            },
        ),
{
    if str_eq(ns, "information_schema") || starts_with(ns, "pg_") {
        return true;
    }
    match runtime_config_schema {
        Some(s) => !s.is_empty() && str_eq(s, ns),
        None => false,
    }
}

/// Whether one of the names is `name`.
pub fn names_hold(names: &Vec<String>, name: &str) -> (r: bool)
    ensures
        r == views(names@).contains(name@),
{
    let ghost all = views(names@);
    let mut i: usize = 0;
    while i < names.len()
        invariant
            i <= names@.len(),
            all == views(names@),
            forall|k: int| 0 <= k < i ==> all[k] != name@,
        decreases names@.len() - i,
    {
        if str_eq(names[i].as_str(), name) {
            proof {
                assert(all[i as int] == name@);
            }
            return true;
        }
        i = i + 1;
    }
    false
}

fn copy_strings(v: &Option<Vec<String>>) -> (r: Vec<String>)
    ensures
        views(r@) == (match v {
            Some(x) => views(x@),
            None => Seq::empty(),
        }),
{
    let mut r: Vec<String> = Vec::new();
    proof {
        assert(views(r@) =~= Seq::empty());
    }
    if let Some(x) = v {
        let mut i: usize = 0;
        while i < x.len()
            invariant
                i <= x@.len(),
                views(r@) == views(x@).subrange(0, i as int),
            decreases x@.len() - i,
        {
            let ghost before = r@;
            r.push(x[i].clone());
            proof {
                assert(views(r@) =~= views(before).push(x@[i as int]@));
                assert(views(r@) =~= views(x@).subrange(0, i as int + 1));
            }
            i = i + 1;
        }
        proof {
            assert(views(r@) =~= views(x@));
        }
    }
    r
}

pub open spec fn list_or_empty(v: Option<Vec<String>>) -> Seq<Seq<char>> {
    match v {
        Some(x) => views(x@),
        None => Seq::empty(),
    }
}

impl DdlConfig {
    /// Settings from a live configuration's namespaces and drop strategy;
    /// the rest is fixed at boot.
    pub fn from_resolved(
        drop_table_strategy: DropTableStrategy,
        namespaces: Vec<(String, NamespaceMapping)>,
        target_database: String,
        soft_delete: bool,
        system: SystemColumns,
        replicate_all: bool,
        runtime_config_schema: Option<String>,
    ) -> (r: Self)
        ensures
            views(r.auto_create_namespaces@) == auto_create_names(namespaces@),
            r == (DdlConfig {
                drop_table_strategy,
                auto_create_namespaces: r.auto_create_namespaces,
                replicate_all,
                runtime_config_schema,
                target_database,
                namespaces,
                soft_delete,
                system,
            }),
    {
        let mut auto: Vec<String> = Vec::new();
        let mut i: usize = 0;
        proof {
            assert(namespaces@.subrange(0, 0) =~= Seq::empty());
            assert(views(auto@) =~= Seq::empty());
        }
        while i < namespaces.len()
            invariant
                i <= namespaces@.len(),
                views(auto@) == auto_create_names(namespaces@.subrange(0, i as int)),
            decreases namespaces@.len() - i,
        {
            let ghost before = auto@;
            proof {
                let part = namespaces@.subrange(0, i as int + 1);
                assert(part.drop_last() =~= namespaces@.subrange(0, i as int));
                assert(part.last() == namespaces@[i as int]);
            }
            if namespaces[i].1.auto_create {
                auto.push(namespaces[i].0.clone());
                proof {
                    assert(views(auto@) =~= views(before).push(namespaces@[i as int].0@));
                }
            }
            i = i + 1;
        }
        proof {
            assert(namespaces@.subrange(0, i as int) =~= namespaces@);
        }
        DdlConfig {
            drop_table_strategy,
            auto_create_namespaces: auto,
            replicate_all,
            runtime_config_schema,
            target_database,
            namespaces,
            soft_delete,
            system,
        }
    }

    fn namespace(&self, ns: &str) -> (r: Option<&NamespaceMapping>)
        ensures
            match r {
                Some(n) => namespace_in(self.namespaces@, ns@) == Some(*n),
                None => namespace_in(self.namespaces@, ns@) is None,
            },
    {
        find_namespace(&self.namespaces, ns)
    }

    /// The database of a namespace's relations.
    pub open spec fn database_of(&self, ns: Seq<char>) -> Seq<char> {
        match namespace_in(self.namespaces@, ns) {
            Some(n) => or_else(opt_view(n.target_database), self.target_database@),
            None => self.target_database@,
        }
    }

    pub fn target_database_for(&self, ns: &str) -> (r: &str)
        ensures
            r@ == self.database_of(ns@),
    {
        match self.namespace(ns) {
            Some(n) => match &n.target_database {
                Some(d) => d.as_str(),
                None => self.target_database.as_str(),
            },
            None => self.target_database.as_str(),
        }
    }

    /// The drop strategy of a namespace's relations.
    pub open spec fn strategy_of(&self, ns: Seq<char>) -> DropTableStrategy {
        match namespace_in(self.namespaces@, ns) {
            Some(n) => match n.drop_table_strategy {
                Some(s) => s,
                None => self.drop_table_strategy,
            },
            None => self.drop_table_strategy,
        }
    }

    pub fn drop_strategy_for(&self, ns: &str) -> (r: DropTableStrategy)
        ensures
            r == self.strategy_of(ns@),
    {
        match self.namespace(ns) {
            Some(n) => match n.drop_table_strategy {
                Some(s) => s,
                None => self.drop_table_strategy,
            },
            None => self.drop_table_strategy,
        }
    }

    pub fn with_drop_strategy(self, s: DropTableStrategy) -> (r: Self)
        ensures
            r == (DdlConfig { drop_table_strategy: s, ..self }),
    {
        let mut cfg = self;
        cfg.drop_table_strategy = s;
        cfg
    }

    /// Where a created relation goes: the relation's own settings first.
    pub open spec fn target_of(&self, settings: TableRule, rel: RelKey) -> TargetView {
        TargetView {
            database: or_else(
                opt_view(settings.target_database),
                self.database_of(rel.namespace),
            ),
            table: or_else(opt_view(settings.target_table), rel.name),
        }
    }

    pub fn create_target(&self, settings: &TableRule, rel: &RelName) -> (r: TableTarget)
        ensures
            r@ == self.target_of(*settings, rel@),
    {
        TableTarget {
            database: match &settings.target_database {
                Some(d) => d.clone(),
                None => String::from_str(self.target_database_for(rel.namespace.as_str())),
            },
            table: match &settings.target_table {
                Some(t) => t.clone(),
                None => rel.name.clone(),
            },
        }
    }

    /// Destination shape of a relation's `CREATE TABLE`.
    pub open spec fn shape_of(&self, settings: TableRule) -> ShapeView {
        ShapeView {
            system: settings.system.over(self.system@),
            soft_delete: self.soft_delete,
            order_by: list_or_empty(settings.order_by),
            primary_key: list_or_empty(settings.primary_key),
        }
    }

    pub fn create_shape(&self, settings: &TableRule) -> (r: CreateShape)
        ensures
            r@ == self.shape_of(*settings),
    {
        CreateShape {
            system: settings.system_columns(&self.system),
            soft_delete: self.soft_delete,
            order_by: copy_strings(&settings.order_by),
            primary_key: copy_strings(&settings.primary_key),
        }
    }

    /// The explicit choice for a relation; none opts a system relation in.
    pub open spec fn scope_of(&self, settings: TableRule, rel: RelKey) -> Option<bool> {
        if settings.replicate == Some(true) && system_namespace(
            rel.namespace,
            opt_view(self.runtime_config_schema),
        ) {
            None
        } else {
            settings.replicate
        }
    }

    fn in_system_namespace(&self, rel: &RelName) -> (r: bool)
        ensures
            r == system_namespace(rel.namespace@, opt_view(self.runtime_config_schema)),
    {
        let runtime: Option<&str> = match &self.runtime_config_schema {
            Some(s) => Some(s.as_str()),
            None => None,
        };
        is_system_namespace(rel.namespace.as_str(), runtime)
    }

    pub fn declared_scope(&self, settings: &TableRule, rel: &RelName) -> (r: Option<bool>)
        ensures
            r == self.scope_of(*settings, rel@),
    {
        match settings.replicate {
            Some(true) => if self.in_system_namespace(rel) {
                None
            } else {
                Some(true)
            },
            other => other,
        }
    }

    /// Whether a new relation is created: its explicit choice, else its
    /// namespace's, else everything outside system namespaces where that is
    /// asked for.
    pub open spec fn creates(&self, settings: TableRule, rel: RelKey) -> bool {
        match self.scope_of(settings, rel) {
            Some(b) => b,
            None => views(self.auto_create_namespaces@).contains(rel.namespace) || (
            self.replicate_all && !system_namespace(
                rel.namespace,
                opt_view(self.runtime_config_schema),
            )),
        }
    }

    pub fn auto_creates(&self, settings: &TableRule, rel: &RelName) -> (r: bool)
        ensures
            r == self.creates(*settings, rel@),
    {
        match self.declared_scope(settings, rel) {
            Some(b) => b,
            None => names_hold(&self.auto_create_namespaces, rel.namespace.as_str()) || (
            self.replicate_all && !self.in_system_namespace(rel)),
        }
    }
}

/// A system relation is never swept in by replicating everything, whatever
/// its rules ask for, unless its namespace creates automatically.
pub proof fn system_relations_stay_out(cfg: DdlConfig, settings: TableRule, rel: RelKey)
    requires
        system_namespace(rel.namespace, opt_view(cfg.runtime_config_schema)),
        !views(cfg.auto_create_namespaces@).contains(rel.namespace),
    ensures
        !cfg.creates(settings, rel),
{
}

} // verus!
