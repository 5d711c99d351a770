//! What schema changes come to on the destination.
use vstd::prelude::*;
use vstd::string::*;

use crate::ddl::apply::{
    add_steps, added_steps, changed_steps, drop_column_text, drop_steps, dropped_steps, old_name,
    rename_steps, rename_text, truncate_steps, DdlCounter, RelationFacts, StepView,
};
use crate::ddl::config::{namespace_in, system_namespace, DdlConfig};
use crate::ddl::predict::{
    effect_of, snowflake_effects, snowflake_steps, EffectView, EventFacts,
};
use crate::ddl::render::{add_column_text, bridged_as, engine_args, live_defs, Bridged, ShapeView};
use crate::ddl::session::{opt_in_route, opted_in_steps};
use crate::ddl::snowflake::{complete, schema_in, SnowflakeTargets};
use crate::errors::ErrorView;
use crate::mapping::{
    opt_view, ColumnMappingView, DropTableStrategy, MappingView, NamespaceMapping, RouteMap,
    TableRule, TargetView,
};
use crate::pipeline::route_view::folded;
use crate::schema::{RelAttr, RelDescriptor, RelKey, SchemaDiff};
use crate::text::{quoted, views};

verus! {

/// The source's own namespaces are told by their names, and the one of the
/// configuration tables by the setting.
pub proof fn system_namespaces_are_told_by_name(ns: Seq<char>, runtime: Option<Seq<char>>)
    ensures
        ns.len() >= 3 && ns[0] == 'p' && ns[1] == 'g' && ns[2] == '_' ==> system_namespace(
            ns,
            runtime,
        ),
        ns == "information_schema"@ ==> system_namespace(ns, runtime),
        ns.len() > 0 && runtime == Some(ns) ==> system_namespace(ns, runtime),
        ns != "information_schema"@ && runtime != Some(ns) && (ns.len() < 3 || ns[0] != 'p' || ns[1]
            != 'g' || ns[2] != '_') ==> !system_namespace(ns, runtime),
{
    reveal_strlit("pg_");
    reveal_strlit("information_schema");
    if ns.len() >= 3 && ns[0] == 'p' && ns[1] == 'g' && ns[2] == '_' {
        assert("pg_"@ =~= ns.subrange(0, 3));
    }
    if "pg_"@.is_prefix_of(ns) {
        assert(ns.subrange(0, 3)[0] == ns[0]);
        assert(ns.subrange(0, 3)[1] == ns[1]);
        assert(ns.subrange(0, 3)[2] == ns[2]);
    }
}

/// Where everything is to be replicated, every relation outside of the system
/// namespaces is created, unless its settings say otherwise. Where it is not,
/// a relation without a choice of its own is created exactly if its namespace
/// creates.
pub proof fn everything_is_created_where_it_is_asked_for(
    cfg: DdlConfig,
    settings: TableRule,
    rel: RelKey,
)
    ensures
        ({
            let system = system_namespace(rel.namespace, opt_view(cfg.runtime_config_schema));
            let listed = exists|i: int|
                0 <= i < cfg.auto_create_namespaces@.len()
                    && (#[trigger] cfg.auto_create_namespaces@[i])@ == rel.namespace;
            &&& cfg.replicate_all && !system && settings.replicate != Some(false) ==> cfg.creates(
                settings,
                rel,
            )
            &&& !cfg.replicate_all && settings.replicate is None ==> (cfg.creates(settings, rel)
                <==> listed)
            &&& settings.replicate == Some(false) ==> !cfg.creates(settings, rel)
            &&& settings.replicate == Some(true) && !system ==> cfg.creates(settings, rel)
            &&& system && settings.replicate != Some(false) ==> (cfg.creates(settings, rel)
                <==> listed)
        }),
{
    let names = views(cfg.auto_create_namespaces@);
    if names.contains(rel.namespace) {
        let i = choose|i: int| 0 <= i < names.len() && names[i] == rel.namespace;
        assert(cfg.auto_create_namespaces@[i]@ == rel.namespace);
    }
    if exists|i: int|
        0 <= i < cfg.auto_create_namespaces@.len() && (#[trigger] cfg.auto_create_namespaces@[i])@
            == rel.namespace {
        let i = choose|i: int|
            0 <= i < cfg.auto_create_namespaces@.len()
                && (#[trigger] cfg.auto_create_namespaces@[i])@ == rel.namespace;
        assert(names[i] == rel.namespace);
    }
}

/// Asking for everything takes no relation away.
pub proof fn asking_for_everything_only_adds(a: DdlConfig, b: DdlConfig, s: TableRule, rel: RelKey)
    requires
        b == (DdlConfig { replicate_all: true, ..a }),
        a.creates(s, rel),
    ensures
        b.creates(s, rel),
{
}

/// The last entry of a namespace decides, and entries of others do not matter.
pub proof fn last_namespace_entry_decides(
    list: Seq<(String, NamespaceMapping)>,
    name: String,
    n: NamespaceMapping,
    ns: Seq<char>,
)
    ensures
        name@ == ns ==> namespace_in(list.push((name, n)), ns) == Some(n),
        name@ != ns ==> namespace_in(list.push((name, n)), ns) == namespace_in(list, ns),
        namespace_in(Seq::empty(), ns) is None,
{
    assert(list.push((name, n)).drop_last() =~= list);
}

/// A relation's own target goes before its namespace's database, and that
/// before the general one; its table is called as it is unless it says
/// otherwise.
pub proof fn targets_go_from_narrow_to_wide(cfg: DdlConfig, s: TableRule, rel: RelKey)
    ensures
        s.target_database matches Some(d) ==> cfg.target_of(s, rel).database == d@,
        s.target_database is None ==> (match namespace_in(cfg.namespaces@, rel.namespace) {
            Some(n) => match n.target_database {
                Some(d) => cfg.target_of(s, rel).database == d@,
                None => cfg.target_of(s, rel).database == cfg.target_database@,
            },
            None => cfg.target_of(s, rel).database == cfg.target_database@,
        }),
        s.target_table matches Some(t) ==> cfg.target_of(s, rel).table == t@,
        s.target_table is None ==> cfg.target_of(s, rel).table == rel.name,
{
}

/// A namespace's own drop strategy goes before the general one.
pub proof fn drop_strategies_go_from_narrow_to_wide(
    cfg: DdlConfig,
    name: String,
    n: NamespaceMapping,
)
    ensures
        ({
            let list = cfg.namespaces@;
            namespace_in(list, name@) == Some(n) ==> cfg.strategy_of(name@) == (match n.drop_table_strategy {
                Some(s) => s,
                None => cfg.drop_table_strategy,
            })
        }),
        namespace_in(cfg.namespaces@, name@) is None ==> cfg.strategy_of(name@)
            == cfg.drop_table_strategy,
{
}

/// The relation that a schema change is about.
pub open spec fn subject(ev: EventFacts) -> RelKey {
    match ev {
        EventFacts::Added(f) => f.desc.rel_name@,
        EventFacts::Changed { new, .. } => new.desc.rel_name@,
        EventFacts::Dropped(rel) => rel@,
    }
}

/// A change whose steps fold the column changes into the relation's route was
/// predicted to, and a plan that takes the prediction in routes the relation
/// that way from there on. No other change of columns is predicted.
pub proof fn folded_routes_are_planned_with(
    cfg: DdlConfig,
    routes: RouteMap,
    ev: EventFacts,
    excluded: bool,
    added: Seq<Bridged>,
    before: Option<MappingView>,
)
    requires
        ev is Changed,
    ensures
        ({
            let rel = subject(ev);
            let steps = changed_steps(routes.route(rel), *ev->old, *ev->diff, added);
            let effect = effect_of(cfg, routes, ev, excluded);
            &&& steps.last() is FoldDiff <==> effect is Some
            &&& steps.last() is FoldDiff ==> effect == Some((rel, Some(ev->folded@)))
            &&& effect matches Some(e) ==> folded(before, seq![e], rel) == Some(ev->folded@)
        }),
{
    let rel = subject(ev);
    let e: EffectView = (rel, Some(ev->folded@));
    assert(seq![e].last() == e);
}

/// A drop takes the route away in the plan exactly where its steps drop the
/// table and forget the route.
pub proof fn dropped_routes_are_planned_without(
    cfg: DdlConfig,
    routes: RouteMap,
    ev: EventFacts,
    excluded: bool,
    target: Option<TargetView>,
    before: Option<MappingView>,
)
    requires
        ev is Dropped,
        target is Some <==> routes.route(subject(ev)) is Some,
    ensures
        ({
            let rel = subject(ev);
            let steps = dropped_steps(cfg, rel, target);
            let effect = effect_of(cfg, routes, ev, excluded);
            &&& steps.contains(StepView::Forget) <==> effect is Some
            &&& effect is Some <==> steps.len() > 0 && steps[0] is Execute
            &&& effect is Some ==> effect == Some((rel, None::<MappingView>)) && folded(
                before,
                seq![effect->0],
                rel,
            ) is None
            &&& cfg.strategy_of(rel.namespace) != DropTableStrategy::Drop ==> effect is None
            &&& cfg.strategy_of(rel.namespace) == DropTableStrategy::Drop && target is Some
                ==> effect is Some
        }),
{
    let rel = subject(ev);
    let steps = dropped_steps(cfg, rel, target);
    if target is Some && cfg.strategy_of(rel.namespace) == DropTableStrategy::Drop {
        assert(steps[2] is Forget);
        let e: EffectView = (rel, None);
        assert(seq![e].last() == e);
    } else {
        assert forall|i: int| 0 <= i < steps.len() implies steps[i] != StepView::Forget by {}
    }
}

/// A prediction speaks of the changed relation alone.
pub proof fn predictions_are_about_their_relation(
    cfg: DdlConfig,
    routes: RouteMap,
    ev: EventFacts,
    excluded: bool,
    before: Option<MappingView>,
    other: RelKey,
)
    requires
        other != subject(ev),
        effect_of(cfg, routes, ev, excluded) is Some,
    ensures
        ({
            let (rel, _) = effect_of(cfg, routes, ev, excluded)->0;
            rel == subject(ev)
        }),
        folded(before, seq![effect_of(cfg, routes, ev, excluded)->0], other) == before,
{
    let e = effect_of(cfg, routes, ev, excluded)->0;
    assert(seq![e].last() == e);
    assert(seq![e].drop_last() =~= Seq::empty());
    assert(folded(before, seq![e].drop_last(), other) == before);
}

/// On a Snowflake destination the plan follows the steps: a fold, a rename, a
/// new route and a forgotten one are each predicted as they are applied.
pub proof fn snowflake_plans_follow_the_steps(
    cfg: DdlConfig,
    routes: RouteMap,
    ev: EventFacts,
    excluded: bool,
    targets: SnowflakeTargets,
)
    requires
        snowflake_steps(cfg, routes, ev, excluded, targets) is Ok,
    ensures
        ({
            let steps = snowflake_steps(cfg, routes, ev, excluded, targets)->Ok_0;
            let effects = snowflake_effects(cfg, routes, ev, excluded, targets);
            forall|i: int|
                0 <= i < steps.len() ==> match #[trigger] steps[i] {
                    StepView::FoldDiff => effects == Ok::<_, ErrorView>(
                        seq![(subject(ev), Some(ev->folded@))],
                    ),
                    StepView::Register(m) => effects == Ok::<_, ErrorView>(
                        seq![(subject(ev), Some(m))],
                    ),
                    StepView::Forget => effects == Ok::<_, ErrorView>(
                        seq![(subject(ev), None::<MappingView>)],
                    ),
                    StepView::Rename(m) => effects == Ok::<_, ErrorView>(
                        seq![(ev->old.rel_name@, None::<MappingView>), (subject(ev), Some(m))],
                    ),
                    _ => true,
                }
        }),
{
}

/// Nothing is executed for a relation that has no route.
pub proof fn unrouted_relations_are_left_alone(
    cfg: DdlConfig,
    rel: RelKey,
    old: RelDescriptor,
    diff: SchemaDiff,
    added: Seq<Bridged>,
    snow: bool,
    i: int,
)
    ensures
        0 <= i < changed_steps(None, old, diff, added).len() ==> changed_steps(
            None,
            old,
            diff,
            added,
        )[i] is Count,
        0 <= i < dropped_steps(cfg, rel, None).len() ==> dropped_steps(cfg, rel, None)[i] is Count,
        truncate_steps(None, snow).len() == 0,
{
}

/// A truncate empties a routed relation's table, and Snowflake is asked in its
/// own way.
pub proof fn truncates_reach_the_routed_table(t: TargetView)
    ensures
        truncate_steps(Some(t), true) == seq![StepView::TruncateSnowflake],
        truncate_steps(Some(t), false).len() == 1,
        truncate_steps(Some(t), false)[0] is Execute,
        t.sql().is_suffix_of(truncate_steps(Some(t), false)[0]->Execute_0),
{
    let text = truncate_steps(Some(t), false)[0]->Execute_0;
    assert(text.subrange(text.len() - t.sql().len(), text.len() as int) =~= t.sql());
}

proof fn lemma_added(target: Seq<char>, added: Seq<Bridged>, i: int)
    requires
        0 <= i < added.len(),
        added[i] is Some,
    ensures
        ({
            let (name, r) = added[i]->0;
            add_steps(target, added).contains(
                StepView::Execute(
                    add_column_text(target, name@, r.ch_type@, opt_view(r.default_sql)),
                ),
            )
        }),
    decreases added.len(),
{
    let (name, r) = added[i]->0;
    let want = StepView::Execute(
        add_column_text(target, name@, r.ch_type@, opt_view(r.default_sql)),
    );
    let rest = add_steps(target, added.drop_last());
    let all = add_steps(target, added);
    if i == added.len() - 1 {
        assert(all[rest.len() as int] == want);
    } else {
        lemma_added(target, added.drop_last(), i);
        let k = choose|k: int| 0 <= k < rest.len() && rest[k] == want;
        assert(all[k] == want);
    }
}

proof fn lemma_dropped(target: Seq<char>, attrs: Seq<RelAttr>, dropped: Seq<i16>, i: int)
    requires
        0 <= i < dropped.len(),
        old_name(attrs, dropped[i]) is Some,
    ensures
        drop_steps(target, attrs, dropped).contains(
            StepView::Execute(drop_column_text(target, old_name(attrs, dropped[i])->0)),
        ),
    decreases dropped.len(),
{
    let want = StepView::Execute(drop_column_text(target, old_name(attrs, dropped[i])->0));
    let rest = drop_steps(target, attrs, dropped.drop_last());
    let all = drop_steps(target, attrs, dropped);
    if i == dropped.len() - 1 {
        assert(all[rest.len() as int] == want);
    } else {
        lemma_dropped(target, attrs, dropped.drop_last(), i);
        let k = choose|k: int| 0 <= k < rest.len() && rest[k] == want;
        assert(all[k] == want);
    }
}

proof fn lemma_renamed(
    target: Seq<char>,
    cols: Seq<ColumnMappingView>,
    renames: Seq<(i16, String, String)>,
    i: int,
    from: int,
)
    requires
        0 <= i < renames.len(),
        0 <= from < cols.len(),
        cols[from].target_name == renames[i].1@,
        forall|c: int| 0 <= c < cols.len() ==> (#[trigger] cols[c]).target_name != renames[i].2@,
    ensures
        rename_steps(target, cols, renames).contains(
            StepView::Execute(rename_text(target, renames[i].1@, renames[i].2@)),
        ),
    decreases renames.len(),
{
    let want = StepView::Execute(rename_text(target, renames[i].1@, renames[i].2@));
    let rest = rename_steps(target, cols, renames.drop_last());
    let all = rename_steps(target, cols, renames);
    if i == renames.len() - 1 {
        assert(all[rest.len() as int + 1] == want);
    } else {
        lemma_renamed(target, cols, renames.drop_last(), i, from);
        let k = choose|k: int| 0 <= k < rest.len() && rest[k] == want;
        assert(all[k] == want);
    }
}

/// A column change of a routed relation reaches its table: every added column
/// with a counterpart is added under its name and type.
pub proof fn added_columns_reach_the_table(
    m: MappingView,
    old: RelDescriptor,
    diff: SchemaDiff,
    added: Seq<Bridged>,
    i: int,
)
    requires
        0 <= i < added.len(),
        added[i] is Some,
    ensures
        ({
            let (name, r) = added[i]->0;
            changed_steps(Some(m), old, diff, added).contains(
                StepView::Execute(
                    add_column_text(m.target.sql(), name@, r.ch_type@, opt_view(r.default_sql)),
                ),
            )
        }),
{
    let t = m.target.sql();
    let (name, r) = added[i]->0;
    let want = StepView::Execute(add_column_text(t, name@, r.ch_type@, opt_view(r.default_sql)));
    lemma_added(t, added, i);
    let adds = add_steps(t, added);
    let renames = rename_steps(t, m.columns, diff.renamed_columns@);
    let k = choose|k: int| 0 <= k < adds.len() && adds[k] == want;
    assert(changed_steps(Some(m), old, diff, added)[renames.len() + k] == want);
}

/// Every dropped column that the relation had is dropped.
pub proof fn dropped_columns_leave_the_table(
    m: MappingView,
    old: RelDescriptor,
    diff: SchemaDiff,
    added: Seq<Bridged>,
    i: int,
)
    requires
        0 <= i < diff.dropped_columns@.len(),
        old_name(old.attributes@, diff.dropped_columns@[i]) is Some,
    ensures
        changed_steps(Some(m), old, diff, added).contains(
            StepView::Execute(
                drop_column_text(
                    m.target.sql(),
                    old_name(old.attributes@, diff.dropped_columns@[i])->0,
                ),
            ),
        ),
{
    let t = m.target.sql();
    let want = StepView::Execute(
        drop_column_text(t, old_name(old.attributes@, diff.dropped_columns@[i])->0),
    );
    lemma_dropped(t, old.attributes@, diff.dropped_columns@, i);
    let adds = add_steps(t, added);
    let renames = rename_steps(t, m.columns, diff.renamed_columns@);
    let drops = drop_steps(t, old.attributes@, diff.dropped_columns@);
    let k = choose|k: int| 0 <= k < drops.len() && drops[k] == want;
    assert(changed_steps(Some(m), old, diff, added)[renames.len() + adds.len() + k] == want);
}

/// Every renamed column that the table has under its old name, and under the
/// new one not, is renamed.
pub proof fn renamed_columns_are_renamed_in_the_table(
    m: MappingView,
    old: RelDescriptor,
    diff: SchemaDiff,
    added: Seq<Bridged>,
    i: int,
    from: int,
)
    requires
        0 <= i < diff.renamed_columns@.len(),
        0 <= from < m.columns.len(),
        m.columns[from].target_name == diff.renamed_columns@[i].1@,
        forall|c: int|
            0 <= c < m.columns.len() ==> (#[trigger] m.columns[c]).target_name
                != diff.renamed_columns@[i].2@,
    ensures
        changed_steps(Some(m), old, diff, added).contains(
            StepView::Execute(
                rename_text(
                    m.target.sql(),
                    diff.renamed_columns@[i].1@,
                    diff.renamed_columns@[i].2@,
                ),
            ),
        ),
{
    let t = m.target.sql();
    let want = StepView::Execute(
        rename_text(t, diff.renamed_columns@[i].1@, diff.renamed_columns@[i].2@),
    );
    lemma_renamed(t, m.columns, diff.renamed_columns@, i, from);
    let renames = rename_steps(t, m.columns, diff.renamed_columns@);
    let k = choose|k: int| 0 <= k < renames.len() && renames[k] == want;
    assert(changed_steps(Some(m), old, diff, added)[k] == want);
}

/// An attribute's name is that of the first with its number.
pub proof fn dropped_columns_are_named_by_their_attribute(attrs: Seq<RelAttr>, i: int)
    requires
        0 <= i < attrs.len(),
        forall|j: int| 0 <= j < i ==> (#[trigger] attrs[j]).attnum != attrs[i].attnum,
    ensures
        old_name(attrs, attrs[i].attnum) == Some(attrs[i].name@),
    decreases i,
{
    if i > 0 {
        let rest = attrs.subrange(1, attrs.len() as int);
        assert(attrs[0].attnum != attrs[i].attnum);
        assert forall|j: int| 0 <= j < i - 1 implies (#[trigger] rest[j]).attnum
            != rest[i - 1].attnum by {
            assert(rest[j] == attrs[j + 1]);
        }
        dropped_columns_are_named_by_their_attribute(rest, i - 1);
    }
}

/// A new relation is created and routed where it is to be: an excluded one, or
/// one that is not to be created, is passed over. Its route is that of its
/// statement's columns.
pub proof fn new_relations_are_created_and_routed(
    cfg: DdlConfig,
    f: RelationFacts,
    excluded: bool,
)
    ensures
        ({
            let steps = added_steps(cfg, f, None, excluded, None);
            let makes = !excluded && cfg.creates(*f.settings, f.rel()) && f.defs() is Some;
            &&& steps is Ok
            &&& makes ==> {
                &&& steps->Ok_0.contains(StepView::EnsureDatabase(
                    cfg.target_of(*f.settings, f.rel()).database,
                ))
                &&& steps->Ok_0[1] is Execute
                &&& steps->Ok_0.last() is Register
                &&& steps->Ok_0.last()->Register_0.target == cfg.target_of(*f.settings, f.rel())
                &&& steps->Ok_0.last()->Register_0.columns.len() == f.defs()->0.len()
                &&& forall|i: int|
                    0 <= i < f.defs()->0.len() ==> {
                        let c = #[trigger] steps->Ok_0.last()->Register_0.columns[i];
                        &&& c.src_attnum == f.defs()->0[i].attnum
                        &&& c.target_name == f.defs()->0[i].name
                        &&& c.target_type == f.defs()->0[i].ch_type
                    }
            }
            &&& !makes ==> steps->Ok_0 == seq![StepView::Count(DdlCounter::Skipped, 1)]
        }),
{
    let steps = added_steps(cfg, f, None, excluded, None);
    if !excluded && cfg.creates(*f.settings, f.rel()) && f.defs() is Some {
        assert(steps->Ok_0[0] == StepView::EnsureDatabase(
            cfg.target_of(*f.settings, f.rel()).database,
        ));
    }
}

/// A routed relation keeps its route when it is seen again: its table is
/// created in the database of the route, and no route is registered.
pub proof fn routed_relations_keep_their_route(
    cfg: DdlConfig,
    f: RelationFacts,
    m: MappingView,
    excluded: bool,
    i: int,
)
    ensures
        added_steps(cfg, f, Some(m), excluded, None) is Ok,
        added_steps(cfg, f, Some(m), excluded, None)->Ok_0[0] == StepView::EnsureDatabase(
            m.target.database,
        ),
        added_steps(cfg, f, Some(m), excluded, None)->Ok_0[1] is Execute,
        0 <= i < added_steps(cfg, f, Some(m), excluded, None)->Ok_0.len() ==> !(added_steps(
            cfg,
            f,
            Some(m),
            excluded,
            None,
        )->Ok_0[i] is Register),
{
}

/// An opt-in creates its table whatever its namespace does, as long as every
/// live column has a counterpart.
pub proof fn opt_ins_create_their_table(
    cfg: DdlConfig,
    f: RelationFacts,
    mapped: Option<MappingView>,
)
    ensures
        ({
            let r = opted_in_steps(cfg, f, mapped, None);
            &&& r is Ok
            &&& r->Ok_0.1 <==> f.defs() is Some
            &&& r->Ok_0.1 ==> r->Ok_0.0[1] is Execute && r->Ok_0.0[0] == StepView::EnsureDatabase(
                cfg.target_of(*f.settings, f.rel()).database,
            )
            &&& !r->Ok_0.1 ==> r->Ok_0.0.len() == 1 && r->Ok_0.0[0] is Count
        }),
{
}

/// A Snowflake opt-in goes to the one table that its relation may have, with
/// every live column under its own name.
pub proof fn snowflake_opt_ins_keep_names_and_places(
    f: RelationFacts,
    db: Option<Seq<char>>,
    table: Option<Seq<char>>,
    targets: SnowflakeTargets,
)
    requires
        opt_in_route(f, db, table, targets) is Ok,
    ensures
        ({
            let m = opt_in_route(f, db, table, targets)->Ok_0;
            &&& m.target == targets.target(f.rel())
            &&& db matches Some(d) ==> d == m.target.database
            &&& table matches Some(t) ==> t == m.target.table
            &&& f.settings.target_database matches Some(d) ==> d@ == m.target.database
            &&& f.settings.target_table matches Some(t) ==> t@ == m.target.table
            &&& complete(f.desc.attributes@, m.columns)
        }),
{
}

/// A relation's Snowflake table is called as it is, in the schema that its
/// namespace is mapped to, else in the one of its name.
pub proof fn snowflake_tables_keep_their_names(
    t: SnowflakeTargets,
    rel: RelKey,
    list: Seq<(String, String)>,
    from: String,
    to: String,
    ns: Seq<char>,
)
    ensures
        t.target(rel).table == rel.name,
        t.schema_mapping@.len() == 0 ==> t.target(rel).database == rel.namespace,
        schema_in(t.schema_mapping@, rel.namespace) matches Some(s) ==> t.target(rel).database == s,
        from@ == ns ==> schema_in(list.push((from, to)), ns) == Some(to@),
        from@ != ns ==> schema_in(list.push((from, to)), ns) == schema_in(list, ns),
{
    assert(list.push((from, to)).drop_last() =~= list);
}

/// A table keeps the newest version of each row by its position, and drops
/// deleted ones itself unless deletes are to stay.
pub proof fn engines_keep_the_newest_version(shape: ShapeView)
    ensures
        quoted(shape.system.lsn).is_prefix_of(engine_args(shape)),
        shape.soft_delete || shape.system.is_deleted is None ==> engine_args(shape) == quoted(
            shape.system.lsn,
        ),
        !shape.soft_delete && shape.system.is_deleted is Some ==> quoted(
            shape.system.is_deleted->0,
        ).is_suffix_of(engine_args(shape)),
{
    let args = engine_args(shape);
    let lsn = quoted(shape.system.lsn);
    assert(args.subrange(0, lsn.len() as int) =~= lsn);
    if !shape.soft_delete && shape.system.is_deleted is Some {
        let d = quoted(shape.system.is_deleted->0);
        assert(args.subrange(args.len() - d.len(), args.len() as int) =~= d);
    }
}

/// A created table has a column for every live attribute, in order, and none
/// for a dropped one; one attribute without a counterpart keeps the whole
/// table from being created.
pub proof fn tables_have_a_column_per_live_attribute(
    attrs: Seq<RelAttr>,
    bridged: Seq<Bridged>,
    a: RelAttr,
    b: Bridged,
)
    requires
        attrs.len() == bridged.len(),
    ensures
        ({
            let before = live_defs(attrs, bridged);
            let after = live_defs(attrs.push(a), bridged.push(b));
            &&& a.dropped ==> after == before
            &&& !a.dropped && b is None ==> after is None
            &&& before is None ==> after is None
            &&& !a.dropped && b is Some && before is Some ==> {
                &&& after is Some
                &&& after->0.len() == before->0.len() + 1
                &&& after->0.drop_last() == before->0
                &&& after->0.last().attnum == a.attnum
                &&& b matches Some((name, r)) && after->0.last().name == name@
                    && after->0.last().ch_type == r.ch_type@
            }
        }),
{
    assert(attrs.push(a).drop_last() =~= attrs);
    assert(bridged.push(b).drop_last() =~= bridged);
    if !a.dropped && b is Some && live_defs(attrs, bridged) is Some {
        let after = live_defs(attrs.push(a), bridged.push(b))->0;
        assert(after.drop_last() =~= live_defs(attrs, bridged)->0);
    }
}

/// Members of the key are bridged as such, live attributes are all asked for,
/// and dropped ones are not.
pub proof fn key_members_are_bridged_as_such(att: RelAttr, key: Seq<i16>, i: int)
    ensures
        att.dropped <==> bridged_as(att, key) is None,
        !att.dropped && 0 <= i < key.len() && key[i] == att.attnum ==> bridged_as(att, key) == Some(
            true,
        ),
        bridged_as(att, key) == Some(true) ==> exists|k: int|
            0 <= k < key.len() && #[trigger] key[k] == att.attnum,
{
    if bridged_as(att, key) == Some(true) {
        let k = choose|k: int| 0 <= k < key.len() && key[k] == att.attnum;
        assert(key[k] == att.attnum);
    }
}

} // verus!
