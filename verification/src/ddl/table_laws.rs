//! What destination tables look like, and which routes Snowflake takes.
use vstd::prelude::*;
use vstd::string::*;

use crate::ddl::apply::{
    add_steps, added_steps, already_renamed, changed_steps, drop_steps, old_name, rename_steps, DdlCounter,
    DdlStats, RelationFacts, StepView,
};
use crate::ddl::config::{auto_create_names, system_namespace, DdlConfig};
use crate::ddl::predict::{snowflake_effects, snowflake_steps, EventFacts};
use crate::ddl::render::{
    chosen_keys, derived_keys, key_name, mapped_def, nullable_type, primary_key_clause, sort_keys,
    sortable, system_defs, Bridged, DefView, ShapeView,
};
use crate::ddl::session::{mapped_fault, opt_in_route, overridden};
use crate::ddl::snowflake::{
    complete, live_attnum, renamed_from, route_fault, schema_in, snow_columns, ColumnRule,
    SnowflakeTargets,
};
use crate::errors::ErrorView;
use crate::mapping::{
    opt_view, ColumnMappingView, DropTableStrategy, MappingView, NamespaceMapping, RouteMap, SystemView, TableRule,
};
use crate::plan::quoted_all;
use crate::schema::{RelAttr, RelDescriptor, RelKey, SchemaDiff};
use crate::text::{lowered, quoted};

verus! {

/// A count goes to its own counter and changes no other.
pub proof fn counts_go_to_their_counter(s: DdlStats, c: DdlCounter, n: u64)
    requires
        s.held(c) + n <= u64::MAX,
    ensures
        s.counted(c, n).held(c) == s.held(c) + n,
        forall|d: DdlCounter| d != c ==> #[trigger] s.counted(c, n).held(d) == s.held(d),
        s.held(DdlCounter::Altered) == s.alters_applied,
        s.held(DdlCounter::Created) == s.creates_applied,
        s.held(DdlCounter::Dropped) == s.drops_applied,
        s.held(DdlCounter::Skipped) == s.skipped,
        s.held(DdlCounter::TypesRejected) == s.type_changes_rejected,
{
}

/// How often a run of steps counts under a counter.
pub open spec fn counts(steps: Seq<StepView>, c: DdlCounter) -> nat
    decreases steps.len(),
{
    if steps.len() == 0 {
        0
    } else {
        counts(steps.drop_last(), c) + (match steps.last() {
            StepView::Count(d, n) => if d == c {
                n as nat
            } else {
                0
            },
            _ => 0,
        })
    }
}

proof fn lemma_counts_push(steps: Seq<StepView>, x: StepView, y: StepView, c: DdlCounter)
    ensures
        counts(steps.push(x), c) == counts(steps, c) + counts(seq![x], c),
        counts(steps.push(x).push(y), c) == counts(steps, c) + counts(seq![x], c) + counts(
            seq![y],
            c,
        ),
        x matches StepView::Count(d, n) ==> counts(seq![x], c) == (if d == c {
            n as nat
        } else {
            0
        }),
        !(x is Count) ==> counts(seq![x], c) == 0,
        y matches StepView::Count(d, n) ==> counts(seq![y], c) == (if d == c {
            n as nat
        } else {
            0
        }),
        !(y is Count) ==> counts(seq![y], c) == 0,
{
    assert(steps.push(x).drop_last() == steps);
    assert(steps.push(x).push(y).drop_last() == steps.push(x));
    assert(seq![x].drop_last() == Seq::<StepView>::empty());
    assert(seq![y].drop_last() == Seq::<StepView>::empty());
    assert(counts(Seq::<StepView>::empty(), c) == 0);
    assert(counts(steps.push(x), c) == counts(steps, c) + counts(seq![x], c));
    assert(seq![y].last() == y && steps.push(x).push(y).last() == y);
    assert(counts(steps.push(x).push(y), c) == counts(steps.push(x), c) + counts(seq![y], c));
}

/// Every added column is counted once: as a change where it has a counterpart,
/// as skipped where it has none.
pub proof fn added_columns_are_counted(target: Seq<char>, added: Seq<Bridged>, b: Bridged)
    ensures
        counts(add_steps(target, added.push(b)), DdlCounter::Altered) == counts(
            add_steps(target, added),
            DdlCounter::Altered,
        ) + (if b is Some {
            1nat
        } else {
            0
        }),
        counts(add_steps(target, added.push(b)), DdlCounter::Skipped) == counts(
            add_steps(target, added),
            DdlCounter::Skipped,
        ) + (if b is None {
            1nat
        } else {
            0
        }),
{
    assert(added.push(b).drop_last() == added);
    let before = add_steps(target, added);
    let altered = StepView::Count(DdlCounter::Altered, 1);
    let skipped = StepView::Count(DdlCounter::Skipped, 1);
    let x = add_steps(target, added.push(b))[before.len() as int];
    lemma_counts_push(before, x, altered, DdlCounter::Altered);
    lemma_counts_push(before, x, altered, DdlCounter::Skipped);
    lemma_counts_push(before, skipped, altered, DdlCounter::Altered);
    lemma_counts_push(before, skipped, altered, DdlCounter::Skipped);
}

/// So is every dropped one: as a change where the relation had it.
pub proof fn dropped_columns_are_counted(
    target: Seq<char>,
    attrs: Seq<RelAttr>,
    dropped: Seq<i16>,
    a: i16,
)
    ensures
        counts(drop_steps(target, attrs, dropped.push(a)), DdlCounter::Altered) == counts(
            drop_steps(target, attrs, dropped),
            DdlCounter::Altered,
        ) + (if old_name(attrs, a) is Some {
            1nat
        } else {
            0
        }),
        counts(drop_steps(target, attrs, dropped.push(a)), DdlCounter::Skipped) == counts(
            drop_steps(target, attrs, dropped),
            DdlCounter::Skipped,
        ) + (if old_name(attrs, a) is None {
            1nat
        } else {
            0
        }),
{
    assert(dropped.push(a).drop_last() == dropped);
    let before = drop_steps(target, attrs, dropped);
    let altered = StepView::Count(DdlCounter::Altered, 1);
    let skipped = StepView::Count(DdlCounter::Skipped, 1);
    let x = drop_steps(target, attrs, dropped.push(a))[before.len() as int];
    lemma_counts_push(before, x, altered, DdlCounter::Altered);
    lemma_counts_push(before, x, altered, DdlCounter::Skipped);
    lemma_counts_push(before, skipped, altered, DdlCounter::Altered);
    lemma_counts_push(before, skipped, altered, DdlCounter::Skipped);
}

/// A column is renamed unless the table has the new name already or has the old
/// one no more; before that the route must not have moved.
pub proof fn renames_are_checked_and_counted(
    target: Seq<char>,
    cols: Seq<ColumnMappingView>,
    renames: Seq<(i16, String, String)>,
    r: (i16, String, String),
)
    ensures
        ({
            let before = rename_steps(target, cols, renames);
            let after = rename_steps(target, cols, renames.push(r));
            &&& after[before.len() as int] is CheckUnmoved
            &&& after.subrange(0, before.len() as int) == before
            &&& counts(after, DdlCounter::Altered) == counts(before, DdlCounter::Altered) + (
            if already_renamed(cols, r.1@, r.2@) {
                0nat
            } else {
                1
            })
        }),
        already_renamed(cols, r.1@, r.2@) <==> (exists|i: int|
            0 <= i < cols.len() && (#[trigger] cols[i]).target_name == r.2@) || (forall|i: int|
            0 <= i < cols.len() ==> (#[trigger] cols[i]).target_name != r.1@),
{
    assert(renames.push(r).drop_last() == renames);
    let before = rename_steps(target, cols, renames);
    let after = rename_steps(target, cols, renames.push(r));
    assert(after.subrange(0, before.len() as int) == before);
    let check = StepView::CheckUnmoved;
    let altered = StepView::Count(DdlCounter::Altered, 1);
    lemma_counts_push(before, check, altered, DdlCounter::Altered);
    if !already_renamed(cols, r.1@, r.2@) {
        let x = after[before.len() as int + 1];
        lemma_counts_push(before.push(check), x, altered, DdlCounter::Altered);
        assert(after == before.push(check).push(x).push(altered));
    } else {
        assert(after == before.push(check));
    }
}

/// Changed types of a routed relation are counted and left as they are; the
/// rest of the change goes through.
pub proof fn changed_types_are_rejected(
    m: MappingView,
    old: RelDescriptor,
    diff: SchemaDiff,
    added: Seq<Bridged>,
)
    requires
        diff.type_changes@.len() <= u64::MAX,
    ensures
        ({
            let steps = changed_steps(Some(m), old, diff, added);
            &&& steps.last() is FoldDiff
            &&& diff.type_changes@.len() > 0 ==> steps.contains(
                StepView::Count(DdlCounter::TypesRejected, diff.type_changes@.len() as u64),
            )
        }),
{
    let steps = changed_steps(Some(m), old, diff, added);
    if diff.type_changes@.len() > 0 {
        assert(steps[steps.len() - 3] == StepView::Count(
            DdlCounter::TypesRejected,
            diff.type_changes@.len() as u64,
        ));
    }
}

/// The namespaces that create tables are those that say so, in their order.
pub proof fn creating_namespaces_are_listed(
    list: Seq<(String, NamespaceMapping)>,
    name: String,
    n: NamespaceMapping,
)
    ensures
        auto_create_names(Seq::<(String, NamespaceMapping)>::empty()).len() == 0,
        n.auto_create ==> auto_create_names(list.push((name, n))) == auto_create_names(list).push(
            name@,
        ),
        !n.auto_create ==> auto_create_names(list.push((name, n))) == auto_create_names(list),
{
    assert(list.push((name, n)).drop_last() == list);
}

/// A relation's own choice is taken, except that none opts a system relation
/// in.
pub proof fn system_relations_are_not_opted_in(cfg: DdlConfig, s: TableRule, rel: RelKey)
    ensures
        s.replicate == Some(false) ==> cfg.scope_of(s, rel) == Some(false),
        s.replicate is None ==> cfg.scope_of(s, rel) is None,
        s.replicate == Some(true) ==> (cfg.scope_of(s, rel) == Some(true) <==> !system_namespace(
            rel.namespace,
            opt_view(cfg.runtime_config_schema),
        )),
        s.replicate == Some(true) && system_namespace(
            rel.namespace,
            opt_view(cfg.runtime_config_schema),
        ) ==> cfg.scope_of(s, rel) is None,
{
}

/// A table has the sort columns and the key of its own settings, the general
/// system columns under the names that those change, and keeps deletes as all
/// tables do.
pub proof fn tables_have_their_own_shape(cfg: DdlConfig, s: TableRule)
    ensures
        ({
            let shape = cfg.shape_of(s);
            &&& shape.soft_delete == cfg.soft_delete
            &&& (s.order_by is None ==> shape.order_by.len() == 0)
            &&& (s.order_by matches Some(v) ==> shape.order_by.len() == v@.len() && forall|i: int|
                0 <= i < v@.len() ==> shape.order_by[i] == (#[trigger] v@[i])@)
            &&& (s.primary_key is None ==> shape.primary_key.len() == 0)
            &&& (s.primary_key matches Some(v) ==> shape.primary_key.len() == v@.len() && forall|
                i: int,
            |
                0 <= i < v@.len() ==> shape.primary_key[i] == (#[trigger] v@[i])@)
            &&& (s.system.lsn is None ==> shape.system.lsn == cfg.system@.lsn)
            &&& (s.system.is_deleted is None ==> shape.system.is_deleted == cfg.system@.is_deleted)
        }),
{
}

/// Without a key a table is sorted by the position of its rows; any key goes
/// before that.
pub proof fn keyless_tables_are_sorted_by_position(keys: Seq<Seq<char>>, sys: SystemView)
    ensures
        sort_keys(Seq::empty(), sys) == seq![quoted(sys.lsn)],
        keys.len() > 0 ==> sort_keys(keys, sys) == keys,
{
}

/// A table has a definition for each system column, in their order.
pub proof fn system_columns_are_defined(sys: SystemView)
    ensures
        system_defs(sys).len() == sys.names().len(),
        forall|i: int|
            0 <= i < sys.names().len() ==> quoted(#[trigger] sys.names()[i]).is_prefix_of(
                system_defs(sys)[i],
            ),
{
    assert forall|i: int| 0 <= i < sys.names().len() implies quoted(
        #[trigger] sys.names()[i],
    ).is_prefix_of(system_defs(sys)[i]) by {
        let q = quoted(sys.names()[i]);
        let d = system_defs(sys)[i];
        assert(d.subrange(0, q.len() as int) == q);
    }
}

/// The configured sort columns are taken when each can be sorted by; one that
/// cannot has the key decide.
pub proof fn unsortable_columns_do_not_sort(
    cols: Seq<DefView>,
    shape: ShapeView,
    derived: Seq<Seq<char>>,
    i: int,
)
    ensures
        shape.order_by.len() == 0 ==> chosen_keys(cols, shape, derived) == derived,
        0 <= i < shape.order_by.len() && !sortable(cols, shape.system, shape.order_by[i])
            ==> chosen_keys(cols, shape, derived) == derived,
        shape.order_by.len() > 0 && (forall|k: int|
            0 <= k < shape.order_by.len() ==> sortable(
                cols,
                shape.system,
                #[trigger] shape.order_by[k],
            )) ==> chosen_keys(cols, shape, derived) == quoted_all(shape.order_by),
{
}

/// A table can be sorted by a column that has no nulls, the last of its name,
/// and by its system columns.
pub proof fn columns_without_nulls_can_be_sorted_by(
    cols: Seq<DefView>,
    c: DefView,
    sys: SystemView,
    name: Seq<char>,
)
    ensures
        c.name == name ==> (sortable(cols.push(c), sys, name) <==> !nullable_type(c.ch_type)),
        c.name != name ==> sortable(cols.push(c), sys, name) == sortable(cols, sys, name),
        sortable(Seq::empty(), sys, name) <==> sys.names().contains(name),
{
    assert(cols.push(c).drop_last() == cols);
}

/// A member of the key sorts the table, behind the members before it, where it
/// has a column without nulls.
pub proof fn key_members_sort_the_table(cols: Seq<DefView>, key: Seq<i16>, a: i16)
    ensures
        derived_keys(cols, Seq::<i16>::empty()).len() == 0,
        key_name(cols, a) matches Some(n) ==> derived_keys(cols, key.push(a)) == derived_keys(
            cols,
            key,
        ).push(n),
        key_name(cols, a) is None ==> derived_keys(cols, key.push(a)) == derived_keys(cols, key),
{
    assert(key.push(a).drop_last() == key);
}

/// A member of the key has the quoted name of the first column of its number
/// that has no nulls.
pub proof fn key_members_have_a_column(cols: Seq<DefView>, a: i16)
    ensures
        key_name(cols, a) is None <==> forall|i: int|
            0 <= i < cols.len() && (#[trigger] cols[i]).attnum == a ==> nullable_type(
                cols[i].ch_type,
            ),
        key_name(cols, a) matches Some(n) ==> exists|i: int|
            0 <= i < cols.len() && (#[trigger] cols[i]).attnum == a && !nullable_type(
                cols[i].ch_type,
            ) && n == quoted(cols[i].name),
    decreases cols.len(),
{
    if cols.len() > 0 {
        let rest = cols.subrange(1, cols.len() as int);
        key_members_have_a_column(rest, a);
        if cols[0].attnum == a && !nullable_type(cols[0].ch_type) {
        } else if key_name(rest, a) is Some {
            let k = choose|k: int|
                0 <= k < rest.len() && (#[trigger] rest[k]).attnum == a && !nullable_type(
                    rest[k].ch_type,
                ) && key_name(rest, a) == Some(quoted(rest[k].name));
            assert(cols[k + 1] == rest[k]);
        } else {
            assert forall|i: int| 0 <= i < cols.len() && (#[trigger] cols[i]).attnum
                == a implies nullable_type(cols[i].ch_type) by {
                if i > 0 {
                    assert(rest[i - 1] == cols[i]);
                }
            }
        }
    }
}

/// A type has nulls when its name begins so.
pub proof fn nullable_types_are_told_by_name(inner: Seq<char>)
    ensures
        nullable_type("Nullable("@ + inner + ")"@),
        nullable_type("Nullable("@ + inner),
{
    let a = "Nullable("@ + inner + ")"@;
    assert(a.subrange(0, "Nullable("@.len() as int) == "Nullable("@);
    let b = "Nullable("@ + inner;
    assert(b.subrange(0, "Nullable("@.len() as int) == "Nullable("@);
}

/// A primary key is stated where its columns begin the sort order.
pub proof fn primary_keys_begin_the_order(keys: Seq<Seq<char>>, pk: Seq<Seq<char>>)
    ensures
        pk.len() == 0 ==> primary_key_clause(keys, pk).len() == 0,
        !quoted_all(pk).is_prefix_of(keys) ==> primary_key_clause(keys, pk).len() == 0,
        pk.len() > 0 && quoted_all(pk).is_prefix_of(keys) ==> "\nPRIMARY KEY ("@.is_prefix_of(
            primary_key_clause(keys, pk),
        ),
{
    let c = primary_key_clause(keys, pk);
    if pk.len() > 0 && quoted_all(pk).is_prefix_of(keys) {
        assert(c.subrange(0, "\nPRIMARY KEY ("@.len() as int) == "\nPRIMARY KEY ("@);
    }
}

/// A mapped column is defined under its target's name and type, without a
/// default.
pub proof fn mapped_columns_are_defined(c: ColumnMappingView)
    ensures
        mapped_def(c).attnum == c.src_attnum,
        mapped_def(c).name == c.target_name,
        mapped_def(c).ch_type == c.target_type,
        mapped_def(c).default_sql is None,
{
}

/// A relation goes to the schema that its namespace is mapped to, else to the
/// one of the same name, and keeps its own name.
pub proof fn namespaces_are_mapped_to_schemas(
    t: SnowflakeTargets,
    list: Seq<(String, String)>,
    ns: String,
    schema: String,
    rel: RelKey,
)
    ensures
        schema_in(list.push((ns, schema)), ns@) == Some(schema@),
        ns@ != rel.namespace ==> schema_in(list.push((ns, schema)), rel.namespace) == schema_in(
            list,
            rel.namespace,
        ),
        t.target(rel).table == rel.name,
        schema_in(t.schema_mapping@, rel.namespace) is None ==> t.target(rel).database
            == rel.namespace,
        schema_in(t.schema_mapping@, rel.namespace) matches Some(s) ==> t.target(rel).database == s,
{
    assert(list.push((ns, schema)).drop_last() == list);
}

/// A Snowflake route is taken when it maps every live column once and no other,
/// goes to the relation's own table and keeps the columns' names.
pub proof fn snowflake_routes_map_every_column(
    desc: RelDescriptor,
    m: MappingView,
    targets: SnowflakeTargets,
    i: int,
)
    ensures
        route_fault(desc, m, targets) is None ==> complete(desc.attributes@, m.columns) && m.target
            == targets.target(desc.rel_name@) && renamed_from(desc.attributes@, m.columns, 0)
            is None,
        complete(desc.attributes@, m.columns) && m.target == targets.target(desc.rel_name@)
            && renamed_from(desc.attributes@, m.columns, 0) is None ==> route_fault(
            desc,
            m,
            targets,
        ) is None,
        route_fault(desc, m, targets) matches Some(e) ==> e is Config,
        complete(desc.attributes@, m.columns) && 0 <= i < desc.attributes@.len()
            && !desc.attributes@[i].dropped ==> exists|j: int|
            0 <= j < m.columns.len() && (#[trigger] m.columns[j]).src_attnum
                == desc.attributes@[i].attnum,
        complete(desc.attributes@, m.columns) && 0 <= i < m.columns.len() ==> exists|j: int|
            0 <= j < desc.attributes@.len() && !(#[trigger] desc.attributes@[j]).dropped
                && desc.attributes@[j].attnum == m.columns[i].src_attnum,
{
    if complete(desc.attributes@, m.columns) && 0 <= i < m.columns.len() {
        let c = m.columns[i];
        assert(live_attnum(desc.attributes@, c.src_attnum));
    }
}

/// No live column may have another name than its attribute.
pub proof fn renamed_columns_are_found(attrs: Seq<RelAttr>, cols: Seq<ColumnMappingView>, i: int)
    requires
        0 <= i,
    ensures
        renamed_from(attrs, cols, i) is None <==> forall|k: int|
            i <= k < attrs.len() && !(#[trigger] attrs[k]).dropped ==> exists|j: int|
                0 <= j < cols.len() && (#[trigger] cols[j]).src_attnum == attrs[k].attnum
                    && cols[j].target_name == attrs[k].name@,
    decreases attrs.len() - i,
{
    if i < attrs.len() {
        renamed_columns_are_found(attrs, cols, i + 1);
    }
}

/// A Snowflake table has a column for every live attribute, under its own name
/// and in the order of the relation. A rule that names or types it otherwise is
/// refused, and so is a name that is empty or taken in any case.
pub proof fn snowflake_columns_keep_their_names(
    rel: RelKey,
    attrs: Seq<RelAttr>,
    rules: Seq<ColumnRule>,
    types: Seq<String>,
    a: RelAttr,
    rule: ColumnRule,
    ty: String,
)
    ensures
        ({
            let before = snow_columns(rel, attrs, rules, types);
            let after = snow_columns(rel, attrs.push(a), rules.push(rule), types.push(ty));
            let renames = rule.target_name is Some && rule.target_name->0@ != a.name@;
            let taken = before is Ok && exists|i: int|
                0 <= i < before->Ok_0.len() && lowered((#[trigger] before->Ok_0[i]).target_name)
                    == lowered(a.name@);
            &&& before is Err ==> after == before
            &&& before is Ok && a.dropped ==> after == before
            &&& before is Ok && !a.dropped && (renames || rule.target_type is Some) ==> after is Err
            &&& before is Ok && !a.dropped && (a.name@.len() == 0 || taken) ==> after is Err
            &&& before is Ok && !a.dropped && !renames && rule.target_type is None && a.name@.len()
                > 0 && !taken ==> {
                &&& after is Ok
                &&& after->Ok_0.len() == before->Ok_0.len() + 1
                &&& after->Ok_0.drop_last() == before->Ok_0
                &&& after->Ok_0.last().src_attnum == a.attnum
                &&& after->Ok_0.last().target_name == a.name@
                &&& after->Ok_0.last().target_type == ty@
            }
        }),
{
    assert(attrs.push(a).drop_last() == attrs);
    assert(rules.push(rule).drop_last() == rules);
    assert(types.push(ty).drop_last() == types);
}

/// On Snowflake a changed type is refused, before the table is touched, and so
/// is a rename onto a relation that is routed already. A change of a relation
/// without a route passes by.
pub proof fn snowflake_refuses_changed_types(
    cfg: DdlConfig,
    routes: RouteMap,
    ev: EventFacts,
    excluded: bool,
    targets: SnowflakeTargets,
)
    requires
        ev is Changed,
    ensures
        ({
            let was = ev->old.rel_name@;
            let now = ev->new.rel();
            let steps = snowflake_steps(cfg, routes, ev, excluded, targets);
            let effects = snowflake_effects(cfg, routes, ev, excluded, targets);
            &&& routes.route(was) is Some && ev->diff.type_changes@.len() > 0 ==> steps is Err
                && effects is Err
            &&& was != now && routes.route(was) is Some && routes.route(now) is Some ==> steps
                is Err && effects is Err
            &&& routes.route(was) is None && was == now ==> steps == Ok::<_, ErrorView>(
                seq![StepView::Count(DdlCounter::Skipped, 1)],
            )
            &&& routes.route(was) is Some && steps is Ok ==> steps->Ok_0[0]
                is ApplySnowflakeSchema && steps->Ok_0.last() == StepView::Count(
                DdlCounter::Altered,
                1,
            )
        }),
{
}

/// An opt-in may name the only target that is possible, and no other.
pub proof fn opt_ins_go_to_their_own_table(
    f: RelationFacts,
    db: Option<Seq<char>>,
    table: Option<Seq<char>>,
    targets: SnowflakeTargets,
    only: Seq<char>,
)
    ensures
        !overridden(None, None, only),
        !overridden(Some(only), Some(only), only),
        db matches Some(d) ==> (d != only ==> overridden(db, table, only)),
        table matches Some(t) ==> (t != only ==> overridden(db, table, only)),
        opt_in_route(f, db, table, targets) matches Ok(m) ==> m.target == targets.target(f.rel())
            && route_fault(*f.desc, m, targets) is None && (db matches Some(d) ==> d
            == targets.target(f.rel()).database) && (table matches Some(t) ==> t == targets.target(
            f.rel(),
        ).table),
{
}

/// A relation that is mapped is held to its mapping, any other to none.
pub proof fn mapped_relations_are_held_to_their_mapping(
    f: RelationFacts,
    m: MappingView,
    targets: SnowflakeTargets,
)
    ensures
        mapped_fault(f, None, targets) is None,
        mapped_fault(f, Some(m), targets) == route_fault(*f.desc, m, targets),
{
}

/// A new relation is created on Snowflake and routed to its own table. Settings
/// that name another table or database for it are refused.
pub proof fn new_snowflake_relations_go_to_their_own_table(
    cfg: DdlConfig,
    f: RelationFacts,
    excluded: bool,
    targets: SnowflakeTargets,
)
    requires
        !excluded,
        cfg.creates(*f.settings, f.rel()),
        f.snow() is Ok,
    ensures
        ({
            let steps = added_steps(cfg, f, None, excluded, Some(targets));
            let only = targets.target(f.rel());
            &&& f.settings.target_database is None && f.settings.target_table is None ==> steps
                is Ok
            &&& f.settings.target_table matches Some(t) ==> (t@ != only.table ==> steps is Err)
            &&& f.settings.target_database matches Some(d) ==> (d@ != only.database ==> steps
                is Err)
            &&& cfg.target_of(*f.settings, f.rel()) == only ==> steps is Ok
            &&& steps is Ok ==> steps->Ok_0[0] is EnsureSnowflakeTable && steps->Ok_0.last()
                is Register && steps->Ok_0.last()->Register_0.target == only
                && steps->Ok_0.last()->Register_0.columns == f.snow()->Ok_0
        }),
{
}

/// A change that leaves the types alone goes through, where the route that
/// comes of it can be taken.
pub proof fn snowflake_takes_other_changes(
    cfg: DdlConfig,
    routes: RouteMap,
    ev: EventFacts,
    excluded: bool,
    targets: SnowflakeTargets,
)
    requires
        ev is Changed,
        ev->old.rel_name@ == ev->new.rel(),
        routes.route(ev->new.rel()) is Some,
        ev->diff.type_changes@.len() == 0,
    ensures
        ({
            let steps = snowflake_steps(cfg, routes, ev, excluded, targets);
            let effects = snowflake_effects(cfg, routes, ev, excluded, targets);
            let fault = route_fault(*ev->new.desc, ev->folded@, targets);
            &&& steps is Ok <==> fault is None
            &&& effects is Ok <==> fault is None
            &&& steps is Ok ==> steps->Ok_0.contains(StepView::FoldDiff)
        }),
{
    let steps = snowflake_steps(cfg, routes, ev, excluded, targets);
    if steps is Ok {
        assert(steps->Ok_0[1] is FoldDiff);
    }
}

/// A drop strategy is told by its name in any case.
pub proof fn drop_strategies_are_told_by_name(s: Seq<char>, t: Seq<char>)
    ensures
        lowered(s) == lowered(t) ==> DropTableStrategy::named(s) == DropTableStrategy::named(t),
        lowered(s) == "retain"@ ==> DropTableStrategy::named(s) == Some(DropTableStrategy::Retain),
        lowered(s) == "warn"@ ==> DropTableStrategy::named(s) == Some(DropTableStrategy::Warn),
        lowered(s) == "drop"@ ==> DropTableStrategy::named(s) == Some(DropTableStrategy::Drop),
        DropTableStrategy::named(s) is Some ==> lowered(s) == "retain"@ || lowered(s) == "warn"@
            || lowered(s) == "drop"@,
{
    reveal_strlit("retain");
    reveal_strlit("warn");
    reveal_strlit("drop");
    assert("warn"@[0] == 'w' && "drop"@[0] == 'd');
}

/// An opt-in that names no other target is taken where its own route can be.
pub proof fn plain_opt_ins_are_taken(
    f: RelationFacts,
    db: Option<Seq<char>>,
    table: Option<Seq<char>>,
    targets: SnowflakeTargets,
)
    requires
        db is None || db == Some(targets.target(f.rel()).database),
        table is None || table == Some(targets.target(f.rel()).table),
        f.settings.target_database is None,
        f.settings.target_table is None,
        f.snow() is Ok,
    ensures
        ({
            let m = MappingView { target: targets.target(f.rel()), columns: f.snow()->Ok_0 };
            &&& route_fault(*f.desc, m, targets) is None ==> opt_in_route(f, db, table, targets)
                == Ok::<_, ErrorView>(m)
            &&& route_fault(*f.desc, m, targets) is Some ==> opt_in_route(f, db, table, targets)
                is Err
        }),
{
}

} // verus!
