//! What a schema change will do to the routing map, before it is applied, and
//! schema changes on a Snowflake destination.
use vstd::prelude::*;
use vstd::string::*;

use crate::ddl::apply::{
    added_steps, apply_added, derive_columns_for_mapping, derived_columns, skip, skipped, step_views,
    DdlCounter, DdlStep, RelationFacts, StepView,
};
use crate::ddl::config::DdlConfig;
use crate::ddl::snowflake::{
    route_fault, snowflake_columns, snowflake_target, validate_snowflake_route, SnowflakeTargets,
};
use crate::errors::{EmitterError, ErrorView};
use crate::mapping::{
    column_views, copy_columns, ColumnMapping, DropTableStrategy, MappingView, RouteMap,
    TableMapping, TableTarget,
};
use crate::schema::{RelDescriptor, RelKey, RelName, SchemaDiff};
use crate::text::views;

verus! {

/// A schema change with what is known of it. `folded` is the relation's route
/// with the column changes folded in.
pub enum EventFacts<'a> {
    Added(RelationFacts<'a>),
    Changed {
        old: &'a RelDescriptor,
        new: RelationFacts<'a>,
        diff: &'a SchemaDiff,
        folded: &'a TableMapping,
    },
    Dropped(&'a RelName),
}

impl<'a> EventFacts<'a> {
    pub open spec fn wf(&self) -> bool {
        match self {
            EventFacts::Added(f) => f.wf(),
            EventFacts::Changed { new, .. } => new.wf(),
            EventFacts::Dropped(_) => true,
        }
    }
}

/// A relation's new route; `None` for a route that goes.
pub type EffectView = (RelKey, Option<MappingView>);

/// The edit that applying `ev` makes to the routing map, if it makes one.
/// Relations that are only swept in by replicating everything are mapped on
/// first sight and not predicted.
pub open spec fn effect_of(
    cfg: DdlConfig,
    routes: RouteMap,
    ev: EventFacts,
    excluded: bool,
) -> Option<EffectView> {
    match ev {
        EventFacts::Added(f) => {
            let rel = f.rel();
            if routes.route(rel) is Some || excluded || !(views(
                cfg.auto_create_namespaces@,
            ).contains(rel.namespace) || cfg.scope_of(*f.settings, rel) == Some(true)) {
                None
            } else {
                match f.defs() {
                    None => None,
                    Some(defs) => Some(
                        (
                            rel,
                            Some(
                                MappingView {
                                    target: cfg.target_of(*f.settings, rel),
                                    columns: derived_columns(defs),
                                },
                            ),
                        ),
                    ),
                }
            }
        },
        EventFacts::Changed { new, folded, .. } => if routes.route(new.rel()) is Some {
            Some((new.rel(), Some(folded@)))
        } else {
            None
        },
        EventFacts::Dropped(rel) => if routes.route(rel@) is Some && cfg.strategy_of(
            rel@.namespace,
        ) == DropTableStrategy::Drop {
            Some((rel@, None))
        } else {
            None
        },
    }
}

/// A relation and its new route.
pub type Effect = (RelName, Option<TableMapping>);

pub open spec fn effect_view(e: Effect) -> EffectView {
    (
        e.0@,
        match e.1 {
            Some(m) => Some(m@),
            None => None,
        },
    )
}

pub open spec fn opt_effect(e: Option<Effect>) -> Option<EffectView> {
    match e {
        Some(x) => Some(effect_view(x)),
        None => None,
    }
}

/// Predict the edit without executing anything.
pub fn predict_route_effect(
    cfg: &DdlConfig,
    routes: &RouteMap,
    ev: &EventFacts<'_>,
    excluded: bool,
) -> (r: Option<Effect>)
    requires
        ev.wf(),
    ensures
        opt_effect(r) == effect_of(*cfg, *routes, *ev, excluded),
{
    match ev {
        EventFacts::Added(f) => {
            let rel: &RelName = &f.desc.rel_name;
            if routes.contains_key(rel) || excluded {
                return None;
            }
            let asked: bool = match cfg.declared_scope(f.settings, rel) {
                Some(b) => b,
                None => false,
            };
            if !(crate::ddl::config::names_hold(
                &cfg.auto_create_namespaces,
                rel.namespace.as_str(),
            ) || asked) {
                return None;
            }
            match derive_columns_for_mapping(&f.desc.attributes, f.bridged) {
                None => None,
                Some(columns) => Some(
                    (
                        rel.copied(),
                        Some(
                            TableMapping { target: cfg.create_target(f.settings, rel), columns },
                        ),
                    ),
                ),
            }
        },
        EventFacts::Changed { old: _, new, diff: _, folded } => {
            let rel: &RelName = &new.desc.rel_name;
            if routes.contains_key(rel) {
                Some((rel.copied(), Some(folded.copied())))
            } else {
                None
            }
        },
        EventFacts::Dropped(rel) => {
            if !routes.contains_key(rel) {
                return None;
            }
            match cfg.drop_strategy_for(rel.namespace.as_str()) {
                DropTableStrategy::Drop => Some((rel.copied(), None)),
                _ => None,
            }
        },
    }
}

pub open spec fn types_changed(rel: RelKey) -> ErrorView {
    ErrorView::Config(
        "Snowflake schema change for "@ + rel.text() + " includes unsupported type changes"@,
    )
}

pub open spec fn target_taken(rel: RelKey) -> ErrorView {
    ErrorView::Config("Snowflake rename target "@ + rel.text() + " is already mapped"@)
}

fn types_changed_error(rel: &RelName) -> (e: EmitterError)
    ensures
        e@ == types_changed(rel@),
{
    let mut m: String = String::from_str("Snowflake schema change for ");
    m.append(rel.to_text().as_str());
    m.append(" includes unsupported type changes");
    EmitterError::Config(m)
}

fn target_taken_error(rel: &RelName) -> (e: EmitterError)
    ensures
        e@ == target_taken(rel@),
{
    let mut m: String = String::from_str("Snowflake rename target ");
    m.append(rel.to_text().as_str());
    m.append(" is already mapped");
    EmitterError::Config(m)
}

/// The edits that applying `ev` makes on a Snowflake destination. A rename
/// moves two entries.
pub open spec fn snowflake_effects(
    cfg: DdlConfig,
    routes: RouteMap,
    ev: EventFacts,
    excluded: bool,
    targets: SnowflakeTargets,
) -> Result<Seq<EffectView>, ErrorView> {
    match ev {
        EventFacts::Added(f) => {
            let rel = f.rel();
            if routes.route(rel) is Some || excluded || !cfg.creates(*f.settings, rel) {
                Ok(Seq::empty())
            } else {
                match f.snow() {
                    Err(e) => Err(e),
                    Ok(columns) => Ok(
                        seq![
                            (
                                rel,
                                Some(MappingView { target: targets.target(rel), columns }),
                            ),
                        ],
                    ),
                }
            }
        },
        EventFacts::Changed { old, new, diff, folded } => {
            let was = old.rel_name@;
            let now = new.rel();
            if was != now && routes.route(was) is Some {
                if routes.route(now) is Some {
                    Err(target_taken(now))
                } else if diff.type_changes@.len() > 0 {
                    Err(types_changed(now))
                } else {
                    match new.snow() {
                        Err(e) => Err(e),
                        Ok(columns) => {
                            let next = MappingView { target: targets.target(now), columns };
                            match route_fault(*new.desc, next, targets) {
                                Some(e) => Err(e),
                                None => Ok(seq![(was, None), (now, Some(next))]),
                            }
                        },
                    }
                }
            } else if diff.type_changes@.len() > 0 {
                Err(types_changed(now))
            } else if routes.route(now) is Some {
                match route_fault(*new.desc, folded@, targets) {
                    Some(e) => Err(e),
                    None => Ok(seq![(now, Some(folded@))]),
                }
            } else {
                Ok(Seq::empty())
            }
        },
        EventFacts::Dropped(rel) => match effect_of(cfg, routes, ev, excluded) {
            Some(e) => Ok(seq![e]),
            None => Ok(Seq::empty()),
        },
    }
}

pub open spec fn effect_views(v: Seq<Effect>) -> Seq<EffectView> {
    v.map_values(|e: Effect| effect_view(e))
}

/// Predict the edits on a Snowflake destination.
pub fn predict_snowflake_effects(
    cfg: &DdlConfig,
    routes: &RouteMap,
    ev: &EventFacts<'_>,
    excluded: bool,
    targets: &SnowflakeTargets,
) -> (r: Result<Vec<Effect>, EmitterError>)
    requires
        ev.wf(),
    ensures
        ({
            let want = snowflake_effects(*cfg, *routes, *ev, excluded, *targets);
            match r {
                Ok(v) => want == Ok::<_, ErrorView>(effect_views(v@)),
                Err(e) => want == Err::<Seq<EffectView>, _>(e@),
            }
        }),
{
    let mut out: Vec<Effect> = Vec::new();
    proof {
        assert(effect_views(out@) =~= Seq::empty());
    }
    match ev {
        EventFacts::Added(f) => {
            let rel: &RelName = &f.desc.rel_name;
            if routes.contains_key(rel) || excluded || !cfg.auto_creates(f.settings, rel) {
                return Ok(out);
            }
            let columns: Vec<ColumnMapping> = match snowflake_columns(f.desc, f.rules, f.types) {
                Ok(c) => c,
                Err(e) => {
                    return Err(e);
                },
            };
            let target: TableTarget = snowflake_target(f.desc, targets);
            out.push((rel.copied(), Some(TableMapping { target, columns })));
        },
        EventFacts::Changed { old, new, diff, folded } => {
            let was: &RelName = &old.rel_name;
            let now: &RelName = &new.desc.rel_name;
            if !was.same(now) && routes.contains_key(was) {
                if routes.contains_key(now) {
                    return Err(target_taken_error(now));
                }
                if diff.type_changes.len() > 0 {
                    return Err(types_changed_error(now));
                }
                let columns: Vec<ColumnMapping> = match snowflake_columns(
                    new.desc,
                    new.rules,
                    new.types,
                ) {
                    Ok(c) => c,
                    Err(e) => {
                        return Err(e);
                    },
                };
                let next = TableMapping { target: snowflake_target(new.desc, targets), columns };
                match validate_snowflake_route(new.desc, &next, targets) {
                    Ok(()) => {},
                    Err(e) => {
                        return Err(e);
                    },
                }
                out.push((was.copied(), None));
                out.push((now.copied(), Some(next)));
            } else if diff.type_changes.len() > 0 {
                return Err(types_changed_error(now));
            } else if routes.contains_key(now) {
                match validate_snowflake_route(new.desc, folded, targets) {
                    Ok(()) => {},
                    Err(e) => {
                        return Err(e);
                    },
                }
                out.push((now.copied(), Some(folded.copied())));
            }
        },
        EventFacts::Dropped(_) => {
            match predict_route_effect(cfg, routes, ev, excluded) {
                Some(e) => {
                    out.push(e);
                },
                None => {},
            }
        },
    }
    proof {
        assert(effect_views(out@) =~= snowflake_effects(
            *cfg,
            *routes,
            *ev,
            excluded,
            *targets,
        )->Ok_0);
    }
    Ok(out)
}

/// Steps of a schema change on a Snowflake destination.
pub open spec fn snowflake_steps(
    cfg: DdlConfig,
    routes: RouteMap,
    ev: EventFacts,
    excluded: bool,
    targets: SnowflakeTargets,
) -> Result<Seq<StepView>, ErrorView> {
    match ev {
        EventFacts::Added(f) => added_steps(
            cfg,
            f,
            routes.route(f.rel()),
            excluded,
            Some(targets),
        ),
        EventFacts::Changed { old, new, diff, folded } => {
            let was = old.rel_name@;
            let now = new.rel();
            let altered = StepView::Count(DdlCounter::Altered, 1);
            if routes.route(was) is None && was != now || routes.route(now) is None && was == now {
                Ok(skip())
            } else if diff.type_changes@.len() > 0 {
                Err(types_changed(now))
            } else if was != now {
                if routes.route(now) is Some {
                    Err(target_taken(now))
                } else {
                    match new.snow() {
                        Err(e) => Err(e),
                        Ok(columns) => {
                            let next = MappingView { target: targets.target(now), columns };
                            match route_fault(*new.desc, next, targets) {
                                Some(e) => Err(e),
                                None => Ok(
                                    seq![
                                        StepView::ApplySnowflakeSchema,
                                        StepView::Rename(next),
                                        altered,
                                    ],
                                ),
                            }
                        },
                    }
                }
            } else {
                match route_fault(*new.desc, folded@, targets) {
                    Some(e) => Err(e),
                    None => Ok(seq![StepView::ApplySnowflakeSchema, StepView::FoldDiff, altered]),
                }
            }
        },
        EventFacts::Dropped(rel) => if routes.route(rel@) is Some && cfg.strategy_of(
            rel@.namespace,
        ) == DropTableStrategy::Drop {
            Ok(
                seq![
                    StepView::ApplySnowflakeSchema,
                    StepView::Forget,
                    StepView::Count(DdlCounter::Dropped, 1),
                ],
            )
        } else {
            Ok(skip())
        },
    }
}

pub fn apply_snowflake(
    cfg: &DdlConfig,
    routes: &RouteMap,
    ev: &EventFacts<'_>,
    excluded: bool,
    targets: &SnowflakeTargets,
) -> (r: Result<Vec<DdlStep>, EmitterError>)
    requires
        ev.wf(),
    ensures
        ({
            let want = snowflake_steps(*cfg, *routes, *ev, excluded, *targets);
            match r {
                Ok(v) => want == Ok::<_, ErrorView>(step_views(v@)),
                Err(e) => want == Err::<Seq<StepView>, _>(e@),
            }
        }),
{
    let mut out: Vec<DdlStep> = Vec::new();
    match ev {
        EventFacts::Added(f) => {
            return apply_added(
                cfg,
                f,
                routes.get(&f.desc.rel_name),
                excluded,
                Some(targets),
            );
        },
        EventFacts::Changed { old, new, diff, folded } => {
            let was: &RelName = &old.rel_name;
            let now: &RelName = &new.desc.rel_name;
            let renamed: bool = !was.same(now);
            let mapped: bool = if renamed {
                routes.contains_key(was)
            } else {
                routes.contains_key(now)
            };
            if !mapped {
                return Ok(skipped());
            }
            if diff.type_changes.len() > 0 {
                return Err(types_changed_error(now));
            }
            if renamed {
                if routes.contains_key(now) {
                    return Err(target_taken_error(now));
                }
                let columns: Vec<ColumnMapping> = match snowflake_columns(
                    new.desc,
                    new.rules,
                    new.types,
                ) {
                    Ok(c) => c,
                    Err(e) => {
                        return Err(e);
                    },
                };
                let next = TableMapping { target: snowflake_target(new.desc, targets), columns };
                match validate_snowflake_route(new.desc, &next, targets) {
                    Ok(()) => {},
                    Err(e) => {
                        return Err(e);
                    },
                }
                out.push(DdlStep::ApplySnowflakeSchema);
                out.push(DdlStep::Rename(next));
            } else {
                match validate_snowflake_route(new.desc, folded, targets) {
                    Ok(()) => {},
                    Err(e) => {
                        return Err(e);
                    },
                }
                out.push(DdlStep::ApplySnowflakeSchema);
                out.push(DdlStep::FoldDiff);
            }
            out.push(DdlStep::Count(DdlCounter::Altered, 1));
        },
        EventFacts::Dropped(rel) => {
            if !routes.contains_key(rel) {
                return Ok(skipped());
            }
            match cfg.drop_strategy_for(rel.namespace.as_str()) {
                DropTableStrategy::Drop => {
                    out.push(DdlStep::ApplySnowflakeSchema);
                    out.push(DdlStep::Forget);
                    out.push(DdlStep::Count(DdlCounter::Dropped, 1));
                },
                _ => {
                    return Ok(skipped());
                },
            }
        },
    }
    proof {
        assert(step_views(out@) =~= snowflake_steps(
            *cfg,
            *routes,
            *ev,
            excluded,
            *targets,
        )->Ok_0);
    }
    Ok(out)
}

/// The columns of a relation's route while its change is being applied.
pub open spec fn moved_text(rel: RelKey) -> ErrorView {
    ErrorView::Config("routing map for `"@ + rel.text() + "` republished mid-ALTER"@)
}

/// A change does not go on over a routing map that was republished since it
/// began.
pub fn mapping_columns_at(unmoved: bool, rel: &RelName, at: &RouteMap) -> (r: Result<
    Vec<ColumnMapping>,
    EmitterError,
>)
    ensures
        match r {
            Ok(c) => unmoved && column_views(c@) == (match at.route(rel@) {
                Some(m) => m.columns,
                None => Seq::empty(),
            }),
            Err(e) => !unmoved && e@ == moved_text(rel@),
        },
{
    if !unmoved {
        let mut m: String = String::from_str("routing map for `");
        m.append(rel.to_text().as_str());
        m.append("` republished mid-ALTER");
        return Err(EmitterError::Config(m));
    }
    match at.get(rel) {
        Some(t) => Ok(copy_columns(&t.columns)),
        None => {
            let v: Vec<ColumnMapping> = Vec::new();
            proof {
                assert(column_views(v@) =~= Seq::empty());
            }
            Ok(v)
        },
    }
}

/// What is planned is what is applied: a predicted new route is the one that
/// the steps of its creation register.
pub proof fn predicted_route_is_registered(
    cfg: DdlConfig,
    routes: RouteMap,
    f: RelationFacts,
    excluded: bool,
    m: MappingView,
)
    requires
        effect_of(cfg, routes, EventFacts::Added(f), excluded) == Some((f.rel(), Some(m))),
        cfg.scope_of(*f.settings, f.rel()) != Some(false),
    ensures
        ({
            let steps = added_steps(cfg, f, routes.route(f.rel()), excluded, None);
            steps is Ok && steps->Ok_0.last() == StepView::Register(m)
        }),
{
}

/// A route that creation registers was predicted, unless the relation is only
/// swept in by replicating everything.
pub proof fn registered_route_was_predicted(
    cfg: DdlConfig,
    routes: RouteMap,
    f: RelationFacts,
    excluded: bool,
    m: MappingView,
)
    requires
        views(cfg.auto_create_namespaces@).contains(f.rel().namespace) || cfg.scope_of(
            *f.settings,
            f.rel(),
        ) == Some(true),
        added_steps(cfg, f, routes.route(f.rel()), excluded, None) is Ok,
        added_steps(cfg, f, routes.route(f.rel()), excluded, None)->Ok_0.last()
            == StepView::Register(m),
    ensures
        effect_of(cfg, routes, EventFacts::Added(f), excluded) == Some((f.rel(), Some(m))),
{
}

/// On a Snowflake destination a predicted rename is the rename that is
/// applied.
pub proof fn predicted_rename_is_applied(
    cfg: DdlConfig,
    routes: RouteMap,
    ev: EventFacts,
    excluded: bool,
    targets: SnowflakeTargets,
)
    requires
        ev is Changed,
        snowflake_steps(cfg, routes, ev, excluded, targets) is Ok,
        snowflake_effects(cfg, routes, ev, excluded, targets) is Ok,
    ensures
        ({
            let steps = snowflake_steps(cfg, routes, ev, excluded, targets)->Ok_0;
            let effects = snowflake_effects(cfg, routes, ev, excluded, targets)->Ok_0;
            &&& effects.len() == 2 ==> steps[1] == StepView::Rename(effects[1].1->0)
            &&& effects.len() == 1 && ev->old.rel_name@ == ev->new.rel() ==> steps[1]
                == StepView::FoldDiff
        }),
{
}

} // verus!
