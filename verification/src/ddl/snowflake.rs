//! Routes to a Snowflake destination: fixed targets, complete columns, no
//! renaming.
use vstd::prelude::*;
use vstd::string::*;

use crate::errors::{EmitterError, ErrorView};
use crate::mapping::{
    column_views, opt_view, or_else, ColumnMapping, ColumnMappingView, MappingView, TableMapping,
    TableTarget, TargetView,
};
use crate::schema::{RelAttr, RelDescriptor, RelKey};
use crate::text::{lowered, str_eq, to_lower};

verus! {

/// Which Snowflake schema a source namespace goes to; a namespace that is not
/// listed keeps its name.
#[derive(Debug)]
pub struct SnowflakeTargets {
    pub schema_mapping: Vec<(String, String)>,
}

/// Operator settings of one column.
#[derive(Debug)]
pub struct ColumnRule {
    pub target_name: Option<String>,
    pub target_type: Option<String>,
}

pub open spec fn schema_in(list: Seq<(String, String)>, ns: Seq<char>) -> Option<Seq<char>>
    decreases list.len(),
{
    if list.len() == 0 {
        None
    } else if list.last().0@ == ns {
        Some(list.last().1@)
    } else {
        schema_in(list.drop_last(), ns)
    }
}

impl SnowflakeTargets {
    pub open spec fn target(&self, rel: RelKey) -> TargetView {
        TargetView {
            database: or_else(schema_in(self.schema_mapping@, rel.namespace), rel.namespace),
            table: rel.name,
        }
    }
}

/// The only target that a relation may have.
pub fn snowflake_target(desc: &RelDescriptor, targets: &SnowflakeTargets) -> (r: TableTarget)
    ensures
        r@ == targets.target(desc.rel_name@),
{
    let list: &Vec<(String, String)> = &targets.schema_mapping;
    let ns: &str = desc.rel_name.namespace.as_str();
    let mut i: usize = list.len();
    proof {
        assert(list@.subrange(0, i as int) =~= list@);
    }
    while i > 0
        invariant
            i <= list@.len(),
            schema_in(list@, ns@) == schema_in(list@.subrange(0, i as int), ns@),
            list == &targets.schema_mapping,
            ns@ == desc.rel_name.namespace@,
        decreases i,
    {
        proof {
            let part = list@.subrange(0, i as int);
            assert(part.drop_last() =~= list@.subrange(0, i - 1));
            assert(part.last() == list@[i - 1]);
        }
        if str_eq(list[i - 1].0.as_str(), ns) {
            return TableTarget::new(list[i - 1].1.as_str(), desc.rel_name.name.as_str());
        }
        i = i - 1;
    }
    TableTarget::new(ns, desc.rel_name.name.as_str())
}

pub open spec fn remap_text(rel: RelKey, column: Seq<char>) -> ErrorView {
    ErrorView::Config(
        "Snowflake column remapping/type overrides are not supported for "@ + rel.text() + "."@
            + column,
    )
}

pub open spec fn duplicate_text(rel: RelKey, column: Seq<char>) -> ErrorView {
    ErrorView::Config(
        "invalid or duplicate Snowflake column name "@ + column + " on "@ + rel.text(),
    )
}

/// Some column has this name in another case.
pub open spec fn name_taken(cols: Seq<ColumnMappingView>, name: Seq<char>) -> bool {
    exists|i: int| 0 <= i < cols.len() && lowered((#[trigger] cols[i]).target_name) == lowered(name)
}

/// The columns of a relation's live attributes, under their own names and
/// Snowflake types, or the first attribute's error.
pub open spec fn snow_columns(
    rel: RelKey,
    attrs: Seq<RelAttr>,
    rules: Seq<ColumnRule>,
    types: Seq<String>,
) -> Result<Seq<ColumnMappingView>, ErrorView>
    decreases attrs.len(),
{
    if attrs.len() == 0 {
        Ok(Seq::empty())
    } else {
        match snow_columns(rel, attrs.drop_last(), rules.drop_last(), types.drop_last()) {
            Err(e) => Err(e),
            Ok(cols) => {
                let a = attrs.last();
                let rule = rules.last();
                let name = or_else(opt_view(rule.target_name), a.name@);
                if a.dropped {
                    Ok(cols)
                } else if name != a.name@ || rule.target_type is Some {
                    Err(remap_text(rel, a.name@))
                } else if name.len() == 0 || name_taken(cols, name) {
                    Err(duplicate_text(rel, name))
                } else {
                    Ok(
                        cols.push(
                            ColumnMappingView {
                                src_attnum: a.attnum,
                                target_name: name,
                                target_type: types.last()@,
                            },
                        ),
                    )
                }
            },
        }
    }
}

proof fn lemma_first_error(
    rel: RelKey,
    attrs: Seq<RelAttr>,
    rules: Seq<ColumnRule>,
    types: Seq<String>,
    n: int,
    e: ErrorView,
)
    requires
        0 <= n <= attrs.len(),
        attrs.len() == rules.len() == types.len(),
        snow_columns(rel, attrs.subrange(0, n), rules.subrange(0, n), types.subrange(0, n)) == Err::<
            Seq<ColumnMappingView>,
            _,
        >(e),
    ensures
        snow_columns(rel, attrs, rules, types) == Err::<Seq<ColumnMappingView>, _>(e),
    decreases attrs.len() - n,
{
    if n < attrs.len() {
        assert(attrs.subrange(0, n + 1).drop_last() =~= attrs.subrange(0, n));
        assert(rules.subrange(0, n + 1).drop_last() =~= rules.subrange(0, n));
        assert(types.subrange(0, n + 1).drop_last() =~= types.subrange(0, n));
        lemma_first_error(rel, attrs, rules, types, n + 1, e);
    } else {
        assert(attrs.subrange(0, n) =~= attrs);
        assert(rules.subrange(0, n) =~= rules);
        assert(types.subrange(0, n) =~= types);
    }
}

fn taken(cols: &Vec<ColumnMapping>, name: &str) -> (r: bool)
    ensures
        r == name_taken(column_views(cols@), name@),
{
    let want: String = to_lower(name);
    let ghost all = column_views(cols@);
    let mut i: usize = 0;
    while i < cols.len()
        invariant
            i <= cols@.len(),
            all == column_views(cols@),
            want@ == lowered(name@),
            forall|k: int| 0 <= k < i ==> lowered((#[trigger] all[k]).target_name) != lowered(
                name@,
            ),
        decreases cols@.len() - i,
    {
        let have: String = to_lower(cols[i].target_name.as_str());
        if str_eq(have.as_str(), want.as_str()) {
            proof {
                assert(lowered(all[i as int].target_name) == lowered(name@));
            }
            return true;
        }
        i = i + 1;
    }
    false
}

/// Columns of a Snowflake route. `rules` and `types` go with the relation's
/// attributes one for one.
pub fn snowflake_columns(
    desc: &RelDescriptor,
    rules: &Vec<ColumnRule>,
    types: &Vec<String>,
) -> (r: Result<Vec<ColumnMapping>, EmitterError>)
    requires
        rules@.len() == desc.attributes@.len(),
        types@.len() == desc.attributes@.len(),
    ensures
        ({
            let want = snow_columns(desc.rel_name@, desc.attributes@, rules@, types@);
            match r {
                Ok(c) => want == Ok::<_, ErrorView>(column_views(c@)),
                Err(e) => want == Err::<Seq<ColumnMappingView>, _>(e@),
            }
        }),
{
    let ghost rel = desc.rel_name@;
    let ghost attrs = desc.attributes@;
    let mut cols: Vec<ColumnMapping> = Vec::new();
    let mut i: usize = 0;
    proof {
        assert(attrs.subrange(0, 0) =~= Seq::empty());
        assert(column_views(cols@) =~= Seq::empty());
    }
    while i < desc.attributes.len()
        invariant
            i <= attrs.len(),
            rel == desc.rel_name@,
            attrs == desc.attributes@,
            rules@.len() == attrs.len(),
            types@.len() == attrs.len(),
            snow_columns(
                rel,
                attrs.subrange(0, i as int),
                rules@.subrange(0, i as int),
                types@.subrange(0, i as int),
            ) == Ok::<_, ErrorView>(column_views(cols@)),
        decreases attrs.len() - i,
    {
        let ghost before = cols@;
        proof {
            let n = i as int + 1;
            assert(attrs.subrange(0, n).drop_last() =~= attrs.subrange(0, i as int));
            assert(rules@.subrange(0, n).drop_last() =~= rules@.subrange(0, i as int));
            assert(types@.subrange(0, n).drop_last() =~= types@.subrange(0, i as int));
        }
        let a: &RelAttr = &desc.attributes[i];
        let rule: &ColumnRule = &rules[i];
        if !a.dropped {
            let name: &str = match &rule.target_name {
                Some(n) => n.as_str(),
                None => a.name.as_str(),
            };
            if !str_eq(name, a.name.as_str()) || rule.target_type.is_some() {
                let mut m: String = String::from_str(
                    "Snowflake column remapping/type overrides are not supported for ",
                );
                m.append(desc.rel_name.to_text().as_str());
                m.append(".");
                m.append(a.name.as_str());
                proof {
                    lemma_first_error(
                        rel,
                        attrs,
                        rules@,
                        types@,
                        i as int + 1,
                        remap_text(rel, a.name@),
                    );
                }
                return Err(EmitterError::Config(m));
            }
            if name.is_empty() || taken(&cols, name) {
                let mut m: String = String::from_str(
                    "invalid or duplicate Snowflake column name ",
                );
                m.append(name);
                m.append(" on ");
                m.append(desc.rel_name.to_text().as_str());
                proof {
                    lemma_first_error(
                        rel,
                        attrs,
                        rules@,
                        types@,
                        i as int + 1,
                        duplicate_text(rel, name@),
                    );
                }
                return Err(EmitterError::Config(m));
            }
            cols.push(
                ColumnMapping {
                    src_attnum: a.attnum,
                    target_name: String::from_str(name),
                    target_type: types[i].clone(),
                },
            );
            proof {
                assert(column_views(cols@) =~= column_views(before).push(cols@.last()@));
            }
        }
        i = i + 1;
    }
    proof {
        assert(attrs.subrange(0, i as int) =~= attrs);
        assert(rules@.subrange(0, i as int) =~= rules@);
        assert(types@.subrange(0, i as int) =~= types@);
    }
    Ok(cols)
}

/// Every live attribute is mapped once, and nothing else is.
pub open spec fn complete(attrs: Seq<RelAttr>, cols: Seq<ColumnMappingView>) -> bool {
    &&& forall|i: int|
        0 <= i < attrs.len() && !(#[trigger] attrs[i]).dropped ==> has_attnum(cols, attrs[i].attnum)
    &&& forall|j: int|
        0 <= j < cols.len() ==> live_attnum(attrs, (#[trigger] cols[j]).src_attnum)
    &&& forall|j: int, k: int|
        0 <= j < k < cols.len() ==> (#[trigger] cols[j]).src_attnum != (
        #[trigger] cols[k]).src_attnum
}

pub open spec fn has_attnum(cols: Seq<ColumnMappingView>, attnum: i16) -> bool {
    exists|j: int| 0 <= j < cols.len() && (#[trigger] cols[j]).src_attnum == attnum
}

pub open spec fn live_attnum(attrs: Seq<RelAttr>, attnum: i16) -> bool {
    exists|i: int| 0 <= i < attrs.len() && !(#[trigger] attrs[i]).dropped && attrs[i].attnum == attnum
}

fn maps_attnum(cols: &Vec<ColumnMapping>, attnum: i16, from: usize) -> (r: bool)
    requires
        from <= cols@.len(),
    ensures
        r == exists|j: int| from <= j < cols@.len() && (#[trigger] cols@[j]).src_attnum == attnum,
{
    let mut j: usize = from;
    while j < cols.len()
        invariant
            from <= j <= cols@.len(),
            forall|k: int| from <= k < j ==> (#[trigger] cols@[k]).src_attnum != attnum,
        decreases cols@.len() - j,
    {
        if cols[j].src_attnum == attnum {
            return true;
        }
        j = j + 1;
    }
    false
}

fn is_live(attrs: &Vec<RelAttr>, attnum: i16) -> (r: bool)
    ensures
        r == live_attnum(attrs@, attnum),
{
    let mut i: usize = 0;
    while i < attrs.len()
        invariant
            i <= attrs@.len(),
            forall|k: int|
                0 <= k < i ==> (#[trigger] attrs@[k]).dropped || attrs@[k].attnum != attnum,
        decreases attrs@.len() - i,
    {
        if !attrs[i].dropped && attrs[i].attnum == attnum {
            return true;
        }
        i = i + 1;
    }
    false
}

fn is_complete(attrs: &Vec<RelAttr>, cols: &Vec<ColumnMapping>) -> (r: bool)
    ensures
        r == complete(attrs@, column_views(cols@)),
{
    let ghost all = column_views(cols@);
    let mut i: usize = 0;
    while i < attrs.len()
        invariant
            i <= attrs@.len(),
            all == column_views(cols@),
            forall|k: int|
                0 <= k < i && !(#[trigger] attrs@[k]).dropped ==> has_attnum(all, attrs@[k].attnum),
        decreases attrs@.len() - i,
    {
        let mapped: bool = maps_attnum(cols, attrs[i].attnum, 0);
        proof {
            let a = attrs@[i as int].attnum;
            if mapped {
                let j = choose|j: int|
                    0 <= j < cols@.len() && (#[trigger] cols@[j]).src_attnum == a;
                assert(all[j].src_attnum == a);
            } else if has_attnum(all, a) {
                let j = choose|j: int| 0 <= j < all.len() && (#[trigger] all[j]).src_attnum == a;
                assert(cols@[j].src_attnum == a);
            }
        }
        if !attrs[i].dropped && !mapped {
            return false;
        }
        i = i + 1;
    }
    let mut j: usize = 0;
    while j < cols.len()
        invariant
            j <= cols@.len(),
            all == column_views(cols@),
            forall|k: int|
                0 <= k < attrs@.len() && !(#[trigger] attrs@[k]).dropped ==> has_attnum(
                    all,
                    attrs@[k].attnum,
                ),
            forall|k: int| 0 <= k < j ==> live_attnum(attrs@, (#[trigger] all[k]).src_attnum),
            forall|k: int, m: int|
                0 <= k < j && k < m < all.len() ==> (#[trigger] all[k]).src_attnum != (
                #[trigger] all[m]).src_attnum,
        decreases cols@.len() - j,
    {
        let a: i16 = cols[j].src_attnum;
        proof {
            assert(all[j as int].src_attnum == a);
        }
        if !is_live(attrs, a) {
            return false;
        }
        if maps_attnum(cols, a, j + 1) {
            proof {
                let m = choose|m: int|
                    j + 1 <= m < cols@.len() && (#[trigger] cols@[m]).src_attnum == a;
                assert(all[m].src_attnum == a);
            }
            return false;
        }
        proof {
            assert forall|m: int| j < m < all.len() implies a != (#[trigger] all[m]).src_attnum by {
                assert(cols@[m].src_attnum == all[m].src_attnum);
            }
        }
        j = j + 1;
    }
    true
}

pub open spec fn incomplete_text(rel: RelKey) -> ErrorView {
    ErrorView::Config(
        "Snowflake mapping for "@ + rel.text() + " would omit or duplicate a source column"@,
    )
}

pub fn validate_complete_snowflake_mapping(desc: &RelDescriptor, mapping: &TableMapping) -> (r:
    Result<(), EmitterError>)
    ensures
        match r {
            Ok(()) => complete(desc.attributes@, mapping@.columns),
            Err(e) => !complete(desc.attributes@, mapping@.columns) && e@ == incomplete_text(
                desc.rel_name@,
            ),
        },
{
    if !is_complete(&desc.attributes, &mapping.columns) {
        let mut m: String = String::from_str("Snowflake mapping for ");
        m.append(desc.rel_name.to_text().as_str());
        m.append(" would omit or duplicate a source column");
        return Err(EmitterError::Config(m));
    }
    Ok(())
}

/// The attribute has a column of its own name.
pub open spec fn keeps_name(cols: Seq<ColumnMappingView>, a: RelAttr) -> bool {
    exists|j: int|
        0 <= j < cols.len() && (#[trigger] cols[j]).src_attnum == a.attnum && cols[j].target_name
            == a.name@
}

/// The first live attribute from `i` on that is mapped under another name.
pub open spec fn renamed_from(attrs: Seq<RelAttr>, cols: Seq<ColumnMappingView>, i: int) -> Option<
    Seq<char>,
>
    decreases attrs.len() - i,
{
    if i >= attrs.len() {
        None
    } else if !attrs[i].dropped && !keeps_name(cols, attrs[i]) {
        Some(attrs[i].name@)
    } else {
        renamed_from(attrs, cols, i + 1)
    }
}

/// What is wrong with a Snowflake route, if anything: a column is missing or
/// mapped twice, the target is not the relation's own, or a column is renamed.
pub open spec fn route_fault(
    desc: RelDescriptor,
    m: MappingView,
    targets: SnowflakeTargets,
) -> Option<ErrorView> {
    let rel = desc.rel_name@;
    if !complete(desc.attributes@, m.columns) {
        Some(incomplete_text(rel))
    } else if m.target != targets.target(rel) {
        Some(
            ErrorView::Config(
                "Snowflake route for "@ + rel.text() + " targets "@ + m.target.text()
                    + " instead of "@ + targets.target(rel).text(),
            ),
        )
    } else {
        match renamed_from(desc.attributes@, m.columns, 0) {
            Some(name) => Some(
                ErrorView::Config(
                    "Snowflake column remapping is not supported for "@ + rel.text() + "."@ + name,
                ),
            ),
            None => None,
        }
    }
}

fn has_own_name(cols: &Vec<ColumnMapping>, a: &RelAttr) -> (r: bool)
    ensures
        r == keeps_name(column_views(cols@), *a),
{
    let ghost all = column_views(cols@);
    let mut j: usize = 0;
    while j < cols.len()
        invariant
            j <= cols@.len(),
            all == column_views(cols@),
            forall|k: int|
                0 <= k < j ==> (#[trigger] all[k]).src_attnum != a.attnum || all[k].target_name
                    != a.name@,
        decreases cols@.len() - j,
    {
        proof {
            assert(all[j as int] == cols@[j as int]@);
        }
        if cols[j].src_attnum == a.attnum && str_eq(cols[j].target_name.as_str(), a.name.as_str()) {
            return true;
        }
        j = j + 1;
    }
    false
}

pub fn validate_snowflake_route(
    desc: &RelDescriptor,
    mapping: &TableMapping,
    targets: &SnowflakeTargets,
) -> (r: Result<(), EmitterError>)
    ensures
        match r {
            Ok(()) => route_fault(*desc, mapping@, *targets) is None,
            Err(e) => route_fault(*desc, mapping@, *targets) == Some(e@),
        },
{
    match validate_complete_snowflake_mapping(desc, mapping) {
        Ok(()) => {},
        Err(e) => {
            return Err(e);
        },
    }
    let expected: TableTarget = snowflake_target(desc, targets);
    if !mapping.target.same(&expected) {
        let mut m: String = String::from_str("Snowflake route for ");
        m.append(desc.rel_name.to_text().as_str());
        m.append(" targets ");
        m.append(mapping.target.to_text().as_str());
        m.append(" instead of ");
        m.append(expected.to_text().as_str());
        return Err(EmitterError::Config(m));
    }
    let ghost cols = column_views(mapping.columns@);
    let mut i: usize = 0;
    while i < desc.attributes.len()
        invariant
            i <= desc.attributes@.len(),
            cols == mapping@.columns,
            cols == column_views(mapping.columns@),
            complete(desc.attributes@, mapping@.columns),
            mapping@.target == targets.target(desc.rel_name@),
            renamed_from(desc.attributes@, cols, 0) == renamed_from(
                desc.attributes@,
                cols,
                i as int,
            ),
        decreases desc.attributes@.len() - i,
    {
        let a: &RelAttr = &desc.attributes[i];
        if !a.dropped && !has_own_name(&mapping.columns, a) {
            let mut m: String = String::from_str(
                "Snowflake column remapping is not supported for ",
            );
            m.append(desc.rel_name.to_text().as_str());
            m.append(".");
            m.append(a.name.as_str());
            return Err(EmitterError::Config(m));
        }
        i = i + 1;
    }
    Ok(())
}

/// Live attributes have numbers of their own.
pub open spec fn distinct_attnums(attrs: Seq<RelAttr>) -> bool {
    forall|i: int, j: int|
        0 <= i < j < attrs.len() && !(#[trigger] attrs[i]).dropped && !(#[trigger] attrs[j]).dropped
            ==> attrs[i].attnum != attrs[j].attnum
}

/// The columns that are derived for a relation make a valid route to its
/// target: complete, and every column under its own name.
pub proof fn derived_route_is_valid(
    desc: RelDescriptor,
    rules: Seq<ColumnRule>,
    types: Seq<String>,
    targets: SnowflakeTargets,
)
    requires
        rules.len() == desc.attributes@.len(),
        types.len() == desc.attributes@.len(),
        distinct_attnums(desc.attributes@),
        snow_columns(desc.rel_name@, desc.attributes@, rules, types) is Ok,
    ensures
        route_fault(
            desc,
            (MappingView {
                target: targets.target(desc.rel_name@),
                columns: snow_columns(desc.rel_name@, desc.attributes@, rules, types)->Ok_0,
            }),
            targets,
        ) is None,
{
    let attrs = desc.attributes@;
    let cols = snow_columns(desc.rel_name@, attrs, rules, types)->Ok_0;
    lemma_derived_columns(desc.rel_name@, attrs, rules, types);
    assert forall|i: int| 0 <= i < attrs.len() && !(#[trigger] attrs[i]).dropped implies has_attnum(
        cols,
        attrs[i].attnum,
    ) by {
        assert(keeps_name(cols, attrs[i]));
        let j = choose|j: int|
            0 <= j < cols.len() && (#[trigger] cols[j]).src_attnum == attrs[i].attnum
                && cols[j].target_name == attrs[i].name@;
        assert(cols[j].src_attnum == attrs[i].attnum);
    }
    lemma_nothing_renamed(attrs, cols, 0);
}

proof fn lemma_nothing_renamed(attrs: Seq<RelAttr>, cols: Seq<ColumnMappingView>, i: int)
    requires
        0 <= i,
        forall|k: int|
            0 <= k < attrs.len() && !(#[trigger] attrs[k]).dropped ==> keeps_name(cols, attrs[k]),
    ensures
        renamed_from(attrs, cols, i) is None,
    decreases attrs.len() - i,
{
    if i < attrs.len() {
        lemma_nothing_renamed(attrs, cols, i + 1);
    }
}

proof fn lemma_derived_columns(
    rel: RelKey,
    attrs: Seq<RelAttr>,
    rules: Seq<ColumnRule>,
    types: Seq<String>,
)
    requires
        rules.len() == attrs.len(),
        types.len() == attrs.len(),
        distinct_attnums(attrs),
        snow_columns(rel, attrs, rules, types) is Ok,
    ensures
        ({
            let cols = snow_columns(rel, attrs, rules, types)->Ok_0;
            &&& forall|i: int|
                0 <= i < attrs.len() && !(#[trigger] attrs[i]).dropped ==> keeps_name(
                    cols,
                    attrs[i],
                )
            &&& forall|j: int|
                0 <= j < cols.len() ==> live_attnum(attrs, (#[trigger] cols[j]).src_attnum)
            &&& forall|j: int, k: int|
                0 <= j < k < cols.len() ==> (#[trigger] cols[j]).src_attnum != (
                #[trigger] cols[k]).src_attnum
        }),
    decreases attrs.len(),
{
    if attrs.len() > 0 {
        let rest = attrs.drop_last();
        let before = snow_columns(rel, rest, rules.drop_last(), types.drop_last())->Ok_0;
        let cols = snow_columns(rel, attrs, rules, types)->Ok_0;
        let n = rest.len() as int;
        assert forall|i: int, j: int|
            0 <= i < j < rest.len() && !(#[trigger] rest[i]).dropped && !(
            #[trigger] rest[j]).dropped implies rest[i].attnum != rest[j].attnum by {
            assert(attrs[i].attnum != attrs[j].attnum);
        }
        lemma_derived_columns(rel, rest, rules.drop_last(), types.drop_last());
        assert forall|i: int| 0 <= i < attrs.len() && !(
        #[trigger] attrs[i]).dropped implies keeps_name(cols, attrs[i]) by {
            if i < n {
                assert(rest[i] == attrs[i]);
                assert(keeps_name(before, rest[i]));
                let j = choose|j: int|
                    0 <= j < before.len() && (#[trigger] before[j]).src_attnum == attrs[i].attnum
                        && before[j].target_name == attrs[i].name@;
                assert(cols[j] == before[j]);
            } else {
                assert(cols[cols.len() - 1].src_attnum == attrs[i].attnum);
            }
        }
        assert forall|j: int| 0 <= j < cols.len() implies live_attnum(
            attrs,
            (#[trigger] cols[j]).src_attnum,
        ) by {
            if j < before.len() {
                assert(cols[j] == before[j]);
                assert(live_attnum(rest, before[j].src_attnum));
                let i = choose|i: int|
                    0 <= i < rest.len() && !(#[trigger] rest[i]).dropped && rest[i].attnum
                        == before[j].src_attnum;
                assert(attrs[i] == rest[i]);
            } else {
                assert(!attrs[n].dropped && attrs[n].attnum == cols[j].src_attnum);
            }
        }
        assert forall|j: int, k: int| 0 <= j < k < cols.len() implies (
        #[trigger] cols[j]).src_attnum != (#[trigger] cols[k]).src_attnum by {
            assert(cols[j] == before[j]);
            if k < before.len() {
                assert(cols[k] == before[k]);
            } else {
                assert(live_attnum(rest, before[j].src_attnum));
                let i = choose|i: int|
                    0 <= i < rest.len() && !(#[trigger] rest[i]).dropped && rest[i].attnum
                        == before[j].src_attnum;
                assert(attrs[i] == rest[i]);
                assert(attrs[i].attnum != attrs[n].attnum);
            }
        }
    }
}

} // verus!
