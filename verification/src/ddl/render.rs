//! Rendering of destination DDL. Every statement is idempotent, so that a
//! reconnect or a restart may send it again.
use vstd::prelude::*;
use vstd::string::*;

use crate::mapping::{
    opt_view, ColumnMapping, ColumnMappingView, SystemColumns, SystemView, TableMapping,
    TableTarget,
};
use crate::plan::quoted_all;
use crate::schema::{replident_key_attnums, RelAttr, RelDescriptor};
use crate::text::{join, joined, quote_ident, quoted, str_eq, views};

verus! {

/// A source column's destination type and default.
#[derive(Debug)]
pub struct ResolvedColumn {
    pub ch_type: String,
    pub default_sql: Option<String>,
}

/// One column of a `CREATE TABLE`.
#[derive(Debug)]
pub struct ColumnDef {
    pub attnum: i16,
    pub name: String,
    pub ch_type: String,
    pub default_sql: Option<String>,
}

pub struct DefView {
    pub attnum: i16,
    pub name: Seq<char>,
    pub ch_type: Seq<char>,
    pub default_sql: Option<Seq<char>>,
}

impl View for ColumnDef {
    type V = DefView;

    open spec fn view(&self) -> DefView {
        DefView {
            attnum: self.attnum,
            name: self.name@,
            ch_type: self.ch_type@,
            default_sql: opt_view(self.default_sql),
        }
    }
}

pub open spec fn def_views(v: Seq<ColumnDef>) -> Seq<DefView> {
    v.map_values(|d: ColumnDef| d@)
}

/// Destination-shape inputs of one `CREATE TABLE`.
#[derive(Debug)]
pub struct CreateShape {
    pub system: SystemColumns,
    /// Keep the delete marker out of the engine's arguments.
    pub soft_delete: bool,
    /// Operator sorting key (destination column names); empty derives the key
    /// from replica identity.
    pub order_by: Vec<String>,
    /// Operator primary key: the prefix that is indexed, no uniqueness
    /// constraint. Empty leaves it equal to the sorting key.
    pub primary_key: Vec<String>,
}

pub struct ShapeView {
    pub system: SystemView,
    pub soft_delete: bool,
    pub order_by: Seq<Seq<char>>,
    pub primary_key: Seq<Seq<char>>,
}

impl View for CreateShape {
    type V = ShapeView;

    open spec fn view(&self) -> ShapeView {
        ShapeView {
            system: self.system@,
            soft_delete: self.soft_delete,
            order_by: views(self.order_by@),
            primary_key: views(self.primary_key@),
        }
    }
}

/// ` DEFAULT expr`, if there is one.
pub open spec fn default_clause(d: Option<Seq<char>>) -> Seq<char> {
    match d {
        Some(e) => " DEFAULT "@ + e,
        None => Seq::empty(),
    }
}

/// The statement that adds a column.
pub open spec fn add_column_text(
    target: Seq<char>,
    name: Seq<char>,
    ch_type: Seq<char>,
    default_sql: Option<Seq<char>>,
) -> Seq<char> {
    "ALTER TABLE "@ + target + " ADD COLUMN IF NOT EXISTS "@ + quoted(name) + " "@ + ch_type
        + default_clause(default_sql)
}

/// `ALTER TABLE <t> ADD COLUMN IF NOT EXISTS <n> <ty> [DEFAULT <expr>]`.
pub fn render_add_column(target: &str, name: &str, resolved: &ResolvedColumn) -> (s: String)
    ensures
        s@ == add_column_text(
            target@,
            name@,
            resolved.ch_type@,
            opt_view(resolved.default_sql),
        ),
{
    let mut s: String = String::from_str("ALTER TABLE ");
    s.append(target);
    s.append(" ADD COLUMN IF NOT EXISTS ");
    s.append(quote_ident(name).as_str());
    s.append(" ");
    s.append(resolved.ch_type.as_str());
    let ghost head = s@;
    match &resolved.default_sql {
        Some(d) => {
            s.append(" DEFAULT ");
            s.append(d.as_str());
            proof {
                assert(s@ =~= head + default_clause(Some(d@)));
            }
        },
        None => {
            proof {
                assert(s@ =~= head + default_clause(None));
            }
        },
    }
    s
}

/// A sorting key may not hold such a type.
pub open spec fn nullable_type(ch_type: Seq<char>) -> bool {
    "Nullable("@.is_prefix_of(ch_type)
}

pub fn is_nullable(ch_type: &str) -> (r: bool)
    ensures
        r == nullable_type(ch_type@),
{
    crate::text::starts_with(ch_type, "Nullable(")
}

/// `` `name` type [DEFAULT expr]``.
pub open spec fn def_text(d: DefView) -> Seq<char> {
    quoted(d.name) + " "@ + d.ch_type + default_clause(d.default_sql)
}

fn render_def(d: &ColumnDef) -> (s: String)
    ensures
        s@ == def_text(d@),
{
    let mut s: String = quote_ident(d.name.as_str());
    s.append(" ");
    s.append(d.ch_type.as_str());
    let ghost head = s@;
    match &d.default_sql {
        Some(e) => {
            s.append(" DEFAULT ");
            s.append(e.as_str());
            proof {
                assert(s@ =~= head + default_clause(Some(e@)));
            }
        },
        None => {
            proof {
                assert(s@ =~= head + default_clause(None));
            }
        },
    }
    s
}

/// Definitions of the appended columns.
pub open spec fn system_defs(sys: SystemView) -> Seq<Seq<char>> {
    let base = seq![
        quoted(sys.lsn) + " UInt64"@,
        quoted(sys.xid) + " UInt32"@,
        quoted(sys.commit_ts) + " DateTime64(6, 'UTC')"@,
    ];
    match sys.is_deleted {
        Some(d) => base.push(quoted(d) + " Bool"@),
        None => base,
    }
}

/// Arguments of the replacing engine: the version column, and the delete
/// marker unless deletes stay queryable.
pub open spec fn engine_args(shape: ShapeView) -> Seq<char> {
    match shape.system.is_deleted {
        Some(d) if !shape.soft_delete => quoted(shape.system.lsn) + ", "@ + quoted(d),
        _ => quoted(shape.system.lsn),
    }
}

/// The sorting key: `keys`, else the version column.
pub open spec fn sort_keys(keys: Seq<Seq<char>>, sys: SystemView) -> Seq<Seq<char>> {
    if keys.len() == 0 {
        seq![quoted(sys.lsn)]
    } else {
        keys
    }
}

/// The primary key, if one is configured that is a prefix of the sorting key.
pub open spec fn primary_key_clause(keys: Seq<Seq<char>>, pk: Seq<Seq<char>>) -> Seq<char> {
    if pk.len() > 0 && quoted_all(pk).is_prefix_of(keys) {
        "\nPRIMARY KEY ("@ + joined(quoted_all(pk), ", "@) + ")"@
    } else {
        Seq::empty()
    }
}

/// The whole `CREATE TABLE`.
pub open spec fn create_text(
    target: Seq<char>,
    defs: Seq<Seq<char>>,
    keys: Seq<Seq<char>>,
    shape: ShapeView,
) -> Seq<char> {
    let sorting = sort_keys(keys, shape.system);
    "CREATE TABLE IF NOT EXISTS "@ + target + " (\n  "@ + joined(
        defs + system_defs(shape.system),
        ",\n  "@,
    ) + "\n) ENGINE = ReplacingMergeTree("@ + engine_args(shape) + ")\nORDER BY ("@ + joined(
        sorting,
        ", "@,
    ) + ")"@ + primary_key_clause(sorting, shape.primary_key)
}

fn push_text(out: &mut Vec<String>, s: String)
    ensures
        views(final(out)@) == views(old(out)@).push(s@),
{
    out.push(s);
    proof {
        assert(views(out@) =~= views(old(out)@).push(s@));
    }
}

/// Whether the quoted names of `pk` are the first of `keys`.
fn is_key_prefix(pk: &Vec<String>, keys: &Vec<String>) -> (r: bool)
    ensures
        r == quoted_all(views(pk@)).is_prefix_of(views(keys@)),
{
    if pk.len() > keys.len() {
        return false;
    }
    let ghost want = quoted_all(views(pk@));
    let ghost have = views(keys@);
    let mut i: usize = 0;
    while i < pk.len()
        invariant
            i <= pk@.len() <= keys@.len(),
            want == quoted_all(views(pk@)),
            have == views(keys@),
            forall|k: int| 0 <= k < i ==> want[k] == have[k],
        decreases pk@.len() - i,
    {
        if !str_eq(quote_ident(pk[i].as_str()).as_str(), keys[i].as_str()) {
            proof {
                assert(want[i as int] != have[i as int]);
                if want.is_prefix_of(have) {
                    assert(have.subrange(0, want.len() as int)[i as int] == have[i as int]);
                }
            }
            return false;
        }
        i = i + 1;
    }
    proof {
        assert(want =~= have.subrange(0, want.len() as int));
    }
    true
}

/// Shared tail of every `CREATE TABLE`: appended columns, engine, keys.
pub fn render_create_sql(
    target: &str,
    col_defs: Vec<String>,
    key_names: Vec<String>,
    shape: &CreateShape,
) -> (s: String)
    ensures
        s@ == create_text(target@, views(col_defs@), views(key_names@), shape@),
{
    let sys: &SystemColumns = &shape.system;
    let lsn: String = quote_ident(sys.lsn.as_str());
    let mut defs: Vec<String> = col_defs;
    push_text(&mut defs, lsn.clone().concat(" UInt64"));
    push_text(&mut defs, quote_ident(sys.xid.as_str()).concat(" UInt32"));
    push_text(&mut defs, quote_ident(sys.commit_ts.as_str()).concat(" DateTime64(6, 'UTC')"));
    let mut args: String = lsn.clone();
    if let Some(name) = &sys.is_deleted {
        let marker: String = quote_ident(name.as_str());
        push_text(&mut defs, marker.clone().concat(" Bool"));
        if !shape.soft_delete {
            args.append(", ");
            args.append(marker.as_str());
        }
    }
    proof {
        assert(views(defs@) =~= views(col_defs@) + system_defs(shape@.system));
        assert(args@ == engine_args(shape@));
    }
    let mut keys: Vec<String> = key_names;
    if keys.len() == 0 {
        push_text(&mut keys, lsn);
    }
    proof {
        assert(views(keys@) =~= sort_keys(views(key_names@), shape@.system));
    }
    let mut s: String = String::from_str("CREATE TABLE IF NOT EXISTS ");
    s.append(target);
    s.append(" (\n  ");
    s.append(join(&defs, ",\n  ").as_str());
    s.append("\n) ENGINE = ReplacingMergeTree(");
    s.append(args.as_str());
    s.append(")\nORDER BY (");
    s.append(join(&keys, ", ").as_str());
    s.append(")");
    let ghost head = s@;
    // A primary key that is no prefix of the sorting key fails at creation,
    // so it is left out and defaults to the sorting key.
    if shape.primary_key.len() > 0 && is_key_prefix(&shape.primary_key, &keys) {
        let mut pk: Vec<String> = Vec::new();
        let mut i: usize = 0;
        proof {
            assert(views(pk@) =~= quoted_all(views(shape.primary_key@)).subrange(0, 0));
        }
        while i < shape.primary_key.len()
            invariant
                i <= shape.primary_key@.len(),
                views(pk@) == quoted_all(views(shape.primary_key@)).subrange(0, i as int),
            decreases shape.primary_key@.len() - i,
        {
            push_text(&mut pk, quote_ident(shape.primary_key[i].as_str()));
            proof {
                assert(views(pk@) =~= quoted_all(views(shape.primary_key@)).subrange(
                    0,
                    i as int + 1,
                ));
            }
            i = i + 1;
        }
        proof {
            assert(views(pk@) =~= quoted_all(views(shape.primary_key@)));
        }
        s.append("\nPRIMARY KEY (");
        s.append(join(&pk, ", ").as_str());
        s.append(")");
        proof {
            assert(s@ =~= head + primary_key_clause(views(keys@), shape@.primary_key));
        }
    } else {
        proof {
            assert(s@ =~= head + primary_key_clause(views(keys@), shape@.primary_key));
        }
    }
    s
}

/// Whether a destination column of this name may be a sorting key: the last
/// column of the name decides, mapped columns after the appended ones, and a
/// name that no column has may not.
pub open spec fn sortable(cols: Seq<DefView>, sys: SystemView, name: Seq<char>) -> bool
    decreases cols.len(),
{
    if cols.len() == 0 {
        sys.names().contains(name)
    } else if cols.last().name == name {
        !nullable_type(cols.last().ch_type)
    } else {
        sortable(cols.drop_last(), sys, name)
    }
}

/// The operator's sorting key if every column of it may sort, else the
/// derived one: one bad entry degrades to replica identity instead of failing
/// every creation.
pub open spec fn chosen_keys(
    cols: Seq<DefView>,
    shape: ShapeView,
    derived: Seq<Seq<char>>,
) -> Seq<Seq<char>> {
    if shape.order_by.len() > 0 && forall|i: int|
        0 <= i < shape.order_by.len() ==> sortable(cols, shape.system, #[trigger] shape.order_by[i]) {
        quoted_all(shape.order_by)
    } else {
        derived
    }
}

/// The name of the first column with this attribute number that may sort.
pub open spec fn key_name(cols: Seq<DefView>, attnum: i16) -> Option<Seq<char>>
    decreases cols.len(),
{
    if cols.len() == 0 {
        None
    } else if cols[0].attnum == attnum && !nullable_type(cols[0].ch_type) {
        Some(quoted(cols[0].name))
    } else {
        key_name(cols.subrange(1, cols.len() as int), attnum)
    }
}

/// The replica identity's columns that may sort, in key order.
pub open spec fn derived_keys(cols: Seq<DefView>, key: Seq<i16>) -> Seq<Seq<char>>
    decreases key.len(),
{
    if key.len() == 0 {
        Seq::empty()
    } else {
        let rest = derived_keys(cols, key.drop_last());
        match key_name(cols, key.last()) {
            Some(n) => rest.push(n),
            None => rest,
        }
    }
}

fn may_sort(cols: &Vec<ColumnDef>, sys: &SystemColumns, name: &str) -> (r: bool)
    ensures
        r == sortable(def_views(cols@), sys@, name@),
{
    let ghost all = def_views(cols@);
    let mut i: usize = cols.len();
    proof {
        assert(all.subrange(0, i as int) =~= all);
    }
    while i > 0
        invariant
            i <= cols@.len(),
            all == def_views(cols@),
            sortable(all, sys@, name@) == sortable(all.subrange(0, i as int), sys@, name@),
        decreases i,
    {
        let ghost part = all.subrange(0, i as int);
        proof {
            assert(part.drop_last() =~= all.subrange(0, i - 1));
            assert(part.last() == cols@[i - 1]@);
        }
        if str_eq(cols[i - 1].name.as_str(), name) {
            return !is_nullable(cols[i - 1].ch_type.as_str());
        }
        i = i - 1;
    }
    let ghost names = sys@.names();
    proof {
        assert(all.subrange(0, 0) =~= Seq::empty());
        assert(names[0] == sys@.lsn && names[1] == sys@.xid && names[2] == sys@.commit_ts);
        if sys.is_deleted is Some {
            assert(names[3] == sys.is_deleted->0@);
        }
    }
    if str_eq(sys.lsn.as_str(), name) || str_eq(sys.xid.as_str(), name) || str_eq(
        sys.commit_ts.as_str(),
        name,
    ) {
        return true;
    }
    match &sys.is_deleted {
        Some(d) => str_eq(d.as_str(), name),
        None => false,
    }
}

fn find_key(cols: &Vec<ColumnDef>, attnum: i16) -> (r: Option<String>)
    ensures
        match r {
            Some(s) => key_name(def_views(cols@), attnum) == Some(s@),
            None => key_name(def_views(cols@), attnum) is None,
        },
{
    let ghost all = def_views(cols@);
    let mut i: usize = 0;
    proof {
        assert(all.subrange(0, all.len() as int) =~= all);
    }
    while i < cols.len()
        invariant
            i <= cols@.len(),
            all == def_views(cols@),
            key_name(all, attnum) == key_name(all.subrange(i as int, all.len() as int), attnum),
        decreases cols@.len() - i,
    {
        let ghost rest = all.subrange(i as int, all.len() as int);
        proof {
            assert(rest[0] == cols@[i as int]@);
            assert(rest.subrange(1, rest.len() as int) =~= all.subrange(
                i as int + 1,
                all.len() as int,
            ));
        }
        if cols[i].attnum == attnum && !is_nullable(cols[i].ch_type.as_str()) {
            return Some(quote_ident(cols[i].name.as_str()));
        }
        i = i + 1;
    }
    None
}

/// The sorting key of a table: the operator's where it is usable, else the
/// replica identity's columns.
fn resolve_order_by(cols: &Vec<ColumnDef>, key: &Vec<i16>, shape: &CreateShape) -> (r: Vec<
    String,
>)
    ensures
        views(r@) == chosen_keys(
            def_views(cols@),
            shape@,
            derived_keys(def_views(cols@), key@),
        ),
{
    let ghost all = def_views(cols@);
    let mut usable: bool = shape.order_by.len() > 0;
    let mut names: Vec<String> = Vec::new();
    let mut i: usize = 0;
    proof {
        assert(views(names@) =~= quoted_all(shape@.order_by).subrange(0, 0));
    }
    while i < shape.order_by.len() && usable
        invariant
            i <= shape.order_by@.len(),
            all == def_views(cols@),
            usable ==> shape.order_by@.len() > 0 && views(names@) == quoted_all(
                shape@.order_by,
            ).subrange(0, i as int) && forall|k: int|
                0 <= k < i ==> sortable(all, shape@.system, #[trigger] shape@.order_by[k]),
            !usable && shape.order_by@.len() > 0 ==> exists|k: int|
                0 <= k < shape.order_by@.len() && !sortable(
                    all,
                    shape@.system,
                    #[trigger] shape@.order_by[k],
                ),
        decreases shape.order_by@.len() - i,
    {
        let name: &String = &shape.order_by[i];
        proof {
            assert(shape@.order_by[i as int] == name@);
        }
        if may_sort(cols, &shape.system, name.as_str()) {
            push_text(&mut names, quote_ident(name.as_str()));
            proof {
                assert(views(names@) =~= quoted_all(shape@.order_by).subrange(0, i as int + 1));
            }
        } else {
            usable = false;
        }
        i = i + 1;
    }
    if usable {
        proof {
            assert(views(names@) =~= quoted_all(shape@.order_by));
        }
        return names;
    }
    let mut derived: Vec<String> = Vec::new();
    let mut k: usize = 0;
    proof {
        assert(views(derived@) =~= derived_keys(all, key@.subrange(0, 0)));
    }
    while k < key.len()
        invariant
            k <= key@.len(),
            all == def_views(cols@),
            views(derived@) == derived_keys(all, key@.subrange(0, k as int)),
        decreases key@.len() - k,
    {
        let ghost part = key@.subrange(0, k as int + 1);
        proof {
            assert(part.drop_last() =~= key@.subrange(0, k as int));
            assert(part.last() == key@[k as int]);
        }
        if let Some(s) = find_key(cols, key[k]) {
            push_text(&mut derived, s);
        }
        k = k + 1;
    }
    proof {
        assert(key@.subrange(0, k as int) =~= key@);
    }
    derived
}

/// The `CREATE TABLE` of a table with the columns `cols` and the replica
/// identity `key`.
pub open spec fn create_table_text(
    target: Seq<char>,
    cols: Seq<DefView>,
    key: Seq<i16>,
    shape: ShapeView,
) -> Seq<char> {
    create_text(
        target,
        cols.map_values(|d: DefView| def_text(d)),
        chosen_keys(cols, shape, derived_keys(cols, key)),
        shape,
    )
}

fn render_from_defs(
    target: &TableTarget,
    cols: &Vec<ColumnDef>,
    key: &Vec<i16>,
    shape: &CreateShape,
) -> (s: String)
    ensures
        s@ == create_table_text(target@.sql(), def_views(cols@), key@, shape@),
{
    let ghost want = def_views(cols@).map_values(|d: DefView| def_text(d));
    let mut defs: Vec<String> = Vec::new();
    let mut i: usize = 0;
    proof {
        assert(views(defs@) =~= want.subrange(0, 0));
    }
    while i < cols.len()
        invariant
            i <= cols@.len(),
            want == def_views(cols@).map_values(|d: DefView| def_text(d)),
            views(defs@) == want.subrange(0, i as int),
        decreases cols@.len() - i,
    {
        push_text(&mut defs, render_def(&cols[i]));
        proof {
            assert(want[i as int] == def_text(cols@[i as int]@));
            assert(views(defs@) =~= want.subrange(0, i as int + 1));
        }
        i = i + 1;
    }
    proof {
        assert(want.subrange(0, i as int) =~= want);
    }
    let keys: Vec<String> = resolve_order_by(cols, key, shape);
    let t: String = target.sql();
    render_create_sql(t.as_str(), defs, keys, shape)
}

/// The destination of a source column: its name there, and its type.
pub type Bridged = Option<(String, ResolvedColumn)>;

fn holds_attnum(list: &Vec<i16>, attnum: i16) -> (r: bool)
    ensures
        r == list@.contains(attnum),
{
    let mut i: usize = 0;
    while i < list.len()
        invariant
            i <= list@.len(),
            forall|k: int| 0 <= k < i ==> list@[k] != attnum,
        decreases list@.len() - i,
    {
        if list[i] == attnum {
            return true;
        }
        i = i + 1;
    }
    false
}

/// How an attribute is bridged: not at all when it is dropped, else as a
/// member of the relation's key or not. A member of the key sorts rows, so
/// the bridge gives it a type that is never nullable.
pub open spec fn bridged_as(att: RelAttr, key: Seq<i16>) -> Option<bool> {
    if att.dropped {
        None
    } else {
        Some(key.contains(att.attnum))
    }
}

/// How every attribute of the relation is to be bridged.
pub fn bridge_request(desc: &RelDescriptor) -> (r: Vec<Option<bool>>)
    ensures
        r@.len() == desc.attributes@.len(),
        forall|i: int|
            0 <= i < r@.len() ==> #[trigger] r@[i] == bridged_as(
                desc.attributes@[i],
                desc.replident.key(),
            ),
{
    let key: Vec<i16> = replident_key_attnums(desc);
    let mut out: Vec<Option<bool>> = Vec::new();
    let mut i: usize = 0;
    while i < desc.attributes.len()
        invariant
            i <= desc.attributes@.len(),
            key@ == desc.replident.key(),
            out@.len() == i,
            forall|k: int|
                0 <= k < i ==> #[trigger] out@[k] == bridged_as(
                    desc.attributes@[k],
                    desc.replident.key(),
                ),
        decreases desc.attributes@.len() - i,
    {
        let att: &RelAttr = &desc.attributes[i];
        out.push(
            if att.dropped {
                None
            } else {
                Some(holds_attnum(&key, att.attnum))
            },
        );
        i = i + 1;
    }
    out
}

/// Which columns that were added to the relation are to be bridged as members
/// of its key.
pub fn added_bridge_request(desc: &RelDescriptor, added: &Vec<RelAttr>) -> (r: Vec<bool>)
    ensures
        r@.len() == added@.len(),
        forall|i: int|
            0 <= i < r@.len() ==> #[trigger] r@[i] == desc.replident.key().contains(
                added@[i].attnum,
            ),
{
    let key: Vec<i16> = replident_key_attnums(desc);
    let mut out: Vec<bool> = Vec::new();
    let mut i: usize = 0;
    while i < added.len()
        invariant
            i <= added@.len(),
            key@ == desc.replident.key(),
            out@.len() == i,
            forall|k: int|
                0 <= k < i ==> #[trigger] out@[k] == desc.replident.key().contains(
                    added@[k].attnum,
                ),
        decreases added@.len() - i,
    {
        out.push(holds_attnum(&key, added[i].attnum));
        i = i + 1;
    }
    out
}

/// The definitions of the live attributes, in order; `None` if one of them
/// has no destination type.
pub open spec fn live_defs(attrs: Seq<RelAttr>, bridged: Seq<Bridged>) -> Option<Seq<DefView>>
    decreases attrs.len(),
{
    if attrs.len() == 0 {
        Some(Seq::empty())
    } else {
        let rest = live_defs(attrs.drop_last(), bridged.drop_last());
        if attrs.last().dropped {
            rest
        } else {
            match (rest, bridged.last()) {
                (Some(defs), Some((name, r))) => Some(
                    defs.push(
                        DefView {
                            attnum: attrs.last().attnum,
                            name: name@,
                            ch_type: r.ch_type@,
                            default_sql: opt_view(r.default_sql),
                        },
                    ),
                ),
                _ => None,
            }
        }
    }
}

/// `CREATE TABLE IF NOT EXISTS` for a discovered relation, whose attributes
/// bridge to `bridged`. `None` when a live column has no destination type.
pub fn render_create_table(
    desc: &RelDescriptor,
    target: &TableTarget,
    shape: &CreateShape,
    bridged: &Vec<Bridged>,
) -> (r: Option<String>)
    requires
        bridged@.len() == desc.attributes@.len(),
    ensures
        match (r, live_defs(desc.attributes@, bridged@)) {
            (Some(s), Some(cols)) => s@ == create_table_text(
                target@.sql(),
                cols,
                desc.replident.key(),
                shape@,
            ),
            (None, None) => true,
            _ => false,
        },
{
    let mut cols: Vec<ColumnDef> = Vec::new();
    let ghost attrs = desc.attributes@;
    let mut i: usize = 0;
    proof {
        assert(attrs.subrange(0, 0) =~= Seq::empty());
        assert(def_views(cols@) =~= Seq::empty());
    }
    while i < desc.attributes.len()
        invariant
            i <= attrs.len(),
            attrs == desc.attributes@,
            bridged@.len() == attrs.len(),
            live_defs(attrs.subrange(0, i as int), bridged@.subrange(0, i as int)) == Some(
                def_views(cols@),
            ),
        decreases attrs.len() - i,
    {
        let ghost before = cols@;
        proof {
            assert(attrs.subrange(0, i as int + 1).drop_last() =~= attrs.subrange(0, i as int));
            assert(bridged@.subrange(0, i as int + 1).drop_last() =~= bridged@.subrange(
                0,
                i as int,
            ));
        }
        let att: &RelAttr = &desc.attributes[i];
        if !att.dropped {
            match &bridged[i] {
                None => {
                    proof {
                        lemma_unbridged(attrs, bridged@, i as int + 1);
                    }
                    return None;
                },
                Some((name, r)) => {
                    cols.push(
                        ColumnDef {
                            attnum: att.attnum,
                            name: name.clone(),
                            ch_type: r.ch_type.clone(),
                            default_sql: match &r.default_sql {
                                Some(d) => Some(d.clone()),
                                None => None,
                            },
                        },
                    );
                    proof {
                        assert(def_views(cols@) =~= def_views(before).push(cols@.last()@));
                    }
                },
            }
        }
        i = i + 1;
    }
    proof {
        assert(attrs.subrange(0, i as int) =~= attrs);
        assert(bridged@.subrange(0, i as int) =~= bridged@);
    }
    let key: Vec<i16> = replident_key_attnums(desc);
    Some(render_from_defs(target, &cols, &key, shape))
}

/// A prefix without definitions leaves the whole without.
pub proof fn lemma_unbridged(attrs: Seq<RelAttr>, bridged: Seq<Bridged>, n: int)
    requires
        0 <= n <= attrs.len(),
        attrs.len() == bridged.len(),
        live_defs(attrs.subrange(0, n), bridged.subrange(0, n)) is None,
    ensures
        live_defs(attrs, bridged) is None,
    decreases attrs.len() - n,
{
    if n < attrs.len() {
        assert(attrs.subrange(0, n + 1).drop_last() =~= attrs.subrange(0, n));
        assert(bridged.subrange(0, n + 1).drop_last() =~= bridged.subrange(0, n));
        lemma_unbridged(attrs, bridged, n + 1);
    } else {
        assert(attrs.subrange(0, n) =~= attrs);
        assert(bridged.subrange(0, n) =~= bridged);
    }
}

/// A mapped column's definition.
pub open spec fn mapped_def(c: ColumnMappingView) -> DefView {
    DefView {
        attnum: c.src_attnum,
        name: c.target_name,
        ch_type: c.target_type,
        default_sql: None,
    }
}

/// `CREATE TABLE IF NOT EXISTS` rendered from a mapping, for a mapped
/// destination that is missing: its columns are the insert's.
pub fn render_create_table_from_mapping(
    desc: &RelDescriptor,
    mapping: &TableMapping,
    shape: &CreateShape,
) -> (s: String)
    ensures
        s@ == create_table_text(
            mapping@.target.sql(),
            mapping@.columns.map_values(|c: ColumnMappingView| mapped_def(c)),
            desc.replident.key(),
            shape@,
        ),
{
    let ghost want = mapping@.columns.map_values(|c: ColumnMappingView| mapped_def(c));
    let mut cols: Vec<ColumnDef> = Vec::new();
    let mut i: usize = 0;
    proof {
        assert(def_views(cols@) =~= want.subrange(0, 0));
    }
    while i < mapping.columns.len()
        invariant
            i <= mapping.columns@.len(),
            want == mapping@.columns.map_values(|c: ColumnMappingView| mapped_def(c)),
            def_views(cols@) == want.subrange(0, i as int),
        decreases mapping.columns@.len() - i,
    {
        let ghost before = cols@;
        let c: &ColumnMapping = &mapping.columns[i];
        cols.push(
            ColumnDef {
                attnum: c.src_attnum,
                name: c.target_name.clone(),
                ch_type: c.target_type.clone(),
                default_sql: None,
            },
        );
        proof {
            assert(mapping@.columns[i as int] == c@);
            assert(want[i as int] == cols@.last()@);
            assert(def_views(cols@) =~= def_views(before).push(cols@.last()@));
            assert(def_views(cols@) =~= want.subrange(0, i as int + 1));
        }
        i = i + 1;
    }
    proof {
        assert(want.subrange(0, i as int) =~= want);
    }
    let key: Vec<i16> = replident_key_attnums(desc);
    render_from_defs(&mapping.target, &cols, &key, shape)
}

/// Every sorting key that replica identity yields is a column that is not
/// nullable.
pub proof fn derived_keys_are_never_nullable(cols: Seq<DefView>, key: Seq<i16>)
    ensures
        forall|i: int|
            0 <= i < derived_keys(cols, key).len() ==> exists|j: int|
                0 <= j < cols.len() && #[trigger] derived_keys(cols, key)[i] == quoted(
                    (#[trigger] cols[j]).name,
                ) && !nullable_type(cols[j].ch_type),
    decreases key.len(),
{
    if key.len() > 0 {
        derived_keys_are_never_nullable(cols, key.drop_last());
        let rest = derived_keys(cols, key.drop_last());
        let all = derived_keys(cols, key);
        assert forall|i: int| 0 <= i < all.len() implies exists|j: int|
            0 <= j < cols.len() && #[trigger] all[i] == quoted((#[trigger] cols[j]).name)
                && !nullable_type(cols[j].ch_type) by {
            if i < rest.len() {
                assert(all[i] == rest[i]);
            } else {
                lemma_key_name(cols, key.last());
            }
        }
    }
}

proof fn lemma_key_name(cols: Seq<DefView>, attnum: i16)
    ensures
        match key_name(cols, attnum) {
            Some(n) => exists|j: int|
                0 <= j < cols.len() && n == quoted((#[trigger] cols[j]).name) && !nullable_type(
                    cols[j].ch_type,
                ) && cols[j].attnum == attnum,
            None => true,
        },
    decreases cols.len(),
{
    if cols.len() > 0 {
        if cols[0].attnum == attnum && !nullable_type(cols[0].ch_type) {
            assert(quoted(cols[0].name) == key_name(cols, attnum)->0);
        } else {
            let rest = cols.subrange(1, cols.len() as int);
            lemma_key_name(rest, attnum);
            if let Some(n) = key_name(rest, attnum) {
                let j = choose|j: int|
                    0 <= j < rest.len() && n == quoted((#[trigger] rest[j]).name)
                        && !nullable_type(rest[j].ch_type) && rest[j].attnum == attnum;
                assert(cols[j + 1] == rest[j]);
            }
        }
    }
}

/// The answers give no nullable type to an attribute that was asked for as a
/// member of the key.
pub open spec fn honours(attrs: Seq<RelAttr>, key: Seq<i16>, bridged: Seq<Bridged>) -> bool {
    forall|i: int|
        0 <= i < attrs.len() && bridged_as(#[trigger] attrs[i], key) == Some(true)
            ==> match bridged[i] {
            Some((_, r)) => !nullable_type(r.ch_type@),
            None => true,
        }
}

/// Some column has the attribute's number.
pub open spec fn has_attnum(cols: Seq<DefView>, attnum: i16) -> bool {
    exists|c: int| 0 <= c < cols.len() && (#[trigger] cols[c]).attnum == attnum
}

/// Where the bridge honours what it is asked for, no column of the relation's
/// key is nullable, and the whole key sorts the table, in key order.
pub proof fn honoured_keys_sort_the_table(
    attrs: Seq<RelAttr>,
    key: Seq<i16>,
    bridged: Seq<Bridged>,
    cols: Seq<DefView>,
)
    requires
        bridged.len() == attrs.len(),
        honours(attrs, key, bridged),
        live_defs(attrs, bridged) == Some(cols),
        forall|k: int|
            0 <= k < key.len() ==> exists|i: int|
                0 <= i < attrs.len() && !(#[trigger] attrs[i]).dropped && attrs[i].attnum
                    == #[trigger] key[k],
    ensures
        forall|c: int|
            0 <= c < cols.len() && key.contains((#[trigger] cols[c]).attnum) ==> !nullable_type(
                cols[c].ch_type,
            ),
        derived_keys(cols, key).len() == key.len(),
        forall|k: int|
            0 <= k < key.len() ==> exists|c: int|
                0 <= c < cols.len() && (#[trigger] cols[c]).attnum == key[k]
                    && #[trigger] derived_keys(cols, key)[k] == quoted(cols[c].name),
{
    lemma_live_columns(attrs, key, bridged, cols);
    assert forall|k: int| 0 <= k < key.len() implies has_attnum(cols, #[trigger] key[k]) by {
        let i = choose|i: int|
            0 <= i < attrs.len() && !(#[trigger] attrs[i]).dropped && attrs[i].attnum == key[k];
        assert(has_attnum(cols, attrs[i].attnum));
    }
    assert(key.subrange(0, key.len() as int) =~= key);
    lemma_keys_found(cols, key, key);
}

proof fn lemma_live_columns(
    attrs: Seq<RelAttr>,
    key: Seq<i16>,
    bridged: Seq<Bridged>,
    cols: Seq<DefView>,
)
    requires
        bridged.len() == attrs.len(),
        honours(attrs, key, bridged),
        live_defs(attrs, bridged) == Some(cols),
    ensures
        forall|c: int|
            0 <= c < cols.len() && key.contains((#[trigger] cols[c]).attnum) ==> !nullable_type(
                cols[c].ch_type,
            ),
        forall|i: int|
            0 <= i < attrs.len() && !(#[trigger] attrs[i]).dropped ==> has_attnum(
                cols,
                attrs[i].attnum,
            ),
    decreases attrs.len(),
{
    if attrs.len() > 0 {
        let n = attrs.len() - 1;
        let attrs0 = attrs.drop_last();
        let bridged0 = bridged.drop_last();
        let rest = live_defs(attrs0, bridged0)->0;
        assert forall|i: int|
            0 <= i < attrs0.len() && bridged_as(#[trigger] attrs0[i], key) == Some(
                true,
            ) implies match bridged0[i] {
            Some((_, r)) => !nullable_type(r.ch_type@),
            None => true,
        } by {
            assert(attrs0[i] == attrs[i] && bridged0[i] == bridged[i]);
        }
        lemma_live_columns(attrs0, key, bridged0, rest);
        assert(bridged_as(attrs[n], key) == bridged_as(attrs.last(), key));
        assert forall|i: int| 0 <= i < attrs.len() && !(#[trigger] attrs[i]).dropped implies
            has_attnum(cols, attrs[i].attnum) by {
            if i < n {
                assert(attrs0[i] == attrs[i]);
                assert(has_attnum(rest, attrs[i].attnum));
                let c = choose|c: int|
                    0 <= c < rest.len() && (#[trigger] rest[c]).attnum == attrs[i].attnum;
                assert(cols[c] == rest[c]);
            } else {
                assert(cols[cols.len() - 1].attnum == attrs[i].attnum);
            }
        }
        assert forall|c: int|
            0 <= c < cols.len() && key.contains((#[trigger] cols[c]).attnum) implies !nullable_type(
            cols[c].ch_type,
        ) by {
            if c < rest.len() {
                assert(cols[c] == rest[c]);
            }
        }
    }
}

/// `part` are the first of the key's members.
proof fn lemma_keys_found(cols: Seq<DefView>, key: Seq<i16>, part: Seq<i16>)
    requires
        part.len() <= key.len(),
        part == key.subrange(0, part.len() as int),
        forall|k: int| 0 <= k < key.len() ==> has_attnum(cols, #[trigger] key[k]),
        forall|c: int|
            0 <= c < cols.len() && key.contains((#[trigger] cols[c]).attnum) ==> !nullable_type(
                cols[c].ch_type,
            ),
    ensures
        derived_keys(cols, part).len() == part.len(),
        forall|k: int|
            0 <= k < part.len() ==> exists|c: int|
                0 <= c < cols.len() && (#[trigger] cols[c]).attnum == part[k]
                    && #[trigger] derived_keys(cols, part)[k] == quoted(cols[c].name),
    decreases part.len(),
{
    if part.len() > 0 {
        let n = part.len() - 1;
        let part0 = part.drop_last();
        assert(part0 =~= key.subrange(0, part0.len() as int));
        lemma_keys_found(cols, key, part0);
        let rest = derived_keys(cols, part0);
        let all = derived_keys(cols, part);
        assert(key[n] == part.last());
        assert(has_attnum(cols, key[n]));
        let c = choose|c: int| 0 <= c < cols.len() && (#[trigger] cols[c]).attnum == key[n];
        assert(key.contains(cols[c].attnum));
        lemma_key_found(cols, key[n], c);
        lemma_key_name(cols, key[n]);
        assert forall|k: int| 0 <= k < part.len() implies exists|c: int|
            0 <= c < cols.len() && (#[trigger] cols[c]).attnum == part[k] && #[trigger] all[k]
                == quoted(cols[c].name) by {
            if k < n {
                assert(all[k] == rest[k]);
                assert(part0[k] == part[k]);
            }
        }
    }
}

proof fn lemma_key_found(cols: Seq<DefView>, attnum: i16, c: int)
    requires
        0 <= c < cols.len(),
        cols[c].attnum == attnum,
        !nullable_type(cols[c].ch_type),
    ensures
        key_name(cols, attnum) is Some,
    decreases cols.len(),
{
    if c > 0 {
        let rest = cols.subrange(1, cols.len() as int);
        assert(rest[c - 1] == cols[c]);
        lemma_key_found(rest, attnum, c - 1);
    }
}

/// The primary key that a statement names is a prefix of its sorting key.
pub proof fn primary_key_is_a_prefix(keys: Seq<Seq<char>>, pk: Seq<Seq<char>>)
    requires
        primary_key_clause(keys, pk).len() > 0,
    ensures
        pk.len() > 0,
        quoted_all(pk).is_prefix_of(keys),
        primary_key_clause(keys, pk) == "\nPRIMARY KEY ("@ + joined(
            keys.subrange(0, pk.len() as int),
            ", "@,
        ) + ")"@,
{
    assert(quoted_all(pk) =~= keys.subrange(0, pk.len() as int));
}

} // verus!
