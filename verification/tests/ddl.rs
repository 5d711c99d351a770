//! Statements, steps and predictions of the DDL side.
use walshadow::conn::ConnParams;
use walshadow::ddl::apply::{
    apply_added, apply_changed, apply_dropped, derive_columns_for_mapping, truncate, DdlCounter,
    DdlStats, DdlStep, RelationFacts,
};
use walshadow::ddl::config::{is_system_namespace, DdlConfig};
use walshadow::ddl::defaults::{disk_default_request, resolve_disk_default};
use walshadow::ddl::predict::{
    apply_snowflake, mapping_columns_at, predict_route_effect, predict_snowflake_effects, EventFacts,
};
use walshadow::ddl::render::{
    added_bridge_request, bridge_request, is_nullable, render_add_column, render_create_table,
    render_create_table_from_mapping, Bridged, CreateShape, ResolvedColumn,
};
use walshadow::ddl::session::{
    check_session, create_database_sql, ensure_boot_database, ensure_ch_table, refresh_config,
    snowflake_opt_in_mapping, BootDatabase, EnsuredDatabases, UNKNOWN_DATABASE,
};
use walshadow::ddl::snowflake::{
    snowflake_columns, snowflake_target, validate_complete_snowflake_mapping,
    validate_snowflake_route, ColumnRule, SnowflakeTargets,
};
use walshadow::errors::EmitterError;
use walshadow::mapping::{
    ColumnMapping, DropTableStrategy, NamespaceMapping, RouteMap, SystemColumnNames, SystemColumns,
    TableMapping, TableRule, TableTarget,
};
use walshadow::schema::{
    MissingDefault, RelAttr, RelDescriptor, RelFileNode, RelName, ReplIdent,
    SchemaDiff,
};
use walshadow::values::ColumnValue;

const INT4OID: u32 = 23;
const TEXTOID: u32 = 25;
const TIMESTAMPTZOID: u32 = 1184;

fn att(attnum: i16, name: &str, oid: u32, not_null: bool, missing: Option<&str>) -> RelAttr {
    RelAttr {
        attnum,
        name: name.into(),
        type_oid: oid,
        typmod: -1,
        not_null,
        dropped: false,
        type_len: 4,
        missing_default: missing.map(|s| MissingDefault::Text(s.into())),
    }
}

fn desc(name: &str, attrs: Vec<RelAttr>, pk: Option<Vec<i16>>) -> RelDescriptor {
    RelDescriptor {
        rfn: RelFileNode { spc_node: 1663, db_node: 5, rel_node: 16400 },
        oid: 16400,
        toast_oid: 0,
        rel_name: RelName::new("public", name),
        kind: 'r',
        replident: ReplIdent::Default { pk_attnums: pk },
        attributes: attrs,
    }
}

/// What an attribute of the fixtures bridges to, asked for as the relation
/// has it.
fn bridge(d: &RelDescriptor) -> Vec<Bridged> {
    d.attributes
        .iter()
        .zip(bridge_request(d))
        .map(|(a, request)| {
            let key_member = request?;
            let base = match a.type_oid {
                INT4OID => "Int32".to_string(),
                TIMESTAMPTZOID => format!("DateTime64({}, 'UTC')", a.typmod),
                _ => "String".to_string(),
            };
            let ch_type = if a.not_null || key_member {
                base
            } else {
                format!("Nullable({base})")
            };
            Some((a.name.clone(), ResolvedColumn { ch_type, default_sql: None }))
        })
        .collect()
}

fn shape_with(order_by: &[&str], primary_key: &[&str]) -> CreateShape {
    CreateShape {
        system: SystemColumns::default(),
        soft_delete: false,
        order_by: order_by.iter().map(|s| s.to_string()).collect(),
        primary_key: primary_key.iter().map(|s| s.to_string()).collect(),
    }
}

fn shape(soft_delete: bool) -> CreateShape {
    CreateShape { soft_delete, ..shape_with(&[], &[]) }
}

fn dest(database: &str, d: &RelDescriptor) -> TableTarget {
    TableTarget::new(database, &d.rel_name.name)
}

fn create(d: &RelDescriptor, database: &str, shape: &CreateShape) -> String {
    render_create_table(d, &dest(database, d), shape, &bridge(d)).expect("renderable")
}

fn config(strategy: DropTableStrategy, namespaces: Vec<(String, NamespaceMapping)>) -> DdlConfig {
    DdlConfig {
        drop_table_strategy: strategy,
        auto_create_namespaces: vec![],
        replicate_all: false,
        runtime_config_schema: None,
        target_database: "default".into(),
        namespaces,
        soft_delete: false,
        system: SystemColumns::default(),
    }
}

fn column(src_attnum: i16, name: &str, ty: &str) -> ColumnMapping {
    ColumnMapping { src_attnum, target_name: name.into(), target_type: ty.into() }
}

fn rules(n: usize) -> Vec<ColumnRule> {
    (0..n).map(|_| ColumnRule { target_name: None, target_type: None }).collect()
}

fn snow_types(n: usize) -> Vec<String> {
    (0..n).map(|_| "TEXT".to_string()).collect()
}

fn statements(steps: &[DdlStep]) -> Vec<String> {
    steps
        .iter()
        .filter_map(|s| match s {
            DdlStep::Execute(q) => Some(q.clone()),
            _ => None,
        })
        .collect()
}

#[test]
fn system_namespaces_excluded_from_replicate_all() {
    assert!(is_system_namespace("pg_catalog", None));
    assert!(is_system_namespace("pg_toast", None));
    assert!(is_system_namespace("information_schema", None));
    assert!(is_system_namespace("pg_temp_3", None));
    assert!(!is_system_namespace("public", None));
    assert!(is_system_namespace("walshadow", Some("walshadow")));
    assert!(!is_system_namespace("walshadow", Some("")));
    assert!(!is_system_namespace("public", Some("walshadow")));
}

#[test]
fn per_namespace_target_and_drop_override_global() {
    let cfg = config(
        DropTableStrategy::Retain,
        vec![
            (
                "analytics".to_string(),
                NamespaceMapping {
                    target_database: Some("warehouse".into()),
                    auto_create: true,
                    drop_table_strategy: Some(DropTableStrategy::Drop),
                    initial_load: None,
                },
            ),
            (
                "logs".to_string(),
                NamespaceMapping {
                    target_database: None,
                    auto_create: true,
                    drop_table_strategy: None,
                    initial_load: None,
                },
            ),
        ],
    );
    assert_eq!(cfg.target_database_for("analytics"), "warehouse");
    assert_eq!(cfg.target_database_for("logs"), "default");
    assert_eq!(cfg.target_database_for("unconfigured"), "default");
    assert_eq!(cfg.drop_strategy_for("analytics"), DropTableStrategy::Drop);
    assert_eq!(cfg.drop_strategy_for("logs"), DropTableStrategy::Retain);
    assert_eq!(cfg.drop_strategy_for("unconfigured"), DropTableStrategy::Retain);
}

#[test]
fn with_drop_strategy_overrides_global_default() {
    let cfg = config(DropTableStrategy::Retain, vec![]);
    assert_eq!(cfg.drop_table_strategy, DropTableStrategy::Retain);
    let cfg = cfg.with_drop_strategy(DropTableStrategy::Drop);
    assert_eq!(cfg.drop_table_strategy, DropTableStrategy::Drop);
    // The global override drives the fallback of every namespace
    assert_eq!(cfg.drop_strategy_for("unconfigured"), DropTableStrategy::Drop);
}

#[test]
fn snowflake_mapping_rejects_missing_and_duplicate_columns() {
    let descriptor = desc(
        "records",
        vec![att(1, "id", INT4OID, true, None), att(2, "value", TEXTOID, false, None)],
        Some(vec![1]),
    );
    let columns = snowflake_columns(&descriptor, &rules(2), &snow_types(2)).unwrap();
    assert_eq!(columns.len(), 2);
    let mut mapping = TableMapping { target: TableTarget::new("DB", "records"), columns };
    validate_complete_snowflake_mapping(&descriptor, &mapping).unwrap();
    mapping.columns.pop();
    assert!(validate_complete_snowflake_mapping(&descriptor, &mapping).is_err());

    let duplicate = desc(
        "records",
        vec![att(1, "ID", INT4OID, true, None), att(2, "id", TEXTOID, false, None)],
        Some(vec![1]),
    );
    assert!(snowflake_columns(&duplicate, &rules(2), &snow_types(2)).is_err());
}

/// The settings are those that the matching entries resolve to.
#[test]
fn pattern_entry_decides_scope_and_destination() {
    let mut cfg = config(DropTableStrategy::Retain, vec![]);
    cfg.runtime_config_schema = Some("walshadow".into());
    let events = RelName::new("app", "events_1");
    let wanted = TableRule {
        replicate: Some(true),
        target_database: Some("warehouse".into()),
        system: SystemColumnNames {
            lsn: Some("_peerdb_version".into()),
            xid: None,
            commit_ts: None,
            is_deleted: Some(String::new()),
        },
        ..TableRule::default()
    };
    assert!(cfg.auto_creates(&wanted, &events));
    assert!(cfg
        .create_target(&wanted, &events)
        .same(&TableTarget::new("warehouse", "events_1")));
    let refused = TableRule { replicate: Some(false), ..TableRule::default() };
    let audit = RelName::new("app", "events_audit");
    assert_eq!(
        cfg.declared_scope(&refused, &audit),
        Some(false),
        "guardrail beats the matching opt-in"
    );
    assert!(!cfg.auto_creates(&refused, &audit));
    let any = TableRule { replicate: Some(true), ..TableRule::default() };
    assert_eq!(cfg.declared_scope(&any, &RelName::new("walshadow", "x")), None);
    assert!(!cfg.auto_creates(&any, &RelName::new("pg_catalog", "pg_class")));
    let made = cfg.create_shape(&wanted);
    assert_eq!(made.system.lsn, "_peerdb_version");
    assert!(made.system.is_deleted.is_none(), "marker dropped");
    assert_eq!(made.system.xid, "_xid", "unnamed column inherits");
    let other = RelName::new("other", "t");
    assert!(cfg.create_target(&any, &other).same(&TableTarget::new("default", "t")));
    assert_eq!(
        cfg.create_shape(&any).system.lsn,
        "_lsn",
        "a relation no entry renames keeps the cluster-wide names"
    );
}

#[test]
fn render_add_column_emits_idempotent_alter_with_default() {
    let resolved = ResolvedColumn {
        ch_type: "Nullable(Int32)".into(),
        default_sql: Some("7".into()),
    };
    let sql = render_add_column("default.orders", "ship_at", &resolved);
    assert_eq!(
        sql,
        "ALTER TABLE default.orders ADD COLUMN IF NOT EXISTS `ship_at` Nullable(Int32) DEFAULT 7"
    );
}

#[test]
fn render_add_column_without_default_skips_default_clause() {
    let resolved = ResolvedColumn { ch_type: "String".into(), default_sql: None };
    let sql = render_add_column("default.t", "c", &resolved);
    assert_eq!(sql, "ALTER TABLE default.t ADD COLUMN IF NOT EXISTS `c` String");
}

#[test]
fn jsonb_disk_default_renders_on_add_column() {
    let resolved = ResolvedColumn {
        ch_type: "String".into(),
        default_sql: Some(r#"'{"a": 1}'"#.into()),
    };
    assert_eq!(
        render_add_column("default.t", "labels", &resolved),
        r#"ALTER TABLE default.t ADD COLUMN IF NOT EXISTS `labels` String DEFAULT '{"a": 1}'"#
    );
}

/// A new table starts empty, so only an added column needs a default.
#[test]
fn unresolved_disk_default_renders_no_default_clause() {
    let resolved = ResolvedColumn { ch_type: "String".into(), default_sql: None };
    assert_eq!(
        render_add_column("default.t", "labels", &resolved),
        "ALTER TABLE default.t ADD COLUMN IF NOT EXISTS `labels` String"
    );
    let d = desc(
        "t",
        vec![att(1, "id", INT4OID, true, None), att(2, "labels", 3614, true, None)],
        Some(vec![1]),
    );
    let sql = create(&d, "default", &shape(false));
    assert!(sql.contains("`labels` String,"), "{sql}");
    assert!(!sql.contains("DEFAULT"), "{sql}");
}

#[test]
fn render_create_table_states_the_rule_name_and_type() {
    let d = desc(
        "orders",
        vec![att(1, "id", INT4OID, true, None), att(2, "net_amount", INT4OID, false, None)],
        Some(vec![1]),
    );
    let bridged: Vec<Bridged> = vec![
        Some(("order_id".into(), ResolvedColumn { ch_type: "Int32".into(), default_sql: None })),
        Some((
            "net_amount".into(),
            ResolvedColumn { ch_type: "Decimal(38, 9)".into(), default_sql: None },
        )),
    ];
    let sql = render_create_table(&d, &dest("db", &d), &shape(false), &bridged).expect("renderable");
    assert!(sql.contains("`order_id` Int32"), "{sql}");
    assert!(sql.contains("`net_amount` Decimal(38, 9)"), "{sql}");
    assert!(sql.ends_with("ORDER BY (`order_id`)"), "{sql}");
}

#[test]
fn render_create_table_drops_a_key_a_rule_made_nullable() {
    let d = desc("t", vec![att(1, "id", INT4OID, true, None)], Some(vec![1]));
    let bridged: Vec<Bridged> = vec![Some((
        "id".into(),
        ResolvedColumn { ch_type: "Nullable(Int32)".into(), default_sql: None },
    ))];
    let sql = render_create_table(&d, &dest("db", &d), &shape(false), &bridged).expect("renderable");
    assert!(sql.ends_with("ORDER BY (`_lsn`)"), "{sql}");
}

#[test]
fn render_create_table_uses_pk_for_order_by() {
    let d = desc(
        "orders",
        vec![att(1, "id", INT4OID, true, None), att(2, "body", TEXTOID, false, None)],
        Some(vec![1]),
    );
    let sql = create(&d, "default", &shape(false));
    assert!(sql.contains("CREATE TABLE IF NOT EXISTS `default`.`orders`"));
    assert!(sql.contains("`id` Int32"));
    assert!(sql.contains("`body` Nullable(String)"));
    assert!(sql.contains("`_lsn` UInt64"));
    assert!(sql.contains("`_is_deleted` Bool"));
    assert!(sql.contains("ENGINE = ReplacingMergeTree(`_lsn`, `_is_deleted`)"));
    assert!(sql.ends_with("ORDER BY (`id`)"));
}

#[test]
fn create_statement_is_rendered_to_the_letter() {
    let d = desc(
        "orders",
        vec![att(1, "id", INT4OID, true, None), att(2, "body", TEXTOID, false, None)],
        Some(vec![1]),
    );
    assert_eq!(
        create(&d, "default", &shape(false)),
        "CREATE TABLE IF NOT EXISTS `default`.`orders` (\n  `id` Int32,\n  `body` Nullable(String),\n  \
         `_lsn` UInt64,\n  `_xid` UInt32,\n  `_commit_ts` DateTime64(6, 'UTC'),\n  `_is_deleted` Bool\n) \
         ENGINE = ReplacingMergeTree(`_lsn`, `_is_deleted`)\nORDER BY (`id`)"
    );
}

#[test]
fn render_create_table_full_replica_identity_orders_by_pk_not_lsn() {
    // Without a key index the table still has its primary key; sorting by
    // position would collapse rows that share one
    let mut d = desc(
        "orders",
        vec![att(1, "id", INT4OID, true, None), att(2, "body", TEXTOID, false, None)],
        None,
    );
    d.replident = ReplIdent::Full { pk_attnums: Some(vec![1]) };
    let sql = create(&d, "default", &shape(false));
    assert!(sql.ends_with("ORDER BY (`id`)"), "{sql}");
    assert!(!sql.contains("ORDER BY _lsn"), "{sql}");
}

#[test]
fn render_create_table_composite_pk_preserves_order_and_forces_non_null() {
    let d = desc(
        "orders",
        vec![
            att(1, "a", INT4OID, false, None),
            att(2, "b", INT4OID, false, None),
            att(3, "body", TEXTOID, false, None),
        ],
        Some(vec![2, 1]),
    );
    let sql = create(&d, "default", &shape(false));
    assert!(sql.contains("`a` Int32"), "{sql}");
    assert!(sql.contains("`b` Int32"), "{sql}");
    assert!(!sql.contains("`a` Nullable"), "{sql}");
    assert!(!sql.contains("`b` Nullable"), "{sql}");
    assert!(sql.contains("`body` Nullable(String)"), "{sql}");
    assert!(sql.ends_with("ORDER BY (`b`, `a`)"), "{sql}");
}

/// Key members are bridged as such, dropped attributes not at all.
#[test]
fn attributes_are_bridged_by_their_place_in_the_key() {
    let mut gone = att(3, "gone", TEXTOID, false, None);
    gone.dropped = true;
    let d = desc(
        "orders",
        vec![att(1, "a", INT4OID, false, None), att(2, "b", INT4OID, false, None), gone],
        Some(vec![2, 3]),
    );
    assert_eq!(bridge_request(&d), [Some(false), Some(true), None]);
    let added = vec![att(2, "b", INT4OID, false, None), att(9, "z", INT4OID, false, None)];
    assert_eq!(added_bridge_request(&d, &added), [true, false]);
    let mut keyless = d;
    keyless.replident = ReplIdent::Nothing;
    assert_eq!(bridge_request(&keyless), [Some(false), Some(false), None]);
}

#[test]
fn soft_delete_keeps_is_deleted_out_of_engine_args() {
    let d = desc(
        "orders",
        vec![att(1, "id", INT4OID, true, None), att(2, "body", TEXTOID, false, None)],
        Some(vec![1]),
    );
    let sql = create(&d, "default", &shape(true));
    // The column stays; only the engine does without it
    assert!(sql.contains("`_is_deleted` Bool"));
    assert!(sql.contains("ENGINE = ReplacingMergeTree(`_lsn`)"));
    assert!(!sql.contains("ReplacingMergeTree(`_lsn`, `_is_deleted`)"));
    assert!(sql.ends_with("ORDER BY (`id`)"));
}

#[test]
fn render_create_table_falls_back_to_lsn_when_no_pk() {
    let d = desc("events", vec![att(1, "body", TEXTOID, false, None)], None);
    assert!(create(&d, "default", &shape(false)).ends_with("ORDER BY (`_lsn`)"));
}

#[test]
fn render_create_table_order_by_from_replica_identity_index() {
    let mut d = desc(
        "events",
        vec![
            att(1, "tenant", INT4OID, false, None),
            att(2, "key", TEXTOID, false, None),
            att(3, "body", TEXTOID, false, None),
        ],
        None,
    );
    d.replident = ReplIdent::UsingIndex { index_oid: 16500, key_attnums: vec![2, 1] };
    let sql = create(&d, "default", &shape(false));
    assert!(!sql.contains("`key` Nullable"), "{sql}");
    assert!(!sql.contains("`tenant` Nullable"), "{sql}");
    assert!(sql.contains("`body` Nullable(String)"), "{sql}");
    assert!(sql.ends_with("ORDER BY (`key`, `tenant`)"), "{sql}");
}

#[test]
fn render_create_table_falls_back_to_lsn_when_pk_cols_all_dropped() {
    let d = desc("events", vec![att(2, "body", TEXTOID, false, None)], Some(vec![1]));
    let sql = create(&d, "default", &shape(false));
    assert!(sql.ends_with("ORDER BY (`_lsn`)"), "{sql}");
}

#[test]
fn render_create_table_handles_timestamp_precision() {
    let mut a = att(1, "ship_at", TIMESTAMPTZOID, false, None);
    a.typmod = 3;
    let d = desc("t", vec![a], None);
    let sql = create(&d, "db", &shape(false));
    assert!(sql.contains("`ship_at` Nullable(DateTime64(3, 'UTC'))"), "{sql}");
}

#[test]
fn render_create_table_from_mapping_uses_pinned_shape() {
    let d = desc(
        "orders",
        vec![att(1, "id", INT4OID, true, None), att(2, "body", TEXTOID, false, None)],
        Some(vec![1]),
    );
    let m = TableMapping {
        target: TableTarget::new("warehouse", "orders_pinned"),
        columns: vec![column(1, "order_id", "Int64"), column(2, "payload", "Nullable(String)")],
    };
    let sql = render_create_table_from_mapping(&d, &m, &shape(false));
    assert!(sql.contains("CREATE TABLE IF NOT EXISTS `warehouse`.`orders_pinned`"), "{sql}");
    assert!(sql.contains("`order_id` Int64"), "{sql}");
    assert!(sql.contains("`payload` Nullable(String)"), "{sql}");
    assert!(sql.contains("`_lsn` UInt64"), "{sql}");
    // The key resolves to the mapped name
    assert!(sql.ends_with("ORDER BY (`order_id`)"), "{sql}");
}

#[test]
fn render_create_table_from_mapping_nullable_key_falls_back_to_lsn() {
    let d = desc("t", vec![att(1, "id", INT4OID, false, None)], Some(vec![1]));
    let m = TableMapping {
        target: TableTarget::new("db", "t"),
        columns: vec![column(1, "id", "Nullable(Int32)")],
    };
    let sql = render_create_table_from_mapping(&d, &m, &shape(false));
    assert!(sql.ends_with("ORDER BY (`_lsn`)"), "{sql}");
}

#[test]
fn render_create_table_renames_system_columns() {
    let system = SystemColumns {
        lsn: "_peerdb_version".into(),
        xid: "_xid".into(),
        commit_ts: "_peerdb_synced_at".into(),
        is_deleted: Some("_peerdb_is_deleted".into()),
    };
    let d = desc("t", vec![att(1, "id", INT4OID, true, None)], Some(vec![1]));
    let sql = create(&d, "default", &CreateShape { system, ..shape(false) });
    assert!(sql.contains("`_peerdb_version` UInt64"), "{sql}");
    assert!(sql.contains("`_peerdb_synced_at` DateTime64(6, 'UTC')"), "{sql}");
    assert!(sql.contains("`_peerdb_is_deleted` Bool"), "{sql}");
    assert!(
        sql.contains("ReplacingMergeTree(`_peerdb_version`, `_peerdb_is_deleted`)"),
        "{sql}"
    );
    assert!(!sql.contains("`_lsn`"), "{sql}");
}

#[test]
fn render_create_table_without_delete_marker() {
    let system = SystemColumns { is_deleted: None, ..SystemColumns::default() };
    let d = desc("t", vec![att(1, "id", INT4OID, true, None)], None);
    let sql = create(&d, "default", &CreateShape { system, ..shape(false) });
    assert!(!sql.contains("_is_deleted"), "{sql}");
    assert!(sql.contains("ENGINE = ReplacingMergeTree(`_lsn`)"), "{sql}");
    assert!(sql.ends_with("ORDER BY (`_lsn`)"), "{sql}");
}

#[test]
fn render_create_table_takes_operator_order_by_over_pk() {
    let d = desc(
        "t",
        vec![att(1, "id", INT4OID, true, None), att(2, "tenant", INT4OID, true, None)],
        Some(vec![1]),
    );
    let sql = create(&d, "default", &shape_with(&["tenant", "id"], &[]));
    assert!(sql.ends_with("ORDER BY (`tenant`, `id`)"), "{sql}");
}

#[test]
fn render_create_table_order_by_ignored_when_column_absent_or_nullable() {
    let d = desc(
        "t",
        vec![att(1, "id", INT4OID, true, None), att(2, "body", TEXTOID, false, None)],
        Some(vec![1]),
    );
    for key in ["nope", "body"] {
        let sql = create(&d, "default", &shape_with(&[key], &[]));
        assert!(sql.ends_with("ORDER BY (`id`)"), "{key}: {sql}");
    }
}

#[test]
fn render_create_table_primary_key_prefix_renders_non_prefix_drops() {
    let d = desc(
        "t",
        vec![att(1, "id", INT4OID, true, None), att(2, "tenant", INT4OID, true, None)],
        Some(vec![1]),
    );
    let sql = create(&d, "default", &shape_with(&["tenant", "id"], &["tenant"]));
    assert!(sql.ends_with("ORDER BY (`tenant`, `id`)\nPRIMARY KEY (`tenant`)"), "{sql}");
    // `id` is not a prefix of (tenant, id): the server would reject it
    let sql = create(&d, "default", &shape_with(&["tenant", "id"], &["id"]));
    assert!(sql.ends_with("ORDER BY (`tenant`, `id`)"), "{sql}");
}

#[test]
fn render_create_table_from_mapping_takes_operator_order_by() {
    let d = desc("t", vec![att(1, "id", INT4OID, true, None)], Some(vec![1]));
    let m = TableMapping {
        target: TableTarget::new("db", "t"),
        columns: vec![column(1, "order_id", "Int32"), column(2, "tenant", "Int32")],
    };
    let sql = render_create_table_from_mapping(
        &d,
        &m,
        &shape_with(&["tenant", "order_id"], &["tenant"]),
    );
    assert!(
        sql.ends_with("ORDER BY (`tenant`, `order_id`)\nPRIMARY KEY (`tenant`)"),
        "{sql}"
    );
}

#[test]
fn drop_table_strategy_parses() {
    assert_eq!(DropTableStrategy::parse("retain").unwrap(), DropTableStrategy::Retain);
    assert_eq!(DropTableStrategy::parse("Drop").unwrap(), DropTableStrategy::Drop);
    assert_eq!(DropTableStrategy::parse("warn").unwrap(), DropTableStrategy::Warn);
    assert!(DropTableStrategy::parse("bogus").is_err());
}

/// An unknown type bridges to `String`, which keeps the statement renderable;
/// a column without any type would not.
#[test]
fn render_create_table_skips_when_type_unbridged() {
    let d = desc("t", vec![att(1, "id", 99999, true, None)], None);
    let sql = render_create_table(&d, &dest("db", &d), &shape(false), &bridge(&d));
    assert!(sql.is_some(), "fallback path keeps the CREATE renderable");
    assert!(render_create_table(&d, &dest("db", &d), &shape(false), &vec![None]).is_none());
    assert!(derive_columns_for_mapping(&d.attributes, &vec![None]).is_none());
}

#[test]
fn diff_renamed_then_added_then_dropped_in_correct_order() {
    // Renames go first, so that a diff matched by position is not taken for a
    // drop and an addition
    let diff = SchemaDiff {
        added_columns: vec![att(3, "c3", INT4OID, false, None)],
        dropped_columns: vec![2],
        renamed_columns: vec![(1, "old".into(), "new".into())],
        type_changes: vec![],
    };
    assert_eq!(diff.renamed_columns[0].0, 1);
    assert_eq!(diff.added_columns[0].attnum, 3);
    assert_eq!(diff.dropped_columns[0], 2);
    let before = desc(
        "orders",
        vec![att(1, "old", INT4OID, true, None), att(2, "gone", TEXTOID, false, None)],
        None,
    );
    let m = TableMapping {
        target: TableTarget::new("default", "orders"),
        columns: vec![column(1, "old", "Int32"), column(2, "gone", "Nullable(String)")],
    };
    let added: Vec<Bridged> = vec![Some((
        "c3".into(),
        ResolvedColumn { ch_type: "Nullable(Int32)".into(), default_sql: None },
    ))];
    let steps = apply_changed(Some(&m), &before, &diff, &added);
    assert_eq!(
        statements(&steps),
        vec![
            "ALTER TABLE `default`.`orders` RENAME COLUMN IF EXISTS `old` TO `new`",
            "ALTER TABLE `default`.`orders` ADD COLUMN IF NOT EXISTS `c3` Nullable(Int32)",
            "ALTER TABLE `default`.`orders` DROP COLUMN IF EXISTS `gone`",
        ]
    );
    assert!(matches!(steps.last(), Some(DdlStep::FoldDiff)));
    assert!(matches!(steps[0], DdlStep::CheckUnmoved));
}

#[test]
fn changed_relation_without_a_route_is_skipped_and_types_are_rejected() {
    let before = desc("orders", vec![], None);
    let diff = SchemaDiff {
        added_columns: vec![],
        dropped_columns: vec![9],
        renamed_columns: vec![(1, "a".into(), "pinned".into())],
        type_changes: vec![1, 2],
    };
    let steps = apply_changed(None, &before, &diff, &vec![]);
    assert!(matches!(steps.as_slice(), [DdlStep::Count(DdlCounter::Skipped, 1)]));
    // An operator's name makes the rename a no-op
    let m = TableMapping {
        target: TableTarget::new("default", "orders"),
        columns: vec![column(1, "pinned", "Int32")],
    };
    let steps = apply_changed(Some(&m), &before, &diff, &vec![]);
    assert!(statements(&steps).is_empty());
    assert!(steps.iter().any(|s| matches!(s, DdlStep::Count(DdlCounter::TypesRejected, 2))));
    assert!(steps.iter().any(|s| matches!(s, DdlStep::Count(DdlCounter::Skipped, 1))));
    // Nothing but a type change: the event counts as skipped
    let typed = SchemaDiff {
        added_columns: vec![],
        dropped_columns: vec![],
        renamed_columns: vec![],
        type_changes: vec![1],
    };
    assert!(matches!(
        apply_changed(Some(&m), &before, &typed, &vec![]).as_slice(),
        [
            DdlStep::Count(DdlCounter::TypesRejected, 1),
            DdlStep::Count(DdlCounter::Skipped, 1),
            DdlStep::FoldDiff,
        ]
    ));
}

fn orders_mapping() -> (RelName, RouteMap) {
    let map = RouteMap {
        entries: vec![(
            RelName::new("public", "orders"),
            TableMapping {
                target: TableTarget::new("default", "orders"),
                columns: vec![column(1, "id", "Int32")],
            },
        )],
    };
    (RelName::new("public", "orders"), map)
}

#[test]
fn mapping_target_returns_pinned_table() {
    let (rel, map) = orders_mapping();
    let target = map.get(&rel).map(|t| t.target.sql());
    assert_eq!(target.as_deref(), Some("`default`.`orders`"));
    assert!(map.get(&RelName::new("public", "other")).is_none());
}

#[test]
fn republish_mid_alter_fails_instead_of_panicking() {
    let (rel, map) = orders_mapping();
    assert_eq!(mapping_columns_at(true, &rel, &map).unwrap().len(), 1);
    let err = mapping_columns_at(false, &rel, &map)
        .expect_err("republish invalidates the resolved target");
    match err {
        EmitterError::Config(m) => {
            assert_eq!(m, "routing map for `public.orders` republished mid-ALTER")
        }
        other => panic!("{other:?}"),
    }
}

#[test]
fn prediction_ignores_a_republish_under_the_frozen_version() {
    let (rel, frozen) = orders_mapping();
    let live = RouteMap { entries: vec![] };
    let cfg = config(DropTableStrategy::Drop, vec![]);
    let dropped = EventFacts::Dropped(&rel);
    match predict_route_effect(&cfg, &frozen, &dropped, false) {
        Some((r, None)) => assert!(r.same(&rel), "frozen version still maps the rel"),
        other => panic!("{other:?}"),
    }
    assert!(
        predict_route_effect(&cfg, &live, &dropped, false).is_none(),
        "live handle moved on"
    );
    let keep = config(DropTableStrategy::Warn, vec![]);
    assert!(predict_route_effect(&keep, &frozen, &dropped, false).is_none());
}

#[test]
fn dropped_relation_follows_the_strategy() {
    let rel = RelName::new("public", "orders");
    let t = TableTarget::new("default", "orders");
    let cfg = config(DropTableStrategy::Drop, vec![]);
    let steps = apply_dropped(&cfg, &rel, Some(&t));
    assert_eq!(statements(&steps), vec!["DROP TABLE IF EXISTS `default`.`orders`"]);
    assert!(matches!(steps.last(), Some(DdlStep::Forget)));
    for s in [DropTableStrategy::Retain, DropTableStrategy::Warn] {
        let steps = apply_dropped(&config(s, vec![]), &rel, Some(&t));
        assert!(matches!(steps.as_slice(), [DdlStep::Count(DdlCounter::Skipped, 1)]));
    }
    assert!(statements(&apply_dropped(&cfg, &rel, None)).is_empty());
    assert_eq!(
        statements(&truncate(Some(&t), false)),
        vec!["TRUNCATE TABLE `default`.`orders`"]
    );
    assert!(truncate(None, false).is_empty());
    assert!(matches!(truncate(Some(&t), true).as_slice(), [DdlStep::TruncateSnowflake]));
}

#[test]
fn predicted_route_of_an_added_relation_is_the_one_registered() {
    let d = desc(
        "orders",
        vec![att(1, "id", INT4OID, true, None), att(2, "body", TEXTOID, false, None)],
        Some(vec![1]),
    );
    let settings = TableRule { replicate: Some(true), ..TableRule::default() };
    let (bridged, rules, types) = (bridge(&d), rules(2), snow_types(2));
    let facts = || RelationFacts {
        desc: &d,
        settings: &settings,
        bridged: &bridged,
        rules: &rules,
        types: &types,
    };
    let cfg = config(DropTableStrategy::Retain, vec![]);
    let steps = apply_added(&cfg, &facts(), None, false, None).unwrap();
    let registered = steps
        .iter()
        .find_map(|s| match s {
            DdlStep::Register(m) => Some(m),
            _ => None,
        })
        .expect("registered");
    let empty = RouteMap { entries: vec![] };
    let (rel, predicted) = predict_route_effect(&cfg, &empty, &EventFacts::Added(facts()), false)
        .expect("predicted");
    let predicted = predicted.expect("a route");
    assert!(rel.same(&d.rel_name));
    assert_eq!(predicted.target.sql(), registered.target.sql());
    assert_eq!(predicted.columns.len(), registered.columns.len());
    assert_eq!(predicted.columns[1].target_type, "Nullable(String)");
    // An excluded relation is neither predicted nor created
    assert!(predict_route_effect(&cfg, &empty, &EventFacts::Added(facts()), true).is_none());
    let steps = apply_added(&cfg, &facts(), None, true, None).unwrap();
    assert!(matches!(steps.as_slice(), [DdlStep::Count(DdlCounter::Skipped, 1)]));
}

#[test]
fn snowflake_routes_keep_names_and_targets() {
    let targets = SnowflakeTargets {
        schema_mapping: vec![("public".to_string(), "RAW".to_string())],
    };
    let d = desc(
        "orders",
        vec![att(1, "id", INT4OID, true, None), att(2, "body", TEXTOID, false, None)],
        Some(vec![1]),
    );
    assert_eq!(snowflake_target(&d, &targets).to_text(), "RAW.orders");
    let columns = snowflake_columns(&d, &rules(2), &snow_types(2)).unwrap();
    let good = TableMapping { target: TableTarget::new("RAW", "orders"), columns };
    assert!(validate_snowflake_route(&d, &good, &targets).is_ok());
    let mut elsewhere = good.copied();
    elsewhere.target = TableTarget::new("public", "orders");
    match validate_snowflake_route(&d, &elsewhere, &targets) {
        Err(EmitterError::Config(m)) => assert_eq!(
            m,
            "Snowflake route for public.orders targets public.orders instead of RAW.orders"
        ),
        other => panic!("{other:?}"),
    }
    let mut renamed = good.copied();
    renamed.columns[1].target_name = "payload".into();
    match validate_snowflake_route(&d, &renamed, &targets) {
        Err(EmitterError::Config(m)) => assert_eq!(
            m,
            "Snowflake column remapping is not supported for public.orders.body"
        ),
        other => panic!("{other:?}"),
    }
    let mut overridden = rules(2);
    overridden[0].target_type = Some("NUMBER".into());
    match snowflake_columns(&d, &overridden, &snow_types(2)) {
        Err(EmitterError::Config(m)) => assert_eq!(
            m,
            "Snowflake column remapping/type overrides are not supported for public.orders.id"
        ),
        other => panic!("{other:?}"),
    }
}

#[test]
fn snowflake_rename_moves_the_route_or_is_refused() {
    let targets = SnowflakeTargets { schema_mapping: vec![] };
    let old = desc("orders", vec![att(1, "id", INT4OID, true, None)], None);
    let new = desc("sales", vec![att(1, "id", INT4OID, true, None)], None);
    let settings = TableRule::default();
    let (bridged, rules, types) = (bridge(&new), rules(1), snow_types(1));
    let facts = || RelationFacts {
        desc: &new,
        settings: &settings,
        bridged: &bridged,
        rules: &rules,
        types: &types,
    };
    let diff = SchemaDiff {
        added_columns: vec![],
        dropped_columns: vec![],
        renamed_columns: vec![],
        type_changes: vec![],
    };
    let mapped = TableMapping {
        target: TableTarget::new("public", "orders"),
        columns: vec![column(1, "id", "TEXT")],
    };
    let routes = RouteMap {
        entries: vec![(RelName::new("public", "orders"), mapped.copied())],
    };
    let ev = || EventFacts::Changed { old: &old, new: facts(), diff: &diff, folded: &mapped };
    let cfg = config(DropTableStrategy::Retain, vec![]);
    let effects = predict_snowflake_effects(&cfg, &routes, &ev(), false, &targets).unwrap();
    assert_eq!(effects.len(), 2);
    assert!(effects[0].1.is_none(), "the old name goes");
    assert_eq!(effects[1].1.as_ref().unwrap().target.to_text(), "public.sales");
    let steps = apply_snowflake(&cfg, &routes, &ev(), false, &targets).unwrap();
    assert!(matches!(steps[0], DdlStep::ApplySnowflakeSchema));
    assert!(matches!(&steps[1], DdlStep::Rename(m) if m.target.to_text() == "public.sales"));
    let taken = RouteMap {
        entries: vec![
            (RelName::new("public", "orders"), mapped.copied()),
            (RelName::new("public", "sales"), mapped.copied()),
        ],
    };
    match predict_snowflake_effects(&cfg, &taken, &ev(), false, &targets) {
        Err(EmitterError::Config(m)) => {
            assert_eq!(m, "Snowflake rename target public.sales is already mapped")
        }
        other => panic!("{other:?}"),
    }
    let typed = SchemaDiff { type_changes: vec![1], ..diff };
    let ev = EventFacts::Changed { old: &old, new: facts(), diff: &typed, folded: &mapped };
    match apply_snowflake(&cfg, &routes, &ev, false, &targets) {
        Err(EmitterError::Config(m)) => assert_eq!(
            m,
            "Snowflake schema change for public.sales includes unsupported type changes"
        ),
        other => panic!("{other:?}"),
    }
}

#[test]
fn opted_in_table_is_created_whatever_its_namespace_does() {
    let d = desc("orders", vec![att(1, "id", INT4OID, true, None)], Some(vec![1]));
    let settings = TableRule {
        target_database: Some("warehouse".into()),
        ..TableRule::default()
    };
    let (bridged, rules, types) = (bridge(&d), rules(1), snow_types(1));
    let f = RelationFacts {
        desc: &d,
        settings: &settings,
        bridged: &bridged,
        rules: &rules,
        types: &types,
    };
    let cfg = config(DropTableStrategy::Retain, vec![]);
    let (steps, mapped) = ensure_ch_table(&cfg, &f, None, None).unwrap();
    assert!(mapped);
    assert!(matches!(&steps[0], DdlStep::EnsureDatabase(db) if db == "warehouse"));
    assert!(statements(&steps)[0].starts_with("CREATE TABLE IF NOT EXISTS `warehouse`.`orders`"));
    let unbridged: Vec<Bridged> = vec![None];
    let f = RelationFacts { bridged: &unbridged, ..f };
    let (steps, mapped) = ensure_ch_table(&cfg, &f, None, None).unwrap();
    assert!(!mapped);
    assert!(matches!(steps.as_slice(), [DdlStep::Count(DdlCounter::Skipped, 1)]));
    // On Snowflake the target cannot be overridden
    let targets = SnowflakeTargets { schema_mapping: vec![] };
    assert!(snowflake_opt_in_mapping(&f, None, None, None).unwrap().is_none());
    match snowflake_opt_in_mapping(&f, None, None, Some(&targets)) {
        Err(EmitterError::Config(m)) => {
            assert_eq!(m, "Snowflake database override for public.orders is unsupported")
        }
        other => panic!("{other:?}"),
    }
    let plain = TableRule::default();
    let f = RelationFacts { settings: &plain, ..f };
    match snowflake_opt_in_mapping(&f, Some("public"), Some("elsewhere"), Some(&targets)) {
        Err(EmitterError::Config(m)) => {
            assert_eq!(m, "Snowflake table override for public.orders is unsupported")
        }
        other => panic!("{other:?}"),
    }
    let m = snowflake_opt_in_mapping(&f, Some("public"), None, Some(&targets)).unwrap().unwrap();
    assert_eq!(m.target.to_text(), "public.orders");
    assert_eq!(m.columns.len(), 1);
}

#[test]
fn databases_are_created_once_and_at_boot_over_default() {
    let mut seen = EnsuredDatabases::new();
    assert_eq!(
        seen.ensure_database("a`b").as_deref(),
        Some("CREATE DATABASE IF NOT EXISTS `a``b`")
    );
    seen.ensured("a`b".to_string());
    seen.ensured("a`b".to_string());
    assert!(seen.ensure_database("a`b").is_none());
    assert!(seen.ensure_database("other").is_some());
    assert_eq!(create_database_sql("w"), "CREATE DATABASE IF NOT EXISTS `w`");
    assert!(matches!(ensure_boot_database(Ok(()), "w"), BootDatabase::Present));
    let absent = EmitterError::Client { server_code: UNKNOWN_DATABASE, message: "no".into() };
    match ensure_boot_database(Err(absent), "w") {
        BootDatabase::Create(sql) => assert_eq!(sql, "CREATE DATABASE IF NOT EXISTS `w`"),
        other => panic!("{other:?}"),
    }
    let refused = EmitterError::Client { server_code: 516, message: "auth".into() };
    assert!(matches!(ensure_boot_database(Err(refused), "w"), BootDatabase::Fail(_)));
    assert!(check_session(true).is_ok());
    match check_session(false) {
        Err(EmitterError::Config(m)) => assert_eq!(m, "ClickHouse DDL attempted in Snowflake mode"),
        other => panic!("{other:?}"),
    }
}

#[test]
fn republished_settings_change_live_and_redial_only_on_a_new_address() {
    let conn = |host: &str| ConnParams {
        host: host.into(),
        port: 9000,
        database: "default".into(),
        user: "default".into(),
        password: String::new(),
        secure: false,
    };
    let mut cfg = config(DropTableStrategy::Retain, vec![]);
    let mut held = conn("a");
    let ns = || {
        vec![(
            "s".to_string(),
            NamespaceMapping {
                target_database: None,
                auto_create: true,
                drop_table_strategy: None,
                initial_load: None,
            },
        )]
    };
    assert!(!refresh_config(&mut cfg, &mut held, DropTableStrategy::Drop, ns(), &conn("a")));
    assert_eq!(cfg.drop_table_strategy, DropTableStrategy::Drop);
    assert_eq!(cfg.auto_create_namespaces, vec!["s".to_string()]);
    assert_eq!(cfg.target_database, "default");
    assert!(refresh_config(&mut cfg, &mut held, DropTableStrategy::Drop, ns(), &conn("b")));
    assert_eq!(held.host, "b");
}

#[test]
fn ddl_counters_count_what_they_name() {
    let mut s = DdlStats::default();
    s.count(DdlCounter::Altered, 2);
    s.count(DdlCounter::Created, 1);
    s.count(DdlCounter::Dropped, 3);
    s.count(DdlCounter::Skipped, 4);
    s.count(DdlCounter::TypesRejected, 5);
    assert_eq!(
        s,
        DdlStats {
            alters_applied: 2,
            creates_applied: 1,
            drops_applied: 3,
            skipped: 4,
            type_changes_rejected: 5
        }
    );
    assert!(is_nullable("Nullable(Int8)"));
    assert!(!is_nullable("LowCardinality(Nullable(String))"));
}

#[test]
fn stored_defaults_are_rendered_where_they_can_be() {
    let pending = ColumnValue::PgPending { type_oid: 3802, raw: vec![1, 2] };
    assert_eq!(disk_default_request(&pending, true), Some(vec![1, 2]));
    assert_eq!(disk_default_request(&pending, false), None);
    assert_eq!(disk_default_request(&ColumnValue::Int4(7), true), None);
    let raw = || RelAttr {
        missing_default: Some(MissingDefault::Raw(vec![1, 2])),
        ..att(2, "labels", 3802, true, None)
    };
    let done = resolve_disk_default(raw(), Some(Ok("{}".into())));
    assert!(matches!(done.missing_default, Some(MissingDefault::Text(t)) if t == "{}"));
    let failed = resolve_disk_default(raw(), Some(Err("no worker".into())));
    assert!(matches!(failed.missing_default, Some(MissingDefault::Raw(_))));
}
