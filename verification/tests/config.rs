//! Documents, their layering and the configuration that they resolve to.
use walshadow::config::backup::{
    asks_metadata_service, parse_backup, split_bucket_prefix, BackupSection, CredentialSource,
    StorageSettings,
};
use walshadow::config::emitter::{
    BootFacts, ChPatch, ConfigDocument, EmitterConfig, MemoryPatch, NamespacePatch, PendingCapture,
    SourceSection, StreamPatch,
};
use walshadow::config::fragments::{fragment_order, load_merged, names_fragment};
use walshadow::config::settings::{
    default_inserter_pool, default_resident_payload_max, BootstrapMode, BootstrapSettings,
    InlineValueOverflow, ToastMode, ToastSettings, DEFAULT_DECODER_POOL, DEFAULT_INLINE_VALUE_MAX,
    DEFAULT_POOL_FLOOR, DEFAULT_VALUE_RESERVE, MIN_RESIDENT_PAYLOAD_MAX, RESIDENT_PAYLOAD_FRACTION,
};
use walshadow::config::tables::{resolve_tables, ColumnPatch, TableBlock, TablePatch};
use walshadow::config::tree::{merge_tables, Node, Table};
use walshadow::conn::CompressionChoice;
use walshadow::errors::EmitterError;
use walshadow::mapping::{
    DropTableStrategy, InitialLoadMode, MatchKind, SystemColumnNames, SystemColumns, TableTarget,
};
use walshadow::schema::RelName;

const MAX_BRIDGE_WORKERS: usize = 16;

fn facts() -> BootFacts {
    BootFacts {
        host_memory: Some(8 << 30),
        vcpus: Some(8),
        max_bridge_workers: MAX_BRIDGE_WORKERS,
        compression: CompressionChoice::Lz4,
        drop_table_strategy: DropTableStrategy::Retain,
        pending_capture: PendingCapture { max_boundaries_per_xact: 4, max_hold_per_xact: 1000 },
    }
}

fn empty() -> ConfigDocument {
    ConfigDocument {
        ch: ChPatch::default(),
        memory: MemoryPatch::default(),
        runtime_config_schema: None,
        stream: StreamPatch::default(),
        system_columns: SystemColumns::default(),
        system_fault: None,
        source: SourceSection { entries: vec![] },
        backup: None,
        imds_fault: None,
        bootstrap: BootstrapSettings::default(),
        toast: ToastSettings::default(),
        namespaces: vec![],
        tables: vec![],
    }
}

fn patch() -> TablePatch {
    TablePatch {
        replicate: None,
        target_database: None,
        target_table: None,
        initial_load: None,
        order_by: None,
        primary_key: None,
        system: SystemColumnNames::default(),
        system_fault: None,
        match_kind: None,
        columns: vec![],
    }
}

fn block(namespace: &str, name: &str, patch: TablePatch) -> TableBlock {
    TableBlock { namespace: namespace.into(), name: name.into(), patch }
}

fn col() -> ColumnPatch {
    ColumnPatch { attnum: None, name: None, target: None, target_type: None, match_kind: None }
}

fn pin(attnum: i16, target: &str, ty: &str) -> ColumnPatch {
    ColumnPatch {
        attnum: Some(attnum),
        target: Some(target.into()),
        target_type: Some(ty.into()),
        ..col()
    }
}

fn with_blocks(tables: Vec<TableBlock>) -> Result<EmitterConfig, EmitterError> {
    EmitterConfig::from_table(ConfigDocument { tables, ..empty() }, &facts())
}

fn fault(r: Result<EmitterConfig, EmitterError>) -> String {
    match r {
        Err(EmitterError::Config(m)) => m,
        other => panic!("{other:?}"),
    }
}

fn has_load(c: &EmitterConfig, rel: &RelName) -> Option<String> {
    c.table_initial_loads.iter().find(|(r, _)| r.same(rel)).map(|(_, s)| s.clone())
}

fn opted_in(c: &EmitterConfig, rel: &RelName) -> bool {
    c.table_opt_ins.iter().any(|(r, _)| r.same(rel))
}

#[test]
fn defaults_match_high_throughput_profile() {
    let c = EmitterConfig::from_table(empty(), &facts()).expect("parses").knobs;
    assert_eq!(c.row_budget, 4_194_304);
    assert_eq!(c.byte_budget, 256 << 20);
    assert_eq!(c.flush_timeout, 1000);
    assert_eq!(c.decoder_pool_size, DEFAULT_DECODER_POOL);
    assert_eq!(c.inserter_pool_size, default_inserter_pool(Some(8), MAX_BRIDGE_WORKERS));
    assert!(
        (DEFAULT_POOL_FLOOR..=MAX_BRIDGE_WORKERS).contains(&c.inserter_pool_size),
        "inserter pool must stay within the bridge pool it sizes",
    );
    assert_eq!(c.decoder_batch_size, 512);
    assert_eq!(c.decoder_queue_capacity, 131_072);
    assert!(c.replicate_all);
}

#[test]
fn inserter_pool_stays_between_floor_and_bridge() {
    assert_eq!(default_inserter_pool(None, 16), DEFAULT_POOL_FLOOR);
    assert_eq!(default_inserter_pool(Some(1), 16), DEFAULT_POOL_FLOOR);
    assert_eq!(default_inserter_pool(Some(1000), 16), 16);
}

#[test]
fn replicate_all_disabled_via_stream_flag() {
    let doc = ConfigDocument {
        stream: StreamPatch { replicate_all: Some(false), ..StreamPatch::default() },
        ..empty()
    };
    assert!(!EmitterConfig::from_table(doc, &facts()).expect("parses").knobs.replicate_all);
}

#[test]
fn config_parses_full_toml_round_trip() {
    let doc = ConfigDocument {
        ch: ChPatch {
            host: Some("ch.example.com".into()),
            port: Some(9000),
            database: Some("default".into()),
            user: Some("ingest".into()),
            password: Some("secret".into()),
            secure: Some(true),
            compression: Some(CompressionChoice::Lz4),
            row_budget: Some(1024),
            byte_budget: Some(4096),
            drain_batch_rows: Some(9),
            drain_batch_bytes: Some(10),
            plan_disk_max: Some(11),
            decoder_pool_size: Some(12),
            inserter_pool_size: Some(13),
            decoder_batch_size: Some(14),
            decoder_queue_capacity: Some(15),
            flush_timeout_ms: Some(16),
            retry_max_attempts: Some(17),
            retry_initial_backoff_ms: Some(18),
            retry_max_backoff_ms: Some(19),
            ..ChPatch::default()
        },
        toast: ToastSettings { mode: ToastMode::Clickhouse, ..ToastSettings::default() },
        runtime_config_schema: Some("ws".into()),
        stream: StreamPatch {
            paused: Some(true),
            replicate_all: Some(false),
            pending_max_boundaries_per_xact: Some(22),
            pending_max_hold_ms: Some(23),
        },
        tables: vec![block(
            "public",
            "foo",
            TablePatch {
                initial_load: Some(InitialLoadMode::Copy),
                columns: vec![pin(1, "id", "UInt64"), pin(2, "name", "Nullable(String)")],
                ..patch()
            },
        )],
        ..empty()
    };
    let c = EmitterConfig::from_table(doc, &facts()).expect("parses");
    assert_eq!(c.conn.host, "ch.example.com");
    assert_eq!(c.conn.port, 9000);
    assert_eq!(c.conn.database, "default");
    assert_eq!(c.conn.user, "ingest");
    assert_eq!(c.conn.password, "secret");
    assert!(c.conn.secure);
    assert_eq!(c.knobs.compression, CompressionChoice::Lz4);
    // Omitting `secure` defaults to plaintext
    assert!(!EmitterConfig::from_table(empty(), &facts()).unwrap().conn.secure);
    let k = &c.knobs;
    assert_eq!(k.row_budget, 1024);
    assert_eq!(k.byte_budget, 4096);
    assert_eq!((k.drain_batch_rows, k.drain_batch_bytes), (9, 10));
    assert_eq!(k.plan_disk_max, 11);
    assert_eq!((k.decoder_pool_size, k.inserter_pool_size), (12, 13));
    assert_eq!((k.decoder_batch_size, k.decoder_queue_capacity), (14, 15));
    assert_eq!(k.flush_timeout, 16);
    assert_eq!(k.retry.max_attempts, 17);
    assert_eq!(k.retry.initial_backoff, 18);
    assert_eq!(k.retry.max_backoff, 19);
    assert_eq!(c.runtime_config_schema.as_deref(), Some("ws"));
    assert!(k.paused);
    assert!(!k.replicate_all);
    assert_eq!(k.pending_capture.max_boundaries_per_xact, 22);
    assert_eq!(k.pending_capture.max_hold_per_xact, 23);
    let rel = RelName::new("public", "foo");
    let t = c.tables.get(&rel).expect("mapping present");
    // Target omitted: the connection's database and the source's name
    assert!(t.target.same(&TableTarget::new("default", "foo")));
    assert_eq!(t.columns.len(), 2);
    assert_eq!(t.columns[0].src_attnum, 1);
    assert_eq!(t.columns[1].target_type, "Nullable(String)");
    assert_eq!(has_load(&c, &rel).as_deref(), Some("copy"));
    // soft_delete defaults off when the key is absent
    assert!(!k.soft_delete);
    let blank = ConfigDocument { runtime_config_schema: Some(String::new()), ..empty() };
    let c = EmitterConfig::from_table(blank, &facts()).unwrap();
    assert!(c.runtime_config_schema.is_none());
}

#[test]
fn unset_keys_leave_the_defaults() {
    let c = EmitterConfig::from_table(empty(), &facts()).unwrap();
    let d = EmitterConfig::defaults(&facts());
    assert_eq!(c.knobs, d.knobs);
    assert!(c.conn.same(&d.conn));
    assert!(c.tables.entries.is_empty());
}

#[test]
fn config_memory_section_round_trip() {
    let doc = ConfigDocument {
        memory: MemoryPatch {
            resident_payload_max: Some(1_048_576),
            inline_value_max: Some(65_536),
            value_reserve: Some(4096),
            inline_value_overflow: Some(InlineValueOverflow::Error),
        },
        ..empty()
    };
    let c = EmitterConfig::from_table(doc, &facts()).unwrap().knobs;
    assert_eq!(c.resident_payload_max, 1 << 20);
    assert_eq!(c.inline_value_max, 64 << 10);
    assert_eq!(c.value_reserve, 4 << 10);
    assert_eq!(c.inline_value_overflow, InlineValueOverflow::Error);
    // Omitted section keeps defaults
    let d = EmitterConfig::from_table(empty(), &facts()).unwrap().knobs;
    assert_eq!(d.resident_payload_max, default_resident_payload_max(Some(8 << 30)));
    assert_eq!(d.inline_value_max, DEFAULT_INLINE_VALUE_MAX);
    assert_eq!(d.value_reserve, DEFAULT_VALUE_RESERVE);
    assert_eq!(d.inline_value_overflow, InlineValueOverflow::Null);
}

/// Keep the default pool large enough for the reserve.
#[test]
fn derived_pool_default_stays_bootable() {
    for memory in [None, Some(0), Some(1 << 20), Some(3 << 30), Some(64 << 30)] {
        let pool = default_resident_payload_max(memory);
        let expected = memory
            .map(|m: usize| m / RESIDENT_PAYLOAD_FRACTION)
            .unwrap_or(MIN_RESIDENT_PAYLOAD_MAX)
            .max(MIN_RESIDENT_PAYLOAD_MAX);
        assert_eq!(pool, expected);
        assert!(DEFAULT_DECODER_POOL * DEFAULT_VALUE_RESERVE <= pool / 2);
    }
}

#[test]
fn config_table_replicate_false_skips_mapping() {
    let c = with_blocks(vec![block(
        "public",
        "skip",
        TablePatch {
            replicate: Some(false),
            initial_load: Some(InitialLoadMode::Copy),
            ..patch()
        },
    )])
    .unwrap();
    let rel = RelName::new("public", "skip");
    assert!(!c.tables.contains_key(&rel));
    assert!(has_load(&c, &rel).is_none());
}

#[test]
fn config_table_pattern_entry_keys_on_pattern() {
    let c = with_blocks(vec![block(
        "public",
        "events_*",
        TablePatch {
            match_kind: Some(MatchKind::Glob),
            replicate: Some(true),
            initial_load: Some(InitialLoadMode::Copy),
            ..patch()
        },
    )])
    .unwrap();
    let (rel, kind, rule) = &c.table_entries[0];
    assert!(rel.same(&RelName::new("public", "events_*")));
    assert_eq!(*kind, MatchKind::Glob);
    assert_eq!(rule.replicate, Some(true));
    assert_eq!(rule.initial_load.as_deref(), Some("copy"));
    assert!(c.table_opt_ins.is_empty());
}

#[test]
fn config_table_literal_entry_lands_in_entries_and_opt_ins() {
    let c = with_blocks(vec![block(
        "public",
        "events",
        TablePatch {
            replicate: Some(true),
            target_table: Some("ev".into()),
            ..patch()
        },
    )])
    .unwrap();
    let (_, kind, rule) = &c.table_entries[0];
    assert_eq!(*kind, MatchKind::Exact);
    assert_eq!(rule.target_table.as_deref(), Some("ev"));
    assert!(opted_in(&c, &RelName::new("public", "events")));
}

/// The other half, a kind of match that has no name, is refused while the
/// document is read.
#[test]
fn config_table_rejects_bad_match_and_pattern_columns() {
    let m = fault(with_blocks(vec![block(
        "public",
        "t.*",
        TablePatch {
            match_kind: Some(MatchKind::Regex),
            columns: vec![pin(1, "id", "UInt64")],
            ..patch()
        },
    )]));
    assert!(m.contains("public") && m.contains("t.*"), "{m}");
}

#[test]
fn config_column_name_entries_state_rules_not_a_projection() {
    let c = with_blocks(vec![block(
        "app",
        "events",
        TablePatch {
            replicate: Some(true),
            columns: vec![
                ColumnPatch {
                    name: Some("legacy_id".into()),
                    target: Some("id".into()),
                    target_type: Some("UInt64".into()),
                    ..col()
                },
                ColumnPatch {
                    name: Some("*_at".into()),
                    match_kind: Some(MatchKind::Glob),
                    target_type: Some("DateTime64(6, 'UTC')".into()),
                    ..col()
                },
            ],
            ..patch()
        },
    )])
    .unwrap();
    let rel = RelName::new("app", "events");
    assert!(!c.tables.contains_key(&rel));
    assert!(opted_in(&c, &rel));
    assert_eq!(c.column_entries.len(), 2);
    let first = &c.column_entries[0];
    assert!(first.rel.same(&rel));
    assert_eq!(first.rel_kind, MatchKind::Exact);
    assert_eq!(first.attname, "legacy_id");
    assert_eq!(first.att_kind, MatchKind::Exact);
    assert_eq!(first.rule.target_name.as_deref(), Some("id"));
    assert_eq!(first.rule.target_type.as_deref(), Some("UInt64"));
    let second = &c.column_entries[1];
    assert_eq!(second.att_kind, MatchKind::Glob);
    assert!(second.rule.target_name.is_none());
}

#[test]
fn config_column_name_entries_ride_a_pattern_block() {
    let c = with_blocks(vec![block(
        "app",
        "*",
        TablePatch {
            match_kind: Some(MatchKind::Glob),
            replicate: Some(true),
            columns: vec![ColumnPatch {
                name: Some("*_at".into()),
                match_kind: Some(MatchKind::Glob),
                target_type: Some("DateTime64(6, 'UTC')".into()),
                ..col()
            }],
            ..patch()
        },
    )])
    .unwrap();
    let e = &c.column_entries[0];
    assert!(e.rel.same(&RelName::new("app", "*")));
    assert_eq!(e.rel_kind, MatchKind::Glob);
    assert!(c.table_opt_ins.is_empty(), "a pattern queues no opt-in");
}

#[test]
fn config_column_entry_shapes_are_exclusive() {
    let named = |name: &str| ColumnPatch { name: Some(name.into()), ..col() };
    let bad = vec![
        vec![ColumnPatch {
            attnum: Some(1),
            target_type: Some("UInt64".into()),
            ..named("id")
        }],
        vec![ColumnPatch {
            target: Some("id".into()),
            target_type: Some("UInt64".into()),
            ..col()
        }],
        vec![ColumnPatch { match_kind: Some(MatchKind::Glob), ..pin(1, "id", "UInt64") }],
        vec![ColumnPatch {
            match_kind: Some(MatchKind::Glob),
            target: Some("ts".into()),
            ..named("*_at")
        }],
        vec![named("id")],
        vec![
            pin(1, "id", "UInt64"),
            ColumnPatch { target_type: Some("DateTime".into()), ..named("ts") },
        ],
        vec![ColumnPatch { target: None, ..pin(1, "id", "UInt64") }],
        vec![ColumnPatch { target_type: None, ..pin(1, "id", "UInt64") }],
    ];
    for columns in bad {
        let shown = format!("{columns:?}");
        let r = with_blocks(vec![block("app", "events", TablePatch { columns, ..patch() })]);
        assert!(r.is_err(), "{shown}");
    }
}

#[test]
fn config_system_columns_reach_config() {
    let doc = ConfigDocument {
        system_columns: SystemColumns {
            lsn: "_peerdb_version".into(),
            is_deleted: None,
            ..SystemColumns::default()
        },
        ..empty()
    };
    let c = EmitterConfig::from_table(doc, &facts()).unwrap();
    assert_eq!(c.system_columns.lsn, "_peerdb_version");
    assert!(c.system_columns.is_deleted.is_none());
    assert!(!c.row_policy().soft_delete);
    assert_eq!(c.row_policy().system.lsn, "_peerdb_version");
    // Absent section keeps the defaults
    let d = EmitterConfig::from_table(empty(), &facts()).unwrap();
    assert_eq!(d.system_columns.lsn, "_lsn");
    assert_eq!(d.system_columns.xid, "_xid");
    assert_eq!(d.system_columns.commit_ts, "_commit_ts");
    assert_eq!(d.system_columns.is_deleted.as_deref(), Some("_is_deleted"));
}

#[test]
fn table_block_renames_system_columns_for_its_relations() {
    let doc = ConfigDocument {
        system_columns: SystemColumns { lsn: "_v".into(), ..SystemColumns::default() },
        tables: vec![
            block(
                "public",
                "events",
                TablePatch {
                    system: SystemColumnNames {
                        lsn: Some("_peerdb_version".into()),
                        is_deleted: Some(String::new()),
                        ..SystemColumnNames::default()
                    },
                    ..patch()
                },
            ),
            block(
                "app",
                "events_*",
                TablePatch {
                    match_kind: Some(MatchKind::Glob),
                    system: SystemColumnNames {
                        commit_ts: Some("_peerdb_synced_at".into()),
                        ..SystemColumnNames::default()
                    },
                    ..patch()
                },
            ),
        ],
        ..empty()
    };
    let c = EmitterConfig::from_table(doc, &facts()).unwrap();
    assert_eq!(c.system_columns.lsn, "_v", "cluster-wide default stands");
    let entry = |rel: RelName| {
        c.table_entries.iter().find(|(r, _, _)| r.same(&rel)).expect("entry")
    };
    let (_, kind, rule) = entry(RelName::new("public", "events"));
    assert_eq!(*kind, MatchKind::Exact);
    assert_eq!(rule.system.lsn.as_deref(), Some("_peerdb_version"));
    assert_eq!(rule.system.is_deleted.as_deref(), Some(""));
    let (_, kind, rule) = entry(RelName::new("app", "events_*"));
    assert_eq!(*kind, MatchKind::Glob);
    assert_eq!(rule.system.commit_ts.as_deref(), Some("_peerdb_synced_at"));
}

/// What the names' own validation found is reported as it stands.
#[test]
fn table_block_rejects_rename_onto_another_system_column() {
    let clash = "system columns `_xid` clash";
    let m = fault(with_blocks(vec![block(
        "public",
        "t",
        TablePatch { system_fault: Some(clash.into()), ..patch() },
    )]));
    assert_eq!(m, clash);
    let doc = ConfigDocument { system_fault: Some(clash.into()), ..empty() };
    assert_eq!(fault(EmitterConfig::from_table(doc, &facts())), clash);
}

/// A key list that is no array is refused while the document is read.
#[test]
fn config_table_key_lists_parse_from_arrays() {
    let c = with_blocks(vec![block(
        "public",
        "events",
        TablePatch {
            order_by: Some(vec!["tenant".into(), "id".into()]),
            primary_key: Some(vec!["tenant".into()]),
            ..patch()
        },
    )])
    .unwrap();
    let (_, _, rule) = &c.table_entries[0];
    assert_eq!(
        rule.order_by.as_deref(),
        Some(["tenant".to_string(), "id".to_string()].as_slice())
    );
    assert_eq!(rule.primary_key.as_deref(), Some(["tenant".to_string()].as_slice()));
    // Key lists also apply to an opt-in block without columns
    assert!(!c.tables.contains_key(&RelName::new("public", "events")));
}

#[test]
fn config_soft_delete_defaults_off_and_parses_on() {
    assert!(!EmitterConfig::defaults(&facts()).knobs.soft_delete);
    let doc = ConfigDocument {
        ch: ChPatch { soft_delete: Some(true), ..ChPatch::default() },
        ..empty()
    };
    let c = EmitterConfig::from_table(doc, &facts()).unwrap();
    assert!(c.knobs.soft_delete);
    assert!(c.row_policy().soft_delete);
}

fn namespace(c: &EmitterConfig, name: &str) -> (bool, Option<String>, Option<DropTableStrategy>) {
    let n = &c.namespaces.iter().find(|(k, _)| k == name).expect("namespace").1;
    (n.auto_create, n.target_database.clone(), n.drop_table_strategy)
}

#[test]
fn namespace_toml_parses_auto_create() {
    let ns = |auto_create: Option<bool>, db: Option<&str>| NamespacePatch {
        target_database: db.map(str::to_string),
        auto_create,
        drop_table_strategy: None,
        initial_load: None,
    };
    let doc = ConfigDocument {
        namespaces: vec![
            ("s1".into(), ns(Some(true), None)),
            ("s2".into(), ns(Some(false), None)),
            ("s3".into(), ns(None, Some("warehouse"))),
        ],
        ..empty()
    };
    let c = EmitterConfig::from_table(doc, &facts()).unwrap();
    assert!(namespace(&c, "s1").0, "explicit true");
    assert!(!namespace(&c, "s2").0, "explicit false");
    assert!(!namespace(&c, "s3").0, "absent defaults off");
    assert_eq!(namespace(&c, "s3").1.as_deref(), Some("warehouse"));
}

/// Schema `a.b` table `c` and schema `a` table `b.c` are distinct relations
/// with distinct targets.
#[test]
fn config_table_dotted_names_do_not_collide() {
    let pinned = || TablePatch { columns: vec![pin(1, "id", "UInt64")], ..patch() };
    let doc = ConfigDocument {
        ch: ChPatch { database: Some("default".into()), ..ChPatch::default() },
        tables: vec![block("a.b", "c", pinned()), block("a", "b.c", pinned())],
        ..empty()
    };
    let c = EmitterConfig::from_table(doc, &facts()).unwrap();
    let dotted_ns = c.tables.get(&RelName::new("a.b", "c")).expect("a.b / c");
    let dotted_rel = c.tables.get(&RelName::new("a", "b.c")).expect("a / b.c");
    assert!(dotted_ns.target.same(&TableTarget::new("default", "c")));
    assert!(dotted_rel.target.same(&TableTarget::new("default", "b.c")));
    // Interpolation quotes the dot inside the identifier
    assert_eq!(dotted_rel.target.sql(), "`default`.`b.c`");
}

#[test]
fn pinned_tables_land_in_their_namespace_database() {
    let pinned = || TablePatch { columns: vec![pin(1, "id", "UInt64")], ..patch() };
    let doc = ConfigDocument {
        namespaces: vec![(
            "sales".into(),
            NamespacePatch {
                target_database: Some("warehouse".into()),
                auto_create: None,
                drop_table_strategy: None,
                initial_load: None,
            },
        )],
        tables: vec![
            block("sales", "orders", pinned()),
            block(
                "sales",
                "lines",
                TablePatch { target_database: Some("own".into()), ..pinned() },
            ),
        ],
        ..empty()
    };
    let c = EmitterConfig::from_table(doc, &facts()).unwrap();
    let sql = |n: &str| c.tables.get(&RelName::new("sales", n)).unwrap().target.sql();
    assert_eq!(sql("orders"), "`warehouse`.`orders`");
    assert_eq!(sql("lines"), "`own`.`lines`");
    assert!(resolve_tables(vec![], &vec![], "default").unwrap().tables.is_empty());
}

fn leaf(key: &str, v: &str) -> (String, Node<String>) {
    (key.into(), Node::Leaf(v.into()))
}

fn table(key: &str, entries: Vec<(String, Node<String>)>) -> (String, Node<String>) {
    (key.into(), Node::Table(Table { entries }))
}

fn at<'a>(t: &'a Table<String>, path: &[&str]) -> Option<&'a str> {
    let (head, rest) = path.split_first()?;
    match &t.entries.iter().find(|(k, _)| k == head)?.1 {
        Node::Leaf(v) => rest.is_empty().then_some(v.as_str()),
        Node::Table(t) => at(t, rest),
    }
}

#[test]
fn merge_tables_deep_and_overwrite() {
    let mut base = Table {
        entries: vec![
            table("ch", vec![leaf("host", "base"), leaf("port", "9000")]),
            table("table", vec![table("public.users", vec![leaf("target", "demo.users")])]),
        ],
    };
    let over = Table { entries: vec![table("ch", vec![leaf("host", "frag")])] };
    merge_tables(&mut base, over);
    // The fragment overrides the host and keeps the rest of the base
    assert_eq!(at(&base, &["ch", "host"]), Some("frag"));
    assert_eq!(at(&base, &["ch", "port"]), Some("9000"));
    assert_eq!(at(&base, &["table", "public.users", "target"]), Some("demo.users"));
    // A value in place of a table takes the whole place, and the reverse
    merge_tables(&mut base, Table { entries: vec![leaf("ch", "gone")] });
    assert_eq!(at(&base, &["ch"]), Some("gone"));
    assert_eq!(at(&base, &["ch", "host"]), None);
    merge_tables(&mut base, Table { entries: vec![table("ch", vec![leaf("user", "u")])] });
    assert_eq!(at(&base, &["ch", "user"]), Some("u"));
    assert_eq!(at(&base, &["ch", "host"]), None);
}

fn backup(archive: Option<&str>) -> BackupSection {
    BackupSection {
        archive: archive.map(str::to_string),
        region: None,
        endpoint: None,
        force_path_style: false,
        access_key: None,
        secret_key: None,
        session_token: None,
        credentials_path: None,
    }
}

fn storage(bk: BackupSection) -> Option<StorageSettings> {
    let doc = ConfigDocument { backup: Some(bk), ..empty() };
    EmitterConfig::from_table(doc, &facts()).unwrap().backup
}

#[test]
fn config_backup_absent_is_none() {
    assert!(EmitterConfig::defaults(&facts()).backup.is_none());
    assert!(EmitterConfig::from_table(empty(), &facts()).unwrap().backup.is_none());
}

#[test]
fn config_backup_s3_static_creds() {
    let bk = BackupSection {
        region: Some("eu-west-1".into()),
        endpoint: Some("https://minio.internal".into()),
        force_path_style: true,
        access_key: Some("AK".into()),
        secret_key: Some("SK".into()),
        ..backup(Some("s3://my-bucket/walshadow/prefix"))
    };
    match storage(bk).expect("backup set") {
        StorageSettings::S3 { bucket, prefix, region, creds, endpoint, force_path_style } => {
            assert_eq!(bucket, "my-bucket");
            assert_eq!(prefix, "walshadow/prefix");
            assert_eq!(region, "eu-west-1");
            assert_eq!(endpoint.as_deref(), Some("https://minio.internal"));
            assert!(force_path_style);
            match creds {
                CredentialSource::Static { access_key, secret_key, .. } => {
                    assert_eq!(access_key, "AK");
                    assert_eq!(secret_key, "SK");
                }
                other => panic!("expected static creds, got {other:?}"),
            }
        }
        other => panic!("expected S3, got {other:?}"),
    }
}

#[test]
fn config_backup_s3_defaults_region_and_imds() {
    match storage(backup(Some("s3://b"))).unwrap() {
        StorageSettings::S3 { bucket, prefix, region, creds, .. } => {
            assert_eq!(bucket, "b");
            assert_eq!(prefix, "");
            assert_eq!(region, "us-east-1");
            assert!(matches!(creds, CredentialSource::Imds));
        }
        other => panic!("expected S3, got {other:?}"),
    }
}

#[test]
fn config_backup_gcs_and_file() {
    let bk = BackupSection {
        credentials_path: Some("/sa.json".into()),
        ..backup(Some("gs://gb/pre"))
    };
    match storage(bk).unwrap() {
        StorageSettings::Gcs { bucket, prefix, credentials_path, .. } => {
            assert_eq!(bucket, "gb");
            assert_eq!(prefix, "pre");
            assert_eq!(credentials_path.as_deref(), Some("/sa.json"));
        }
        other => panic!("expected GCS, got {other:?}"),
    }
    assert!(matches!(
        storage(backup(Some("file:///var/wal"))).unwrap(),
        StorageSettings::Fs { path } if path == "/var/wal"
    ));
}

#[test]
fn config_backup_rejects_bad_input() {
    let rejects = |bk: BackupSection| {
        fault(EmitterConfig::from_table(ConfigDocument { backup: Some(bk), ..empty() }, &facts()))
    };
    rejects(BackupSection { region: Some("x".into()), ..backup(None) });
    let m = rejects(backup(Some("http://b\n")));
    // The address is quoted with its special characters escaped
    assert!(m.starts_with("[backup] ") && m.contains(r#""http://b\n""#), "{m}");
    rejects(BackupSection { access_key: Some("AK".into()), ..backup(Some("s3://b")) });
    match parse_backup(&backup(Some("s3://b")), &Some("no metadata".into())) {
        Err(EmitterError::Config(m)) => assert!(m.contains("no metadata"), "{m}"),
        other => panic!("{other:?}"),
    }
}

#[test]
fn bucket_and_prefix_part_at_the_first_slash() {
    let split = |s: &str| split_bucket_prefix(s);
    assert_eq!(split("b/x/y/"), ("b".into(), "x/y".into()));
    assert_eq!(split("b"), ("b".into(), String::new()));
}

#[test]
fn config_copy_fallback_defaults_on_and_can_be_disabled() {
    for (set, expected) in [(None, true), (Some(true), true), (Some(false), false)] {
        let doc = ConfigDocument {
            bootstrap: BootstrapSettings { copy_fallback: set, ..BootstrapSettings::default() },
            ..empty()
        };
        let config = EmitterConfig::from_table(doc, &facts()).unwrap();
        assert_eq!(config.bootstrap.copy_fallback.unwrap_or(true), expected);
    }
}

/// A chunk size that is not set leaves the choice to the load.
#[test]
fn config_copy_chunk_blocks_defaults_to_a_segment() {
    const COPY_CHUNK_BLOCKS: u32 = 131_072;
    for (set, expected) in [(None, COPY_CHUNK_BLOCKS), (Some(8192), 8192)] {
        let doc = ConfigDocument {
            bootstrap: BootstrapSettings { copy_chunk_blocks: set, ..BootstrapSettings::default() },
            ..empty()
        };
        let config = EmitterConfig::from_table(doc, &facts()).unwrap();
        assert_eq!(config.bootstrap.copy_chunk_blocks.unwrap_or(COPY_CHUNK_BLOCKS), expected);
    }
}

/// The values that are words of their own; those of other sections are
/// refused while the document is read.
#[test]
fn config_rejects_unknown_semantic_values() {
    CompressionChoice::parse("snappy").expect_err("compression");
    DropTableStrategy::parse("dorp").expect_err("strategy");
    BootstrapMode::parse("objectstore").expect_err("mode");
    assert_eq!(BootstrapMode::parse("object-store").ok(), Some(BootstrapMode::ObjectStore));
    let doc = ConfigDocument {
        ch: ChPatch {
            drop_table_strategy: DropTableStrategy::parse("DROP").ok(),
            ..ChPatch::default()
        },
        namespaces: vec![(
            "sales".into(),
            NamespacePatch {
                target_database: None,
                auto_create: None,
                drop_table_strategy: DropTableStrategy::parse("warn").ok(),
                initial_load: None,
            },
        )],
        ..empty()
    };
    let c = EmitterConfig::from_table(doc, &facts()).expect("parses");
    assert_eq!(
        (c.knobs.drop_table_strategy, namespace(&c, "sales").2),
        (DropTableStrategy::Drop, Some(DropTableStrategy::Warn))
    );
}

#[test]
fn load_merged_base_plus_confd_lexical() {
    let mut merged = Table {
        entries: vec![table("ch", vec![leaf("host", "base"), leaf("port", "9000")])],
    };
    let files: Vec<String> =
        ["50-api.toml", "README", "10-x.toml"].iter().map(|s| s.to_string()).collect();
    let order = fragment_order(files);
    assert_eq!(order, ["10-x.toml", "50-api.toml"]);
    let fragment = |name: &String| Table {
        entries: vec![match name.as_str() {
            "10-x.toml" => table("ch", vec![leaf("host", "ten")]),
            _ => table("ch", vec![leaf("host", "fifty"), leaf("database", "demo")]),
        }],
    };
    load_merged(&mut merged, order.iter().map(fragment).collect());
    // The later fragment wins; the base's port and the fragment's database stay
    assert_eq!(at(&merged, &["ch", "host"]), Some("fifty"));
    assert_eq!(at(&merged, &["ch", "port"]), Some("9000"));
    assert_eq!(at(&merged, &["ch", "database"]), Some("demo"));
}

#[test]
fn load_merged_absent_base_ok() {
    let mut merged = Table::<String> { entries: vec![] };
    load_merged(&mut merged, vec![]);
    assert!(merged.entries.is_empty());
}

#[test]
fn only_toml_files_are_fragments() {
    for name in ["a.toml", "10-x.y.toml", "..toml"] {
        assert!(names_fragment(name), "{name}");
    }
    for name in ["toml", ".toml", "a.tomlx", "a.toml.bak", "a_toml", ""] {
        assert!(!names_fragment(name), "{name}");
    }
    let order = |names: &[&str]| fragment_order(names.iter().map(|s| s.to_string()).collect());
    assert_eq!(order(&["b.toml", "B.toml", "a.toml", "aa.toml"]), [
        "B.toml", "a.toml", "aa.toml", "b.toml"
    ]);
}

#[test]
fn only_the_shadow_keeps_its_own_toast() {
    assert!(ToastMode::Shadow.is_shadow());
    assert!(!ToastMode::Clickhouse.is_shadow());
    assert!(!ToastSettings::default().mode.is_shadow());
}

#[test]
fn source_section_is_kept_as_it_is() {
    let c = EmitterConfig::from_table(empty(), &facts()).unwrap();
    assert!(c.source.entries.is_empty());
    let entries = vec![
        ("host".to_string(), "db.internal".to_string()),
        ("slot".to_string(), "shadow".to_string()),
    ];
    let doc = ConfigDocument { source: SourceSection { entries: entries.clone() }, ..empty() };
    assert_eq!(EmitterConfig::from_table(doc, &facts()).unwrap().source.entries, entries);
}

/// Only an S3 archive without keys leaves its credentials to the metadata
/// service; elsewhere a service that cannot be reached is no fault.
#[test]
fn metadata_service_is_asked_for_s3_without_keys() {
    let keyed = BackupSection {
        region: Some("eu-west-1".into()),
        access_key: Some("AK".into()),
        secret_key: Some("SK".into()),
        ..backup(Some("s3://b/p"))
    };
    assert!(asks_metadata_service(&backup(Some("s3://b/p"))));
    for bk in [keyed, backup(Some("gs://b/p")), backup(Some("file:///var/wal")), backup(None)] {
        assert!(!asks_metadata_service(&bk));
        let with = |fault: Option<&str>| {
            let doc = ConfigDocument {
                backup: Some(BackupSection { archive: bk.archive.clone(), region: bk.region.clone(),
                    endpoint: None, force_path_style: false, access_key: bk.access_key.clone(),
                    secret_key: bk.secret_key.clone(), session_token: None, credentials_path: None }),
                imds_fault: fault.map(str::to_string),
                ..empty()
            };
            format!("{:?}", EmitterConfig::from_table(doc, &facts()).map(|c| c.backup))
        };
        assert_eq!(with(None), with(Some("unreachable")));
    }
}
