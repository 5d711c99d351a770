//! The emitter's configuration: defaults, overlaid by what a document sets.
use vstd::prelude::*;
use vstd::string::*;

use crate::config::backup::{parse_backup, storage_of, BackupSection, StorageSettings};
use crate::config::settings::{
    default_inserter_pool, default_resident_payload_max, inserters_default, resident_default,
    BootstrapSettings, InlineValueOverflow, ToastMode, ToastSettings, DEFAULT_BYTE_BUDGET,
    DEFAULT_DECODER_POOL, DEFAULT_DECODE_CHUNK_ROWS, DEFAULT_DRAIN_BATCH_BYTES,
    DEFAULT_DRAIN_BATCH_ROWS, DEFAULT_FLUSH_TIMEOUT_MS, DEFAULT_IDLE_RECONNECT_SECS,
    DEFAULT_INLINE_VALUE_MAX, DEFAULT_INSERT_TIMEOUT_SECS, DEFAULT_PLAN_DISK_MAX,
    DEFAULT_POOL_FLOOR, DEFAULT_QUEUEING_BATCH_SIZE, DEFAULT_QUEUEING_RECORD_SINK_CAPACITY,
    DEFAULT_ROW_BUDGET, DEFAULT_VALUE_RESERVE,
};
use crate::config::tables::{
    blocks_distinct, entry_views, keys_distinct, load_views, relations_are_configured_once,
    resolve_tables, row_views, rule_views, section_of, table_views, ColumnEntry, SectionView,
    TableBlock, TableRow,
};
use crate::conn::{CompressionChoice, ConnParams, ConnView};
use crate::errors::{EmitterError, ErrorView};
use crate::mapping::{
    default_system, opt_view, or_else, DropTableStrategy, InitialLoadMode, MatchKind,
    NamespaceMapping, RouteMap, SystemColumns, TableRule,
};
use crate::retry::RetryConfig;
use crate::schema::RelName;

verus! {

/// Cost controls of pending catalog capture.
#[derive(Debug, Clone, Copy, PartialEq, Eq, Structural)]
pub struct PendingCapture {
    pub max_boundaries_per_xact: u32,
    /// In milliseconds.
    pub max_hold_per_xact: u64,
}

/// What the defaults depend on besides constants.
#[derive(Debug, Clone, Copy)]
pub struct BootFacts {
    /// Memory that the host offers, where it is known.
    pub host_memory: Option<usize>,
    /// Processors, where their number is known.
    pub vcpus: Option<usize>,
    pub max_bridge_workers: usize,
    /// Compression that the build prefers.
    pub compression: CompressionChoice,
    /// Drop strategy of the command line.
    pub drop_table_strategy: DropTableStrategy,
    pub pending_capture: PendingCapture,
}

/// Numbers and switches of the emitter.
#[derive(Debug, Clone, Copy, PartialEq, Eq, Structural)]
pub struct Knobs {
    pub compression: CompressionChoice,
    pub row_budget: usize,
    pub byte_budget: usize,
    /// In milliseconds. A partial batch is sealed that long after its first
    /// row; zero takes the pipeline's own deadline.
    pub flush_timeout: u64,
    /// Whether the stream is idle.
    pub paused: bool,
    /// Replicate every table outside the system namespaces.
    pub replicate_all: bool,
    pub pending_capture: PendingCapture,
    pub drop_table_strategy: DropTableStrategy,
    pub retry: RetryConfig,
    /// In milliseconds, for one attempt of an insert.
    pub insert_timeout: u64,
    /// In milliseconds. A connection that was idle for longer is dialled anew.
    pub idle_reconnect: u64,
    /// Keep deletes queryable.
    pub soft_delete: bool,
    pub decode_chunk_rows: usize,
    pub drain_batch_rows: usize,
    pub drain_batch_bytes: usize,
    pub plan_disk_max: u64,
    pub resident_payload_max: usize,
    pub inline_value_max: usize,
    pub value_reserve: usize,
    pub inline_value_overflow: InlineValueOverflow,
    pub decoder_pool_size: usize,
    pub inserter_pool_size: usize,
    pub decoder_batch_size: usize,
    pub decoder_queue_capacity: usize,
}

/// How the source database is reached: the document's keys and the texts of
/// their values, in order. The source stream reads them.
#[derive(Debug)]
pub struct SourceSection {
    pub entries: Vec<(String, String)>,
}

/// The configuration in force.
#[derive(Debug)]
pub struct EmitterConfig {
    pub conn: ConnParams,
    pub knobs: Knobs,
    pub tables: RouteMap,
    pub table_initial_loads: Vec<(RelName, String)>,
    pub table_entries: Vec<(RelName, MatchKind, TableRule)>,
    pub column_entries: Vec<ColumnEntry>,
    pub table_opt_ins: Vec<(RelName, TableRow)>,
    pub namespaces: Vec<(String, NamespaceMapping)>,
    pub system_columns: SystemColumns,
    /// Schema of the configuration tables; without one there are none.
    pub runtime_config_schema: Option<String>,
    pub source: SourceSection,
    pub backup: Option<StorageSettings>,
    pub bootstrap: BootstrapSettings,
    pub toast: ToastSettings,
}

/// The shape of rows that is frozen into every route at boot.
#[derive(Debug)]
pub struct RowPolicy {
    pub soft_delete: bool,
    pub system: SystemColumns,
}

/// What a document sets of the destination.
#[derive(Debug)]
pub struct ChPatch {
    pub host: Option<String>,
    pub port: Option<u16>,
    pub database: Option<String>,
    pub user: Option<String>,
    pub password: Option<String>,
    pub secure: Option<bool>,
    pub compression: Option<CompressionChoice>,
    pub row_budget: Option<usize>,
    pub byte_budget: Option<usize>,
    pub drain_batch_rows: Option<usize>,
    pub drain_batch_bytes: Option<usize>,
    pub plan_disk_max: Option<u64>,
    pub decoder_pool_size: Option<usize>,
    pub inserter_pool_size: Option<usize>,
    pub decoder_batch_size: Option<usize>,
    pub decoder_queue_capacity: Option<usize>,
    pub flush_timeout_ms: Option<u64>,
    pub retry_max_attempts: Option<u32>,
    pub retry_initial_backoff_ms: Option<u64>,
    pub retry_max_backoff_ms: Option<u64>,
    pub drop_table_strategy: Option<DropTableStrategy>,
    pub soft_delete: Option<bool>,
}

#[derive(Debug, Clone, Copy)]
pub struct MemoryPatch {
    pub resident_payload_max: Option<usize>,
    pub inline_value_max: Option<usize>,
    pub value_reserve: Option<usize>,
    pub inline_value_overflow: Option<InlineValueOverflow>,
}

#[derive(Debug, Clone, Copy)]
pub struct StreamPatch {
    pub paused: Option<bool>,
    pub replicate_all: Option<bool>,
    pub pending_max_boundaries_per_xact: Option<u32>,
    pub pending_max_hold_ms: Option<u64>,
}

#[derive(Debug)]
pub struct NamespacePatch {
    pub target_database: Option<String>,
    pub auto_create: Option<bool>,
    pub drop_table_strategy: Option<DropTableStrategy>,
    pub initial_load: Option<InitialLoadMode>,
}

/// A parsed document. Namespaces and tables stand in the order of their
/// names.
#[derive(Debug)]
pub struct ConfigDocument {
    pub ch: ChPatch,
    pub memory: MemoryPatch,
    /// An empty name is none.
    pub runtime_config_schema: Option<String>,
    pub stream: StreamPatch,
    pub system_columns: SystemColumns,
    /// What is wrong with the names of `system_columns`, if anything is.
    pub system_fault: Option<String>,
    pub source: SourceSection,
    pub backup: Option<BackupSection>,
    /// What kept the metadata service of the archive's host from being set
    /// up, if anything did.
    pub imds_fault: Option<String>,
    pub bootstrap: BootstrapSettings,
    pub toast: ToastSettings,
    pub namespaces: Vec<(String, NamespacePatch)>,
    pub tables: Vec<TableBlock>,
}

impl ConfigDocument {
    /// Every name stands once, and no number of the settings is zero.
    pub open spec fn wf(&self) -> bool {
        &&& blocks_distinct(self.tables@)
        &&& forall|i: int, j: int|
            0 <= i < j < self.namespaces@.len() ==> (#[trigger] self.namespaces@[i]).0@ != (
            #[trigger] self.namespaces@[j]).0@
        &&& self.bootstrap.valid()
        &&& self.toast.valid()
    }
}

/// A `[ch]` section that sets nothing.
pub open spec fn unset_ch() -> ChPatch {
    ChPatch {
        host: None,
        port: None,
        database: None,
        user: None,
        password: None,
        secure: None,
        compression: None,
        row_budget: None,
        byte_budget: None,
        drain_batch_rows: None,
        drain_batch_bytes: None,
        plan_disk_max: None,
        decoder_pool_size: None,
        inserter_pool_size: None,
        decoder_batch_size: None,
        decoder_queue_capacity: None,
        flush_timeout_ms: None,
        retry_max_attempts: None,
        retry_initial_backoff_ms: None,
        retry_max_backoff_ms: None,
        drop_table_strategy: None,
        soft_delete: None,
    }
}

impl Default for ChPatch {
    fn default() -> (r: Self)
        ensures
            r == unset_ch(),
    {
        ChPatch {
            host: None,
            port: None,
            database: None,
            user: None,
            password: None,
            secure: None,
            compression: None,
            row_budget: None,
            byte_budget: None,
            drain_batch_rows: None,
            drain_batch_bytes: None,
            plan_disk_max: None,
            decoder_pool_size: None,
            inserter_pool_size: None,
            decoder_batch_size: None,
            decoder_queue_capacity: None,
            flush_timeout_ms: None,
            retry_max_attempts: None,
            retry_initial_backoff_ms: None,
            retry_max_backoff_ms: None,
            drop_table_strategy: None,
            soft_delete: None,
        }
    }
}

/// A `[memory]` section that sets nothing.
pub open spec fn unset_memory() -> MemoryPatch {
    MemoryPatch {
        resident_payload_max: None,
        inline_value_max: None,
        value_reserve: None,
        inline_value_overflow: None,
    }
}

impl Default for MemoryPatch {
    fn default() -> (r: Self)
        ensures
            r == unset_memory(),
    {
        MemoryPatch {
            resident_payload_max: None,
            inline_value_max: None,
            value_reserve: None,
            inline_value_overflow: None,
        }
    }
}

/// A `[stream]` section that sets nothing.
pub open spec fn unset_stream() -> StreamPatch {
    StreamPatch {
        paused: None,
        replicate_all: None,
        pending_max_boundaries_per_xact: None,
        pending_max_hold_ms: None,
    }
}

impl Default for StreamPatch {
    fn default() -> (r: Self)
        ensures
            r == unset_stream(),
    {
        StreamPatch {
            paused: None,
            replicate_all: None,
            pending_max_boundaries_per_xact: None,
            pending_max_hold_ms: None,
        }
    }
}

/// What is set, else `base`.
pub open spec fn or_base<T>(o: Option<T>, base: T) -> T {
    match o {
        Some(x) => x,
        None => base,
    }
}

fn or_value<T: Copy>(o: Option<T>, base: T) -> (r: T)
    ensures
        r == or_base(o, base),
{
    match o {
        Some(x) => x,
        None => base,
    }
}

fn or_string(o: Option<String>, base: String) -> (r: String)
    ensures
        r@ == or_else(opt_view(o), base@),
{
    match o {
        Some(x) => x,
        None => base,
    }
}

pub open spec fn default_conn() -> ConnView {
    ConnView {
        host: "localhost"@,
        port: 9000,
        database: "default"@,
        user: "default"@,
        password: Seq::empty(),
        secure: false,
    }
}

pub open spec fn default_knobs(facts: BootFacts) -> Knobs {
    Knobs {
        compression: facts.compression,
        row_budget: DEFAULT_ROW_BUDGET,
        byte_budget: DEFAULT_BYTE_BUDGET,
        flush_timeout: DEFAULT_FLUSH_TIMEOUT_MS,
        paused: false,
        replicate_all: true,
        pending_capture: facts.pending_capture,
        drop_table_strategy: facts.drop_table_strategy,
        retry: RetryConfig { max_attempts: 5, initial_backoff: 250, max_backoff: 10_000 },
        insert_timeout: (DEFAULT_INSERT_TIMEOUT_SECS * 1000) as u64,
        idle_reconnect: (DEFAULT_IDLE_RECONNECT_SECS * 1000) as u64,
        soft_delete: false,
        decode_chunk_rows: DEFAULT_DECODE_CHUNK_ROWS,
        drain_batch_rows: DEFAULT_DRAIN_BATCH_ROWS,
        drain_batch_bytes: DEFAULT_DRAIN_BATCH_BYTES,
        plan_disk_max: DEFAULT_PLAN_DISK_MAX,
        resident_payload_max: resident_default(facts.host_memory),
        inline_value_max: DEFAULT_INLINE_VALUE_MAX,
        value_reserve: DEFAULT_VALUE_RESERVE,
        inline_value_overflow: InlineValueOverflow::Null,
        decoder_pool_size: DEFAULT_DECODER_POOL,
        inserter_pool_size: inserters_default(facts.vcpus, facts.max_bridge_workers),
        decoder_batch_size: DEFAULT_QUEUEING_BATCH_SIZE,
        decoder_queue_capacity: DEFAULT_QUEUEING_RECORD_SINK_CAPACITY,
    }
}

impl Knobs {
    pub fn defaults(facts: &BootFacts) -> (r: Knobs)
        requires
            facts.max_bridge_workers >= DEFAULT_POOL_FLOOR,
        ensures
            r == default_knobs(*facts),
    {
        Knobs {
            compression: facts.compression,
            row_budget: DEFAULT_ROW_BUDGET,
            byte_budget: DEFAULT_BYTE_BUDGET,
            flush_timeout: DEFAULT_FLUSH_TIMEOUT_MS,
            paused: false,
            replicate_all: true,
            pending_capture: facts.pending_capture,
            drop_table_strategy: facts.drop_table_strategy,
            retry: RetryConfig::default(),
            insert_timeout: DEFAULT_INSERT_TIMEOUT_SECS * 1000,
            idle_reconnect: DEFAULT_IDLE_RECONNECT_SECS * 1000,
            soft_delete: false,
            decode_chunk_rows: DEFAULT_DECODE_CHUNK_ROWS,
            drain_batch_rows: DEFAULT_DRAIN_BATCH_ROWS,
            drain_batch_bytes: DEFAULT_DRAIN_BATCH_BYTES,
            plan_disk_max: DEFAULT_PLAN_DISK_MAX,
            resident_payload_max: default_resident_payload_max(facts.host_memory),
            inline_value_max: DEFAULT_INLINE_VALUE_MAX,
            value_reserve: DEFAULT_VALUE_RESERVE,
            inline_value_overflow: InlineValueOverflow::Null,
            decoder_pool_size: DEFAULT_DECODER_POOL,
            inserter_pool_size: default_inserter_pool(facts.vcpus, facts.max_bridge_workers),
            decoder_batch_size: DEFAULT_QUEUEING_BATCH_SIZE,
            decoder_queue_capacity: DEFAULT_QUEUEING_RECORD_SINK_CAPACITY,
        }
    }

    /// The knobs with what a document sets over them.
    pub open spec fn patched(self, ch: ChPatch, m: MemoryPatch, st: StreamPatch) -> Knobs {
        Knobs {
            compression: or_base(ch.compression, self.compression),
            row_budget: or_base(ch.row_budget, self.row_budget),
            byte_budget: or_base(ch.byte_budget, self.byte_budget),
            flush_timeout: or_base(ch.flush_timeout_ms, self.flush_timeout),
            paused: or_base(st.paused, self.paused),
            replicate_all: or_base(st.replicate_all, self.replicate_all),
            pending_capture: PendingCapture {
                max_boundaries_per_xact: or_base(
                    st.pending_max_boundaries_per_xact,
                    self.pending_capture.max_boundaries_per_xact,
                ),
                max_hold_per_xact: or_base(
                    st.pending_max_hold_ms,
                    self.pending_capture.max_hold_per_xact,
                ),
            },
            drop_table_strategy: or_base(ch.drop_table_strategy, self.drop_table_strategy),
            retry: RetryConfig {
                max_attempts: or_base(ch.retry_max_attempts, self.retry.max_attempts),
                initial_backoff: or_base(
                    ch.retry_initial_backoff_ms,
                    self.retry.initial_backoff,
                ),
                max_backoff: or_base(ch.retry_max_backoff_ms, self.retry.max_backoff),
            },
            soft_delete: or_base(ch.soft_delete, self.soft_delete),
            drain_batch_rows: or_base(ch.drain_batch_rows, self.drain_batch_rows),
            drain_batch_bytes: or_base(ch.drain_batch_bytes, self.drain_batch_bytes),
            plan_disk_max: or_base(ch.plan_disk_max, self.plan_disk_max),
            resident_payload_max: or_base(m.resident_payload_max, self.resident_payload_max),
            inline_value_max: or_base(m.inline_value_max, self.inline_value_max),
            value_reserve: or_base(m.value_reserve, self.value_reserve),
            inline_value_overflow: or_base(m.inline_value_overflow, self.inline_value_overflow),
            decoder_pool_size: or_base(ch.decoder_pool_size, self.decoder_pool_size),
            inserter_pool_size: or_base(ch.inserter_pool_size, self.inserter_pool_size),
            decoder_batch_size: or_base(ch.decoder_batch_size, self.decoder_batch_size),
            decoder_queue_capacity: or_base(
                ch.decoder_queue_capacity,
                self.decoder_queue_capacity,
            ),
            ..self
        }
    }

    pub fn patch(self, ch: &ChPatch, m: &MemoryPatch, st: &StreamPatch) -> (r: Knobs)
        ensures
            r == self.patched(*ch, *m, *st),
    {
        Knobs {
            compression: or_value(ch.compression, self.compression),
            row_budget: or_value(ch.row_budget, self.row_budget),
            byte_budget: or_value(ch.byte_budget, self.byte_budget),
            flush_timeout: or_value(ch.flush_timeout_ms, self.flush_timeout),
            paused: or_value(st.paused, self.paused),
            replicate_all: or_value(st.replicate_all, self.replicate_all),
            pending_capture: PendingCapture {
                max_boundaries_per_xact: or_value(
                    st.pending_max_boundaries_per_xact,
                    self.pending_capture.max_boundaries_per_xact,
                ),
                max_hold_per_xact: or_value(
                    st.pending_max_hold_ms,
                    self.pending_capture.max_hold_per_xact,
                ),
            },
            drop_table_strategy: or_value(ch.drop_table_strategy, self.drop_table_strategy),
            retry: RetryConfig {
                max_attempts: or_value(ch.retry_max_attempts, self.retry.max_attempts),
                initial_backoff: or_value(
                    ch.retry_initial_backoff_ms,
                    self.retry.initial_backoff,
                ),
                max_backoff: or_value(ch.retry_max_backoff_ms, self.retry.max_backoff),
            },
            soft_delete: or_value(ch.soft_delete, self.soft_delete),
            drain_batch_rows: or_value(ch.drain_batch_rows, self.drain_batch_rows),
            drain_batch_bytes: or_value(ch.drain_batch_bytes, self.drain_batch_bytes),
            plan_disk_max: or_value(ch.plan_disk_max, self.plan_disk_max),
            resident_payload_max: or_value(m.resident_payload_max, self.resident_payload_max),
            inline_value_max: or_value(m.inline_value_max, self.inline_value_max),
            value_reserve: or_value(m.value_reserve, self.value_reserve),
            inline_value_overflow: or_value(m.inline_value_overflow, self.inline_value_overflow),
            decoder_pool_size: or_value(ch.decoder_pool_size, self.decoder_pool_size),
            inserter_pool_size: or_value(ch.inserter_pool_size, self.inserter_pool_size),
            decoder_batch_size: or_value(ch.decoder_batch_size, self.decoder_batch_size),
            decoder_queue_capacity: or_value(
                ch.decoder_queue_capacity,
                self.decoder_queue_capacity,
            ),
            ..self
        }
    }
}

pub open spec fn patched_conn(base: ConnView, ch: ChPatch) -> ConnView {
    ConnView {
        host: or_else(opt_view(ch.host), base.host),
        port: or_base(ch.port, base.port),
        database: or_else(opt_view(ch.database), base.database),
        user: or_else(opt_view(ch.user), base.user),
        password: or_else(opt_view(ch.password), base.password),
        secure: or_base(ch.secure, base.secure),
    }
}

pub open spec fn namespace_rules(list: Seq<(String, NamespacePatch)>) -> Seq<
    (String, NamespaceMapping),
> {
    list.map_values(
        |e: (String, NamespacePatch)|
            (
                e.0,
                NamespaceMapping {
                    target_database: e.1.target_database,
                    auto_create: or_base(e.1.auto_create, false),
                    drop_table_strategy: e.1.drop_table_strategy,
                    initial_load: e.1.initial_load,
                },
            ),
    )
}

/// An empty name is none.
pub open spec fn nonempty(s: Option<String>) -> Option<String> {
    match s {
        Some(x) => if x@.len() == 0 {
            None
        } else {
            Some(x)
        },
        None => None,
    }
}

/// The table section of the configuration.
pub open spec fn section_view(c: EmitterConfig) -> SectionView {
    SectionView {
        tables: table_views(c.tables.entries@),
        table_initial_loads: load_views(c.table_initial_loads@),
        table_entries: rule_views(c.table_entries@),
        column_entries: entry_views(c.column_entries@),
        table_opt_ins: row_views(c.table_opt_ins@),
    }
}

/// What is wrong with a document, if anything is: the names of the appended
/// columns are looked at first, then the archive, then the tables.
pub open spec fn document_fault(doc: ConfigDocument) -> Option<Seq<char>> {
    match doc.system_fault {
        Some(m) => Some(m@),
        None => match archive_fault(doc) {
            Some(m) => Some(m),
            None => match section_of(
                doc.tables@,
                namespace_rules(doc.namespaces@),
                patched_conn(default_conn(), doc.ch).database,
            ) {
                Err(m) => Some(m),
                Ok(_) => None,
            },
        },
    }
}

pub open spec fn archive_fault(doc: ConfigDocument) -> Option<Seq<char>> {
    match doc.backup {
        Some(bk) => match storage_of(bk, opt_view(doc.imds_fault)) {
            Err(m) => Some("[backup] "@ + m),
            Ok(_) => None,
        },
        None => None,
    }
}

impl EmitterConfig {
    /// No relation has two routes, two ways to be loaded or two opt-ins, no
    /// namespace two rules, and no number of the settings is zero.
    pub open spec fn wf(&self) -> bool {
        &&& self.tables.wf()
        &&& keys_distinct(load_views(self.table_initial_loads@))
        &&& keys_distinct(row_views(self.table_opt_ins@))
        &&& forall|i: int, j: int|
            0 <= i < j < self.namespaces@.len() ==> (#[trigger] self.namespaces@[i]).0@ != (
            #[trigger] self.namespaces@[j]).0@
        &&& self.bootstrap.valid()
        &&& self.toast.valid()
    }

    /// The configuration without a document.
    pub fn defaults(facts: &BootFacts) -> (r: Self)
        requires
            facts.max_bridge_workers >= DEFAULT_POOL_FLOOR,
        ensures
            r.wf(),
            r.conn@ == default_conn(),
            r.knobs == default_knobs(*facts),
            Ok::<SectionView, Seq<char>>(section_view(r)) == section_of(
                Seq::empty(),
                Seq::empty(),
                Seq::empty(),
            ),
            r.namespaces@ == Seq::<(String, NamespaceMapping)>::empty(),
            r.system_columns@ == default_system(),
            r.runtime_config_schema is None,
            r.source.entries@.len() == 0,
            r.backup is None,
            r.bootstrap == (BootstrapSettings {
                mode: None,
                backup_name: None,
                object_store_parallelism: None,
                lanes: None,
                copy_fallback: None,
                copy_chunk_blocks: None,
                copy_concurrency: None,
            }),
            r.toast == (ToastSettings {
                put_batch_rows: None,
                put_batch_bytes: None,
                connections: None,
                mode: ToastMode::Clickhouse,
            }),
    {
        let r = EmitterConfig {
            conn: ConnParams {
                host: String::from_str("localhost"),
                port: 9000,
                database: String::from_str("default"),
                user: String::from_str("default"),
                password: String::new(),
                secure: false,
            },
            knobs: Knobs::defaults(facts),
            tables: RouteMap { entries: Vec::new() },
            table_initial_loads: Vec::new(),
            table_entries: Vec::new(),
            column_entries: Vec::new(),
            table_opt_ins: Vec::new(),
            namespaces: Vec::new(),
            system_columns: SystemColumns::default(),
            runtime_config_schema: None,
            source: SourceSection { entries: Vec::new() },
            backup: None,
            bootstrap: BootstrapSettings::default(),
            toast: ToastSettings::default(),
        };
        proof {
            assert(section_view(r).tables =~= Seq::empty());
            assert(section_view(r).table_initial_loads =~= Seq::empty());
            assert(section_view(r).table_entries =~= Seq::empty());
            assert(section_view(r).column_entries =~= Seq::empty());
            assert(section_view(r).table_opt_ins =~= Seq::empty());
        }
        r
    }

    /// The knobs that are frozen into every route.
    pub fn row_policy(&self) -> (r: RowPolicy)
        ensures
            r.soft_delete == self.knobs.soft_delete,
            r.system@ == self.system_columns@,
    {
        RowPolicy { soft_delete: self.knobs.soft_delete, system: self.system_columns.copied() }
    }

    /// The configuration of a document: what it sets goes before the
    /// defaults, and an error in it is reported.
    pub fn from_table(doc: ConfigDocument, facts: &BootFacts) -> (r: Result<Self, EmitterError>)
        requires
            facts.max_bridge_workers >= DEFAULT_POOL_FLOOR,
            doc.wf(),
        ensures
            match document_fault(doc) {
                Some(m) => r is Err && r->Err_0@ == ErrorView::Config(m),
                None => match r {
                    Err(_) => false,
                    Ok(c) => {
                        &&& c.wf()
                        &&& c.conn@ == patched_conn(default_conn(), doc.ch)
                        &&& c.knobs == default_knobs(*facts).patched(
                            doc.ch,
                            doc.memory,
                            doc.stream,
                        )
                        &&& c.namespaces@ == namespace_rules(doc.namespaces@)
                        &&& section_of(doc.tables@, c.namespaces@, c.conn@.database) == Ok::<
                            SectionView,
                            Seq<char>,
                        >(section_view(c))
                        &&& c.system_columns == doc.system_columns
                        &&& c.runtime_config_schema == nonempty(doc.runtime_config_schema)
                        &&& c.source == doc.source
                        &&& match doc.backup {
                            None => c.backup is None,
                            Some(bk) => c.backup is Some && storage_of(
                                bk,
                                opt_view(doc.imds_fault),
                            ) == Ok::<crate::config::backup::StorageView, Seq<char>>(c.backup->0@),
                        }
                        &&& c.bootstrap == doc.bootstrap
                        &&& c.toast == doc.toast
                    },
                },
            },
    {
        let ghost doc0 = doc;
        if let Some(m) = doc.system_fault {
            return Err(EmitterError::Config(m));
        }
        let backup: Option<StorageSettings> = match &doc.backup {
            None => None,
            Some(bk) => match parse_backup(bk, &doc.imds_fault) {
                Ok(s) => Some(s),
                Err(e) => {
                    return Err(e);
                },
            },
        };
        let knobs: Knobs = Knobs::defaults(facts).patch(&doc.ch, &doc.memory, &doc.stream);
        let conn = ConnParams {
            host: or_string(doc.ch.host, String::from_str("localhost")),
            port: or_value(doc.ch.port, 9000),
            database: or_string(doc.ch.database, String::from_str("default")),
            user: or_string(doc.ch.user, String::from_str("default")),
            password: or_string(doc.ch.password, String::new()),
            secure: or_value(doc.ch.secure, false),
        };
        let namespaces: Vec<(String, NamespaceMapping)> = namespaces_of(doc.namespaces);
        let section = match resolve_tables(doc.tables, &namespaces, conn.database.as_str()) {
            Ok(s) => s,
            Err(e) => {
                return Err(e);
            },
        };
        let runtime_config_schema: Option<String> = match doc.runtime_config_schema {
            Some(s) => if s.as_str().is_empty() {
                None
            } else {
                Some(s)
            },
            None => None,
        };
        let c = EmitterConfig {
            conn,
            knobs,
            tables: RouteMap { entries: section.tables },
            table_initial_loads: section.table_initial_loads,
            table_entries: section.table_entries,
            column_entries: section.column_entries,
            table_opt_ins: section.table_opt_ins,
            namespaces,
            system_columns: doc.system_columns,
            runtime_config_schema,
            source: doc.source,
            backup,
            bootstrap: doc.bootstrap,
            toast: doc.toast,
        };
        proof {
            relations_are_configured_once(doc0.tables@, c.namespaces@, c.conn@.database);
            let views = table_views(c.tables.entries@);
            assert forall|i: int, j: int| 0 <= i < j < c.tables.entries@.len() implies (
            #[trigger] c.tables.entries@[i]).0@ != (#[trigger] c.tables.entries@[j]).0@ by {
                assert(views[i].0 != views[j].0);
            }
            assert forall|i: int, j: int| 0 <= i < j < c.namespaces@.len() implies (
            #[trigger] c.namespaces@[i]).0@ != (#[trigger] c.namespaces@[j]).0@ by {
                assert(doc0.namespaces@[i].0@ != doc0.namespaces@[j].0@);
            }
        }
        Ok(c)
    }
}

fn namespaces_of(list: Vec<(String, NamespacePatch)>) -> (r: Vec<(String, NamespaceMapping)>)
    ensures
        r@ == namespace_rules(list@),
{
    let ghost all = list@;
    let n: usize = list.len();
    let mut out: Vec<(String, NamespaceMapping)> = Vec::new();
    let mut i: usize = 0;
    for e in iter: list
        invariant
            iter.seq() == all,
            i == iter.index(),
            i <= n == all.len(),
            out@ == namespace_rules(all).subrange(0, i as int),
    {
        proof {
            assert(e == all[i as int]);
        }
        out.push(
            (
                e.0,
                NamespaceMapping {
                    target_database: e.1.target_database,
                    auto_create: or_value(e.1.auto_create, false),
                    drop_table_strategy: e.1.drop_table_strategy,
                    initial_load: e.1.initial_load,
                },
            ),
        );
        proof {
            assert(out@ =~= namespace_rules(all).subrange(0, i as int + 1));
        }
        i = i + 1;
    }
    proof {
        assert(out@ =~= namespace_rules(all));
    }
    out
}

/// Sections that set nothing leave every knob and the connection at their
/// defaults.
pub proof fn unset_keys_keep_their_defaults(k: Knobs, conn: ConnView)
    ensures
        k.patched(unset_ch(), unset_memory(), unset_stream()) == k,
        patched_conn(conn, unset_ch()) == conn,
{
}

} // verus!
