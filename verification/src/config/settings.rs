//! Settings with a closed set of values, and the defaults.
use vstd::prelude::*;
use vstd::string::*;

use crate::text::{lowered, str_eq, to_lower, trim, trimmed_end, trimmed_start};

verus! {

/// Block accumulator budgets.
pub const DEFAULT_ROW_BUDGET: usize = 4_194_304;

pub const DEFAULT_BYTE_BUDGET: usize = 268_435_456;

/// Budgets of one commit-drain slice.
pub const DEFAULT_DRAIN_BATCH_ROWS: usize = 65_536;

pub const DEFAULT_DRAIN_BATCH_BYTES: usize = 33_554_432;

/// Bytes that one transaction's plan may take on disk.
pub const DEFAULT_PLAN_DISK_MAX: u64 = 8_589_934_592;

pub const DEFAULT_FLUSH_TIMEOUT_MS: u64 = 1000;

/// Rows that a decode worker coalesces before it routes them.
pub const DEFAULT_DECODE_CHUNK_ROWS: usize = 1024;

pub const DEFAULT_QUEUEING_BATCH_SIZE: usize = 512;

pub const DEFAULT_QUEUEING_RECORD_SINK_CAPACITY: usize = 131_072;

pub const DEFAULT_INLINE_VALUE_MAX: usize = 1_073_741_824;

pub const DEFAULT_VALUE_RESERVE: usize = 67_108_864;

/// The part of the host's memory that is not left to the shadow database,
/// the transaction buffer and what nobody meters.
pub const RESIDENT_PAYLOAD_FRACTION: usize = 2;

/// Keeps the default reserve within half of the pool.
pub const MIN_RESIDENT_PAYLOAD_MAX: usize = 536_870_912;

pub const DEFAULT_POOL_FLOOR: usize = 3;

/// Not scaled with the processors: the reserve of all decoders has to fit
/// into half of the pool on every host.
pub const DEFAULT_DECODER_POOL: usize = DEFAULT_POOL_FLOOR;

pub const DEFAULT_INSERT_TIMEOUT_SECS: u64 = 30;

pub const DEFAULT_IDLE_RECONNECT_SECS: u64 = 30;

/// Where an empty shadow data directory is seeded from; an initialised one
/// resumes in every mode.
#[derive(Debug, Clone, Copy, PartialEq, Eq, Structural)]
pub enum BootstrapMode {
    /// Never seed.
    Off,
    /// A base backup over the source's replication protocol.
    Direct,
    /// A base backup out of a bucket.
    ObjectStore,
}

impl Default for BootstrapMode {
    fn default() -> (r: Self)
        ensures
            r == BootstrapMode::Off,
    {
        BootstrapMode::Off
    }
}

impl BootstrapMode {
    /// The mode that a name without white space around it, in small letters,
    /// stands for.
    pub open spec fn named(s: Seq<char>) -> Option<BootstrapMode> {
        let n = lowered(trimmed_end(trimmed_start(s)));
        if n == "off"@ {
            Some(BootstrapMode::Off)
        } else if n == "direct"@ {
            Some(BootstrapMode::Direct)
        } else if n == "object_store"@ || n == "object-store"@ {
            Some(BootstrapMode::ObjectStore)
        } else {
            None
        }
    }

    /// The mode that `s` names, in any case and with white space around it.
    pub fn parse(s: &str) -> (r: Result<BootstrapMode, String>)
        ensures
            match r {
                Ok(m) => Self::named(s@) == Some(m),
                Err(e) => Self::named(s@) is None && e@ == "unknown bootstrap mode `"@ + lowered(
                    trimmed_end(trimmed_start(s@)),
                ) + "` (expected off / direct / object_store)"@,
            },
    {
        let t: String = trim(s);
        let n: String = to_lower(t.as_str());
        if str_eq(n.as_str(), "off") {
            return Ok(BootstrapMode::Off);
        }
        if str_eq(n.as_str(), "direct") {
            return Ok(BootstrapMode::Direct);
        }
        if str_eq(n.as_str(), "object_store") || str_eq(n.as_str(), "object-store") {
            return Ok(BootstrapMode::ObjectStore);
        }
        let mut e: String = String::from_str("unknown bootstrap mode `");
        e.append(n.as_str());
        e.append("` (expected off / direct / object_store)");
        Err(e)
    }
}

/// Seeding of the shadow. What is omitted falls through to the command line
/// and then to a default.
#[derive(Debug)]
pub struct BootstrapSettings {
    pub mode: Option<BootstrapMode>,
    /// `LATEST` or the name of a backup.
    pub backup_name: Option<String>,
    /// Data parts in flight; never zero.
    pub object_store_parallelism: Option<usize>,
    /// Parallel drains of the first load; never zero.
    pub lanes: Option<usize>,
    /// Whether a failed backup load of a table is retried by copying it.
    pub copy_fallback: Option<bool>,
    /// Heap pages per resumable chunk of a copy; never zero.
    pub copy_chunk_blocks: Option<u32>,
    /// Copies that run at once; never zero.
    pub copy_concurrency: Option<usize>,
}

impl BootstrapSettings {
    /// No number is zero.
    pub open spec fn valid(&self) -> bool {
        &&& self.object_store_parallelism != Some(0usize)
        &&& self.lanes != Some(0usize)
        &&& self.copy_chunk_blocks != Some(0u32)
        &&& self.copy_concurrency != Some(0usize)
    }
}

impl Default for BootstrapSettings {
    fn default() -> (r: Self)
        ensures
            r == (BootstrapSettings {
                mode: None,
                backup_name: None,
                object_store_parallelism: None,
                lanes: None,
                copy_fallback: None,
                copy_chunk_blocks: None,
                copy_concurrency: None,
            }),
    {
        BootstrapSettings {
            mode: None,
            backup_name: None,
            object_store_parallelism: None,
            lanes: None,
            copy_fallback: None,
            copy_chunk_blocks: None,
            copy_concurrency: None,
        }
    }
}

/// Where values live that PostgreSQL keeps out of line. Switching needs a
/// fresh bootstrap, because each mode keeps another history.
#[derive(Debug, Clone, Copy, PartialEq, Eq, Structural)]
pub enum ToastMode {
    /// Every chunk is mirrored into a table of its own.
    Clickhouse,
    /// Read from the shadow database; no chunk is written.
    Shadow,
    /// No store: only values whose chunks are in the same transaction.
    Disabled,
}

impl Default for ToastMode {
    fn default() -> (r: Self)
        ensures
            r == ToastMode::Clickhouse,
    {
        ToastMode::Clickhouse
    }
}

impl ToastMode {
    pub fn is_shadow(self) -> (r: bool)
        ensures
            r == (self == ToastMode::Shadow),
    {
        match self {
            ToastMode::Shadow => true,
            _ => false,
        }
    }
}

/// What becomes of a value larger than the limit.
#[derive(Debug, Clone, Copy, PartialEq, Eq, Structural)]
pub enum InlineValueOverflow {
    Null,
    /// Its transaction fails.
    Error,
}

impl Default for InlineValueOverflow {
    fn default() -> (r: Self)
        ensures
            r == InlineValueOverflow::Null,
    {
        InlineValueOverflow::Null
    }
}

/// The chunk store.
#[derive(Debug, Clone, Copy, PartialEq, Eq)]
pub struct ToastSettings {
    /// Never zero, as are the next two.
    pub put_batch_rows: Option<usize>,
    pub put_batch_bytes: Option<usize>,
    pub connections: Option<usize>,
    pub mode: ToastMode,
}

impl ToastSettings {
    /// No number is zero.
    pub open spec fn valid(&self) -> bool {
        &&& self.put_batch_rows != Some(0usize)
        &&& self.put_batch_bytes != Some(0usize)
        &&& self.connections != Some(0usize)
    }
}

impl Default for ToastSettings {
    fn default() -> (r: Self)
        ensures
            r == (ToastSettings {
                put_batch_rows: None,
                put_batch_bytes: None,
                connections: None,
                mode: ToastMode::Clickhouse,
            }),
    {
        ToastSettings {
            put_batch_rows: None,
            put_batch_bytes: None,
            connections: None,
            mode: ToastMode::Clickhouse,
        }
    }
}

pub open spec fn resident_default(host_memory: Option<usize>) -> usize {
    let half = match host_memory {
        Some(m) => m / RESIDENT_PAYLOAD_FRACTION,
        None => MIN_RESIDENT_PAYLOAD_MAX,
    };
    if half >= MIN_RESIDENT_PAYLOAD_MAX {
        half
    } else {
        MIN_RESIDENT_PAYLOAD_MAX
    }
}

/// Half of the memory that the host offers, where that is known, and never
/// too little for the default reserve.
pub fn default_resident_payload_max(host_memory: Option<usize>) -> (r: usize)
    ensures
        r == resident_default(host_memory),
{
    let half: usize = match host_memory {
        Some(m) => m / RESIDENT_PAYLOAD_FRACTION,
        None => MIN_RESIDENT_PAYLOAD_MAX,
    };
    if half >= MIN_RESIDENT_PAYLOAD_MAX {
        half
    } else {
        MIN_RESIDENT_PAYLOAD_MAX
    }
}

pub open spec fn inserters_default(vcpus: Option<usize>, max_bridge_workers: usize) -> usize {
    let n = match vcpus {
        Some(n) => n,
        None => DEFAULT_POOL_FLOOR,
    };
    if n < DEFAULT_POOL_FLOOR {
        DEFAULT_POOL_FLOOR
    } else if n > max_bridge_workers {
        max_bridge_workers
    } else {
        n
    }
}

/// One inserter per processor, where their number is known: at least the
/// floor, and at most as many as the bridge has workers.
pub fn default_inserter_pool(vcpus: Option<usize>, max_bridge_workers: usize) -> (r: usize)
    requires
        max_bridge_workers >= DEFAULT_POOL_FLOOR,
    ensures
        r == inserters_default(vcpus, max_bridge_workers),
        DEFAULT_POOL_FLOOR <= r <= max_bridge_workers,
{
    let n: usize = match vcpus {
        Some(n) => n,
        None => DEFAULT_POOL_FLOOR,
    };
    if n < DEFAULT_POOL_FLOOR {
        DEFAULT_POOL_FLOOR
    } else if n > max_bridge_workers {
        max_bridge_workers
    } else {
        n
    }
}

/// On every host the default pool holds the default reserve of the default
/// decoders within its half, so the defaults always boot.
pub proof fn default_pool_boots(host_memory: Option<usize>)
    ensures
        DEFAULT_DECODER_POOL * DEFAULT_VALUE_RESERVE <= resident_default(host_memory) / 2,
        crate::pipeline::budget::reserve_of(DEFAULT_VALUE_RESERVE, DEFAULT_DECODER_POOL)
            <= resident_default(host_memory) / 2,
{
}

} // verus!
