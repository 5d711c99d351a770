//! What a pipeline is made of when it starts: its pools and queues, the memory
//! it admits, and where out-of-line values are kept.
use vstd::prelude::*;

use crate::config::emitter::Knobs;
use crate::config::settings::ToastMode;
use crate::errors::{EmitterError, ErrorView};
use crate::pipeline::budget::{
    build_budget, drain_floor, floor_text, reserve_of, reserve_text, BudgetPlan,
};
use crate::pipeline::tail::{at_least, decode_sizes, tail_sizes, tail_sizes_of, TailKind, TailSizes};

verus! {

/// What the daemon asks of a pipeline.
#[derive(Debug)]
pub struct PipelineConfig {
    pub knobs: Knobs,
    pub toast: ToastMode,
    pub decoder_pool_size: usize,
    pub inserter_pool_size: usize,
    pub tail: TailKind,
    /// Rows go to Snowflake tables instead of inserts.
    pub snowflake: bool,
    /// Requests that the source database answers at once, if there is a bridge
    /// to it.
    pub oracle_width: Option<usize>,
    /// A pool that other components share; without one the pipeline builds its
    /// own.
    pub budget: Option<BudgetPlan>,
}

/// Where out-of-line values are kept.
#[derive(Debug, Clone, Copy, PartialEq, Eq, Structural)]
pub enum ChunkStore {
    /// Without a destination there is no store.
    Absent,
    Kept(ToastMode),
}

/// Which tail is started.
#[derive(Debug, Clone, Copy, PartialEq, Eq, Structural)]
pub enum TailStart {
    Inserts(TailSizes),
    Snowflake,
    Null,
}

/// What is started.
#[derive(Debug, Clone, Copy, PartialEq, Eq, Structural)]
pub struct PipelinePlan {
    pub budget: BudgetPlan,
    pub store: ChunkStore,
    pub tail: TailStart,
    pub decoders: usize,
    /// Jobs that wait for a decoder.
    pub job_queue: usize,
    pub chunk_rows: usize,
}

/// Why the memory knobs cannot be met, if they cannot.
pub open spec fn budget_fault(c: PipelineConfig, drain_retained: usize) -> Option<Seq<char>> {
    let max = c.knobs.resident_payload_max;
    let m = at_least(c.decoder_pool_size, 1);
    let reserve = reserve_of(c.knobs.value_reserve, m);
    let floor = drain_floor(drain_retained, c.knobs.drain_batch_bytes);
    if c.budget is Some {
        None
    } else if reserve > max / 2 {
        Some(reserve_text(max, c.knobs.value_reserve, m))
    } else if max - reserve < floor {
        Some(floor_text((max - reserve) as nat, floor))
    } else {
        None
    }
}

/// The plan of a pipeline whose memory knobs can be met.
pub open spec fn planned(c: PipelineConfig) -> PipelinePlan {
    let m = at_least(c.decoder_pool_size, 1);
    PipelinePlan {
        budget: match c.budget {
            Some(b) => b,
            None => BudgetPlan {
                total: c.knobs.resident_payload_max,
                leaf_reserve: reserve_of(c.knobs.value_reserve, m),
            },
        },
        store: match c.tail {
            TailKind::Null => ChunkStore::Absent,
            TailKind::ClickHouse => ChunkStore::Kept(c.toast),
        },
        tail: match c.tail {
            TailKind::Null => TailStart::Null,
            TailKind::ClickHouse => if c.snowflake {
                TailStart::Snowflake
            } else {
                TailStart::Inserts(
                    tail_sizes_of(c.inserter_pool_size, c.oracle_width, c.knobs.flush_timeout),
                )
            },
        },
        decoders: m,
        job_queue: at_least((m * 4) as usize, 8),
        chunk_rows: c.knobs.decode_chunk_rows,
    }
}

impl PipelineConfig {
    /// Plan the pipeline; it does not start with memory knobs under which a
    /// drain could wait for what it holds itself.
    pub fn plan(&self, drain_retained: usize) -> (r: Result<PipelinePlan, EmitterError>)
        requires
            self.decoder_pool_size <= usize::MAX / 4,
            self.inserter_pool_size <= usize::MAX / 2,
            drain_retained + 2 * self.knobs.drain_batch_bytes <= u64::MAX,
        ensures
            match budget_fault(*self, drain_retained) {
                Some(m) => r is Err && r->Err_0@ == ErrorView::Config(m),
                None => r == Ok::<_, EmitterError>(planned(*self)),
            },
    {
        let (decoders, job_queue): (usize, usize) = decode_sizes(self.decoder_pool_size);
        let budget: BudgetPlan = match self.budget {
            Some(b) => b,
            None => match build_budget(
                self.knobs.resident_payload_max,
                self.knobs.value_reserve,
                drain_retained,
                self.knobs.drain_batch_bytes,
                decoders,
            ) {
                Ok(b) => b,
                Err(m) => {
                    return Err(EmitterError::Config(m));
                },
            },
        };
        let store: ChunkStore = match self.tail {
            TailKind::Null => ChunkStore::Absent,
            TailKind::ClickHouse => ChunkStore::Kept(self.toast),
        };
        let tail: TailStart = match self.tail {
            TailKind::Null => TailStart::Null,
            TailKind::ClickHouse => if self.snowflake {
                TailStart::Snowflake
            } else {
                TailStart::Inserts(
                    tail_sizes(
                        self.inserter_pool_size,
                        self.oracle_width,
                        self.knobs.flush_timeout,
                    ),
                )
            },
        };
        Ok(
            PipelinePlan {
                budget,
                store,
                tail,
                decoders,
                job_queue,
                chunk_rows: self.knobs.decode_chunk_rows,
            },
        )
    }
}

} // verus!
