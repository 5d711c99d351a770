//! The insert tail: sizes of its stages, the counting tail without a
//! destination, and the gathering of Snowflake batches.
use vstd::prelude::*;
use vstd::string::*;

use crate::pipeline::batcher::{all_rows, seq_rows, RoutedRow, DEFAULT_PIPELINE_FLUSH_MS};
use crate::pipeline::batch_hub::rows_of;
use crate::pipeline::fatal::Fatal;
use crate::schema::HeapOp;

verus! {

/// Which tail ships the rows.
#[derive(Debug, Clone, Copy, PartialEq, Eq, Structural)]
pub enum TailKind {
    ClickHouse,
    /// Acks at once; for runs without a destination.
    Null,
}

/// Sizes of the tail's stages.
#[derive(Debug, Clone, Copy, PartialEq, Eq, Structural)]
pub struct TailSizes {
    pub inserters: usize,
    /// Sealed batches that wait for a resolver.
    pub sealed_queue: usize,
    /// Resolved batches that wait for an inserter: one each keeps all fed.
    pub resolved_queue: usize,
    /// As wide as the bridge to the source database.
    pub resolvers: usize,
    /// In milliseconds.
    pub flush_timeout: u64,
}

pub open spec fn at_least(n: usize, least: usize) -> usize {
    if n >= least {
        n
    } else {
        least
    }
}

/// How wide the stages are, and how deep the queues between them.
pub open spec fn tail_sizes_of(
    inserter_pool: usize,
    oracle_width: Option<usize>,
    flush_timeout: u64,
) -> TailSizes {
    let n = at_least(inserter_pool, 1);
    TailSizes {
        inserters: n,
        sealed_queue: at_least((n * 2) as usize, 4),
        resolved_queue: n,
        resolvers: at_least(
            match oracle_width {
                Some(w) => w,
                None => 1,
            },
            1,
        ),
        flush_timeout: if flush_timeout == 0 {
            DEFAULT_PIPELINE_FLUSH_MS
        } else {
            flush_timeout
        },
    }
}

pub fn tail_sizes(inserter_pool: usize, oracle_width: Option<usize>, flush_timeout: u64) -> (r:
    TailSizes)
    requires
        inserter_pool <= usize::MAX / 2,
    ensures
        r == tail_sizes_of(inserter_pool, oracle_width, flush_timeout),
{
    let n: usize = if inserter_pool == 0 {
        1
    } else {
        inserter_pool
    };
    let width: usize = match oracle_width {
        Some(w) => w,
        None => 1,
    };
    TailSizes {
        inserters: n,
        sealed_queue: if n * 2 >= 4 {
            n * 2
        } else {
            4
        },
        resolved_queue: n,
        resolvers: if width == 0 {
            1
        } else {
            width
        },
        flush_timeout: if flush_timeout == 0 {
            DEFAULT_PIPELINE_FLUSH_MS
        } else {
            flush_timeout
        },
    }
}

/// Decoders, and how many jobs may wait for them.
pub fn decode_sizes(decoder_pool: usize) -> (r: (usize, usize))
    requires
        decoder_pool <= usize::MAX / 4,
    ensures
        r.0 == at_least(decoder_pool, 1),
        r.1 == at_least((r.0 * 4) as usize, 8),
{
    let m: usize = if decoder_pool == 0 {
        1
    } else {
        decoder_pool
    };
    (
        m,
        if m * 4 >= 8 {
            m * 4
        } else {
            8
        },
    )
}

/// Every seq at most once.
pub open spec fn distinct_seqs(counts: Seq<(u64, u64)>) -> bool {
    forall|i: int, j: int|
        0 <= i < j < counts.len() ==> (#[trigger] counts[i]).0 != (#[trigger] counts[j]).0
}

/// Count one row of `seq`.
pub fn count_seq(counts: &mut Vec<(u64, u64)>, seq: u64)
    requires
        all_rows(old(counts)@) < u64::MAX,
        distinct_seqs(old(counts)@),
    ensures
        distinct_seqs(final(counts)@),
        all_rows(final(counts)@) == all_rows(old(counts)@) + 1,
        forall|s: u64|
            #[trigger] seq_rows(final(counts)@, s) == seq_rows(old(counts)@, s) + (if s == seq {
                1nat
            } else {
                0
            }),
{
    let ghost before = counts@;
    let mut i: usize = 0;
    while i < counts.len()
        invariant
            i <= counts@.len(),
            counts@ == before,
            before == old(counts)@,
            all_rows(before) < u64::MAX,
            distinct_seqs(before),
            forall|k: int| 0 <= k < i ==> (#[trigger] before[k]).0 != seq,
        decreases counts@.len() - i,
    {
        if counts[i].0 == seq {
            let c: u64 = counts[i].1;
            proof {
                lemma_entry_within(before, i as int);
            }
            counts[i] = (seq, c + 1);
            proof {
                let next = before.update(i as int, (seq, (c + 1) as u64));
                assert(counts@ =~= next);
                lemma_bump_entry(before, i as int, (c + 1) as u64);
                assert forall|a: int, b: int| 0 <= a < b < next.len() implies (
                #[trigger] next[a]).0 != (#[trigger] next[b]).0 by {
                    assert(before[a].0 != before[b].0);
                }
            }
            return;
        }
        i = i + 1;
    }
    counts.push((seq, 1));
    proof {
        assert(counts@.drop_last() =~= before);
    }
}

proof fn lemma_entry_within(counts: Seq<(u64, u64)>, i: int)
    requires
        0 <= i < counts.len(),
    ensures
        counts[i].1 <= all_rows(counts),
    decreases counts.len(),
{
    if i < counts.len() - 1 {
        lemma_entry_within(counts.drop_last(), i);
        assert(counts.drop_last()[i] == counts[i]);
    }
}

proof fn lemma_bump_entry(counts: Seq<(u64, u64)>, i: int, n: u64)
    requires
        0 <= i < counts.len(),
    ensures
        ({
            let next = counts.update(i, (counts[i].0, n));
            &&& all_rows(next) + counts[i].1 == all_rows(counts) + n
            &&& forall|s: u64|
                #[trigger] seq_rows(next, s) + (if s == counts[i].0 {
                    counts[i].1 as nat
                } else {
                    0
                }) == seq_rows(counts, s) + (if s == counts[i].0 {
                    n as nat
                } else {
                    0
                })
        }),
    decreases counts.len(),
{
    let next = counts.update(i, (counts[i].0, n));
    if i == counts.len() - 1 {
        assert(next.drop_last() =~= counts.drop_last());
    } else {
        lemma_bump_entry(counts.drop_last(), i, n);
        let rest = counts.drop_last().update(i, (counts[i].0, n));
        assert(next.drop_last() =~= rest);
        assert(next.last() == counts.last());
        assert forall|s: u64|
            #[trigger] seq_rows(next, s) + (if s == counts[i].0 {
                counts[i].1 as nat
            } else {
                0
            }) == seq_rows(counts, s) + (if s == counts[i].0 {
                n as nat
            } else {
                0
            }) by {
            assert(seq_rows(rest, s) + (if s == counts[i].0 {
                counts[i].1 as nat
            } else {
                0
            }) == seq_rows(counts.drop_last(), s) + (if s == counts[i].0 {
                n as nat
            } else {
                0
            }));
        }
    }
}

/// The acks of a chunk whose rows are swallowed: as many rows per seq as it
/// carries, so that nothing can pin the watermark.
pub fn swallow(rows: &Vec<RoutedRow>) -> (r: Vec<(u64, u64)>)
    ensures
        distinct_seqs(r@),
        forall|s: u64| #[trigger] seq_rows(r@, s) == rows_of(rows@, s),
        all_rows(r@) == rows@.len(),
{
    let mut counts: Vec<(u64, u64)> = Vec::new();
    let n: usize = rows.len();
    let mut i: usize = 0;
    proof {
        assert(rows@.subrange(0, 0) =~= Seq::empty());
    }
    while i < n
        invariant
            i <= n == rows@.len(),
            distinct_seqs(counts@),
            all_rows(counts@) == i,
            forall|s: u64| #[trigger]
                seq_rows(counts@, s) == rows_of(rows@.subrange(0, i as int), s),
        decreases n - i,
    {
        let ghost before = counts@;
        let ghost part = rows@.subrange(0, i as int + 1);
        proof {
            assert(part.drop_last() =~= rows@.subrange(0, i as int));
            assert(part.last() == rows@[i as int]);
        }
        count_seq(&mut counts, rows[i].seq);
        proof {
            assert forall|s: u64| #[trigger] seq_rows(counts@, s) == rows_of(part, s) by {
                assert(seq_rows(before, s) == rows_of(rows@.subrange(0, i as int), s));
            }
        }
        i = i + 1;
    }
    proof {
        assert(rows@.subrange(0, i as int) =~= rows@);
    }
    counts
}

/// The root cause, else `default`.
pub fn fatal_or(fatal: &Fatal, default: &str) -> (r: String)
    ensures
        r@ == (match fatal@ {
            Some(m) => m,
            None => default@,
        }),
{
    match fatal.message() {
        Some(m) => m,
        None => String::from_str(default),
    }
}

/// How an attempt to flush the tail and to see every row durable ended.
#[derive(Debug)]
pub enum ProofOutcome {
    /// The tail did not take the flush.
    SendFailed,
    FatalDuringFlush,
    /// The batcher went away without an answer.
    AnswerDropped,
    FatalDuringDrain,
    DrainFailed(String),
    Durable,
}

/// What the attempt reports; a root cause goes before what was seen of it.
pub open spec fn proof_fault(fatal: Option<Seq<char>>, o: ProofOutcome) -> Option<Seq<char>> {
    match o {
        ProofOutcome::SendFailed => Some(
            match fatal {
                Some(m) => m,
                None => "tail closed before flush"@,
            },
        ),
        ProofOutcome::FatalDuringFlush => Some(
            match fatal {
                Some(m) => m,
                None => "tail fatal during flush"@,
            },
        ),
        ProofOutcome::AnswerDropped => Some("batcher dropped flush ack"@),
        ProofOutcome::FatalDuringDrain => Some(
            match fatal {
                Some(m) => m,
                None => "tail fatal during drain"@,
            },
        ),
        ProofOutcome::DrainFailed(e) => Some("tail drain: "@ + e@),
        ProofOutcome::Durable => None,
    }
}

pub fn proof_result(fatal: &Fatal, outcome: ProofOutcome) -> (r: Result<(), String>)
    ensures
        match r {
            Ok(()) => proof_fault(fatal@, outcome) is None,
            Err(m) => proof_fault(fatal@, outcome) == Some(m@),
        },
{
    match outcome {
        ProofOutcome::SendFailed => Err(fatal_or(fatal, "tail closed before flush")),
        ProofOutcome::FatalDuringFlush => Err(fatal_or(fatal, "tail fatal during flush")),
        ProofOutcome::AnswerDropped => Err(String::from_str("batcher dropped flush ack")),
        ProofOutcome::FatalDuringDrain => Err(fatal_or(fatal, "tail fatal during drain")),
        ProofOutcome::DrainFailed(e) => {
            let mut m: String = String::from_str("tail drain: ");
            m.append(e.as_str());
            Err(m)
        },
        ProofOutcome::Durable => Ok(()),
    }
}

/// The message a finished tail fails with.
pub open spec fn finish_fault(cause: Option<Seq<char>>, proven: Result<(), String>) -> Option<
    Seq<char>,
> {
    match proven {
        Err(m) => Some(m@),
        Ok(()) => cause,
    }
}

/// The result of a finished tail: proven rows do not hide a root cause that
/// came up while the stages ended.
pub fn finish_result(fatal: &Fatal, proven: Result<(), String>) -> (r: Result<(), String>)
    ensures
        proven is Err ==> r == proven,
        match finish_fault(fatal@, proven) {
            Some(m) => r is Err && r->Err_0@ == m,
            None => r is Ok,
        },
{
    match proven {
        Err(m) => Err(m),
        Ok(()) => match fatal.message() {
            Some(m) => Err(m),
            None => Ok(()),
        },
    }
}

/// How a delivery ended.
#[derive(Debug)]
pub enum DeliveryOutcome {
    Finished(Result<(), String>),
    /// Its task failed.
    TaskFailed(String),
    Disappeared,
}

pub open spec fn delivery_text(d: DeliveryOutcome) -> Option<Seq<char>> {
    match d {
        DeliveryOutcome::Finished(Ok(())) => None,
        DeliveryOutcome::Finished(Err(m)) => Some(m@),
        DeliveryOutcome::TaskFailed(m) => Some("delivery task failed: "@ + m@),
        DeliveryOutcome::Disappeared => Some("delivery task disappeared"@),
    }
}

pub fn snowflake_delivery_result(result: DeliveryOutcome) -> (r: Result<(), String>)
    ensures
        match r {
            Ok(()) => delivery_text(result) is None,
            Err(m) => delivery_text(result) == Some(m@),
        },
{
    match result {
        DeliveryOutcome::Finished(r) => r,
        DeliveryOutcome::TaskFailed(e) => {
            let mut m: String = String::from_str("delivery task failed: ");
            m.append(e.as_str());
            Err(m)
        },
        DeliveryOutcome::Disappeared => Err(String::from_str("delivery task disappeared")),
    }
}

/// The acks of a delivery: its rows once it succeeded, none before.
pub fn acks_after_delivery(delivered: Result<(), String>, per_seq: Vec<(u64, u64)>) -> (r: Result<
    Vec<(u64, u64)>,
    String,
>)
    ensures
        match delivered {
            Ok(()) => r is Ok && r->Ok_0@ == per_seq@,
            Err(m) => r is Err && r->Err_0 == m,
        },
{
    match delivered {
        Ok(()) => Ok(per_seq),
        Err(m) => Err(m),
    }
}

/// How a row is encoded for Snowflake.
#[derive(Debug, Clone, Copy, PartialEq, Eq, Structural)]
pub enum SnowflakeEncoding {
    /// One row, of a delete or not.
    One { deleted: bool },
    /// The rows of an update.
    Update,
}

pub open spec fn encoding_of(op: HeapOp) -> Option<SnowflakeEncoding> {
    match op {
        HeapOp::Insert => Some(SnowflakeEncoding::One { deleted: false }),
        HeapOp::Update => Some(SnowflakeEncoding::Update),
        HeapOp::HotUpdate => Some(SnowflakeEncoding::Update),
        HeapOp::Delete => Some(SnowflakeEncoding::One { deleted: true }),
        HeapOp::Truncate => None,
    }
}

pub fn snowflake_encoding(op: HeapOp) -> (r: Result<SnowflakeEncoding, String>)
    ensures
        match r {
            Ok(e) => encoding_of(op) == Some(e),
            Err(m) => encoding_of(op) is None && m@
                == "TRUNCATE requires a Snowflake generation barrier"@,
        },
{
    match op {
        HeapOp::Insert => Ok(SnowflakeEncoding::One { deleted: false }),
        HeapOp::Update => Ok(SnowflakeEncoding::Update),
        HeapOp::HotUpdate => Ok(SnowflakeEncoding::Update),
        HeapOp::Delete => Ok(SnowflakeEncoding::One { deleted: true }),
        HeapOp::Truncate => Err(
            String::from_str("TRUNCATE requires a Snowflake generation barrier"),
        ),
    }
}

/// What a worker knows of the relation and route of its last row, by their
/// numbers; it is looked up again when either changes.
#[derive(Debug, Clone, Copy, PartialEq, Eq, Structural)]
pub struct SnowflakeLookup {
    pub rel: u64,
    pub route: u64,
    pub schema: u64,
    pub incarnation: u64,
    pub generation: u64,
}

/// Whether a lookup was made for this relation under this route.
pub open spec fn lookup_is_of(cached: Option<SnowflakeLookup>, rel: u64, route: u64) -> bool {
    match cached {
        Some(c) => c.rel == rel && c.route == route,
        None => false,
    }
}

/// Whether the lookup is still that of the row.
pub fn lookup_holds(cached: Option<SnowflakeLookup>, rel: u64, route: u64) -> (r: bool)
    ensures
        r == lookup_is_of(cached, rel, route),
{
    match cached {
        Some(c) => c.rel == rel && c.route == route,
        None => false,
    }
}

pub open spec fn lineage_of(base: (u64, u64), snapshot: Option<Option<u64>>) -> Option<(u64, u64)> {
    match snapshot {
        None => Some(base),
        Some(Some(generation)) => Some((base.0, generation)),
        Some(None) => None,
    }
}

/// A row's incarnation and generation: those of its relation, and under a
/// snapshot the snapshot's own generation, which has to exist.
pub fn lineage(base: (u64, u64), snapshot: Option<Option<u64>>) -> (r: Result<(u64, u64), String>)
    ensures
        match r {
            Ok(l) => lineage_of(base, snapshot) == Some(l),
            Err(m) => lineage_of(base, snapshot) is None && m@ == "missing snapshot generation"@,
        },
{
    match snapshot {
        None => Ok(base),
        Some(Some(generation)) => Ok((base.0, generation)),
        Some(None) => Err(String::from_str("missing snapshot generation")),
    }
}

/// Rows gathered for one delivery.
#[derive(Debug)]
pub struct SnowflakeBatch<R> {
    /// Number of the table schema that all rows have.
    pub schema: u64,
    pub rows: Vec<R>,
    pub per_seq: Vec<(u64, u64)>,
    pub permits: Vec<u64>,
    pub bytes: usize,
    /// In milliseconds.
    pub deadline: u64,
}

impl<R> SnowflakeBatch<R> {
    pub open spec fn wf(&self) -> bool {
        distinct_seqs(self.per_seq@)
    }
}

/// A source row as its worker adds it: one source row may be several encoded
/// ones.
#[derive(Debug)]
pub struct SnowflakeRow<R> {
    pub seq: u64,
    pub schema: u64,
    pub encoded: Vec<R>,
    pub bytes: usize,
    pub value_permit: Option<u64>,
    pub chunk_permit: Option<u64>,
}

pub open spec fn with_permits(held: Seq<u64>, a: Option<u64>, b: Option<u64>) -> Seq<u64> {
    let x = match a {
        Some(p) => held.push(p),
        None => held,
    };
    match b {
        Some(p) => x.push(p),
        None => x,
    }
}

/// `b` is the open batch after `row` joined what was `held`. A batch that the
/// row opens gets `deadline`.
pub open spec fn added<R>(
    held: Option<SnowflakeBatch<R>>,
    row: SnowflakeRow<R>,
    deadline: u64,
    b: SnowflakeBatch<R>,
) -> bool {
    let (rows, counts, permits, bytes, due) = match held {
        Some(h) => (h.rows@, h.per_seq@, h.permits@, h.bytes, h.deadline),
        None => (Seq::empty(), Seq::empty(), Seq::empty(), 0usize, deadline),
    };
    &&& b.wf()
    &&& b.schema == row.schema
    &&& b.rows@ == rows + row.encoded@
    &&& all_rows(b.per_seq@) == all_rows(counts) + 1
    &&& forall|s: u64|
        #[trigger] seq_rows(b.per_seq@, s) == seq_rows(counts, s) + (if s == row.seq {
            1nat
        } else {
            0
        })
    &&& b.permits@ == with_permits(permits, row.value_permit, row.chunk_permit)
    &&& b.bytes == crate::pipeline::reorder::add_clamped(bytes, row.bytes as nat)
    &&& b.deadline == due
}

/// Add a row to the open batch, opening one if there is none. All rows of a
/// batch have one schema.
pub fn snowflake_add<R>(
    batch: &mut Option<SnowflakeBatch<R>>,
    row: SnowflakeRow<R>,
    deadline: u64,
) -> (r: Result<(), String>)
    requires
        *old(batch) matches Some(b) ==> b.wf() && all_rows(b.per_seq@) < u64::MAX,
    ensures
        match *old(batch) {
            Some(b) if b.schema != row.schema => {
                &&& r is Err && r->Err_0@ == "Snowflake schema changed inside open batch"@
                &&& *final(batch) == *old(batch)
            },
            held => {
                &&& r is Ok
                &&& *final(batch) is Some
                &&& added(held, row, deadline, (*final(batch))->0)
            },
        },
{
    let mut held: SnowflakeBatch<R> = match batch.take() {
        Some(b) => b,
        None => SnowflakeBatch {
            schema: row.schema,
            rows: Vec::new(),
            per_seq: Vec::new(),
            permits: Vec::new(),
            bytes: 0,
            deadline,
        },
    };
    if held.schema != row.schema {
        *batch = Some(held);
        return Err(String::from_str("Snowflake schema changed inside open batch"));
    }
    let mut encoded: Vec<R> = row.encoded;
    held.rows.append(&mut encoded);
    count_seq(&mut held.per_seq, row.seq);
    held.bytes = held.bytes.saturating_add(row.bytes);
    if let Some(p) = row.value_permit {
        held.permits.push(p);
    }
    if let Some(p) = row.chunk_permit {
        held.permits.push(p);
    }
    *batch = Some(held);
    Ok(())
}

/// Whether a batch has reached a budget.
pub open spec fn is_due<R>(
    batch: Option<SnowflakeBatch<R>>,
    row_budget: usize,
    byte_budget: usize,
) -> bool {
    match batch {
        Some(b) => b.rows@.len() >= row_budget || b.bytes >= byte_budget,
        None => false,
    }
}

/// Whether the open batch has reached a budget and is delivered.
pub fn delivery_due<R>(
    batch: &Option<SnowflakeBatch<R>>,
    row_budget: usize,
    byte_budget: usize,
) -> (r: bool)
    ensures
        r == is_due(*batch, row_budget, byte_budget),
{
    match batch {
        Some(b) => b.rows.len() >= row_budget || b.bytes >= byte_budget,
        None => false,
    }
}

/// The fatal message of a flush of all table workers: every worker takes the
/// flush and answers it, or the tail fails.
pub open spec fn flush_fault(sent: Seq<bool>, answered: Seq<bool>) -> Option<Seq<char>> {
    if exists|i: int| 0 <= i < sent.len() && !#[trigger] sent[i] {
        Some("snowflake tail flush: table worker closed before flush"@)
    } else if exists|i: int| 0 <= i < answered.len() && !#[trigger] answered[i] {
        Some("snowflake tail flush: table worker failed during flush"@)
    } else {
        None
    }
}

fn all_true(v: &Vec<bool>) -> (r: bool)
    ensures
        r == !(exists|i: int| 0 <= i < v@.len() && !#[trigger] v@[i]),
{
    let mut i: usize = 0;
    while i < v.len()
        invariant
            i <= v@.len(),
            forall|k: int| 0 <= k < i ==> #[trigger] v@[k],
        decreases v@.len() - i,
    {
        if !v[i] {
            return false;
        }
        i = i + 1;
    }
    true
}

pub fn flush_outcome(sent: &Vec<bool>, answered: &Vec<bool>) -> (r: Result<(), String>)
    ensures
        match r {
            Ok(()) => flush_fault(sent@, answered@) is None,
            Err(m) => flush_fault(sent@, answered@) == Some(m@),
        },
{
    if !all_true(sent) {
        return Err(String::from_str(
            "snowflake tail flush: table worker closed before flush",
        ));
    }
    if !all_true(answered) {
        return Err(String::from_str(
            "snowflake tail flush: table worker failed during flush",
        ));
    }
    Ok(())
}

} // verus!
