//! Inserter decisions: what a batch needs before it is sent, and what its
//! outcome means. Rows are acked only after the insert is durable, and nothing
//! is sent or acked after the first batch that failed.
use vstd::prelude::*;
use vstd::string::*;

use crate::columns::ColumnBuf;
use crate::conn::{CompressionChoice, ConnParams};
use crate::errors::{EmitterError, ErrorView};
use crate::pipeline::batcher::{BatchMeta, InsertBatch};
use crate::schema::{RelKey, RelName};

verus! {

/// The knobs of a live configuration that reach an inserter.
#[derive(Debug)]
pub struct LiveInsertKnobs {
    pub retry_max_attempts: u32,
    pub compression: CompressionChoice,
    pub conn: ConnParams,
}

/// An inserter between two batches.
pub struct Inserter {
    pub conn: ConnParams,
    pub compression: CompressionChoice,
    pub retry_max_attempts: u32,
    /// Tables whose column types are parsed, with the epoch they were parsed
    /// in; every table at most once.
    pub parsed: Vec<(RelName, u64)>,
    /// A batch failed: the watermark cannot pass it, so nothing more is sent.
    pub stopped: bool,
}

/// What has to be done before a batch is built.
#[derive(Debug, Clone, Copy, PartialEq, Eq, Structural)]
pub struct BatchStart {
    /// Codec and socket are fixed at connect, so a change of either needs a
    /// new connection, at a batch boundary and never in the middle of one.
    pub reconnect: bool,
    /// The table's column types have to be parsed (again).
    pub parse_types: bool,
}

/// Every table at most once.
pub open spec fn tables_distinct(list: Seq<(RelName, u64)>) -> bool {
    forall|i: int, j: int|
        0 <= i < j < list.len() ==> (#[trigger] list[i]).0@ != (#[trigger] list[j]).0@
}

/// The epoch in which the table's types were parsed.
pub open spec fn parsed_epoch(list: Seq<(RelName, u64)>, key: RelKey) -> Option<u64>
    decreases list.len(),
{
    if list.len() == 0 {
        None
    } else if list.last().0@ == key {
        Some(list.last().1)
    } else {
        parsed_epoch(list.drop_last(), key)
    }
}

fn find_epoch(list: &Vec<(RelName, u64)>, key: &RelName) -> (r: Option<u64>)
    ensures
        r == parsed_epoch(list@, key@),
{
    let mut i: usize = list.len();
    proof {
        assert(list@.subrange(0, i as int) =~= list@);
    }
    while i > 0
        invariant
            i <= list@.len(),
            parsed_epoch(list@, key@) == parsed_epoch(list@.subrange(0, i as int), key@),
        decreases i,
    {
        proof {
            let part = list@.subrange(0, i as int);
            assert(part.drop_last() =~= list@.subrange(0, i - 1));
            assert(part.last() == list@[i - 1]);
        }
        if list[i - 1].0.same(key) {
            return Some(list[i - 1].1);
        }
        i = i - 1;
    }
    None
}

fn position_of(list: &Vec<(RelName, u64)>, key: &RelName) -> (i: usize)
    ensures
        i <= list@.len(),
        i < list@.len() ==> list@[i as int].0@ == key@,
        forall|k: int| 0 <= k < i ==> (#[trigger] list@[k]).0@ != key@,
{
    let mut i: usize = 0;
    while i < list.len()
        invariant
            i <= list@.len(),
            forall|k: int| 0 <= k < i ==> (#[trigger] list@[k]).0@ != key@,
        decreases list@.len() - i,
    {
        if list[i].0.same(key) {
            return i;
        }
        i = i + 1;
    }
    i
}

/// Where a block's column comes from.
#[derive(Debug, Clone, Copy, PartialEq, Eq, Structural)]
pub enum ColumnSource {
    /// The batch's own buffer.
    Local,
    /// The column that the source database rendered for this ordinal.
    Rendered(u32),
}

/// What becomes of a batch after its insert.
pub enum BatchOutcome {
    /// The rows are durable: ack them, and count the block.
    Durable { per_seq: Vec<(u64, u64)>, rows: u64 },
    /// The watermark cannot pass this batch any more.
    Fatal(String),
}

impl Inserter {
    pub open spec fn wf(&self) -> bool {
        tables_distinct(self.parsed@)
    }

    /// An inserter that has just connected.
    pub fn new(conn: ConnParams, compression: CompressionChoice, retry_max_attempts: u32) -> (r:
        Self)
        ensures
            r.wf(),
            r.conn == conn,
            r.compression == compression,
            r.retry_max_attempts == retry_max_attempts,
            r.parsed@.len() == 0,
            !r.stopped,
    {
        Inserter { conn, compression, retry_max_attempts, parsed: Vec::new(), stopped: false }
    }

    /// The insert of the next batch, which takes over live knobs; none once a
    /// batch has failed.
    pub fn take_batch(&mut self, live: Option<&LiveInsertKnobs>, batch: InsertBatch) -> (r: Option<
        InsertRun,
    >)
        requires
            old(self).wf(),
        ensures
            final(self).wf(),
            final(self).stopped == old(self).stopped,
            r is Some <==> takes_batches(old(self).stopped),
            match r {
                None => *final(self) == *old(self),
                Some(run) => {
                    &&& run.wf()
                    &&& run.batch == batch
                    &&& run.stage == first_stage(run.start)
                    &&& old(self).begun(live, *batch.meta, *final(self), run.start)
                },
            },
    {
        if self.stopped {
            return None;
        }
        let start: BatchStart = self.begin_batch(live, &batch.meta);
        Some(InsertRun::begin(batch, start))
    }

    /// What the ended insert means for its rows. A failed one stops the
    /// inserter.
    pub fn end_batch(&mut self, run: InsertRun) -> (r: BatchOutcome)
        requires
            run.wf(),
            !running(run.stage),
        ensures
            run.outcome(r),
            final(self).stopped == stops(old(self).stopped, run.stage),
            r is Fatal <==> run.stage == InsertStage::Failed,
            *final(self) == (Inserter { stopped: final(self).stopped, ..*old(self) }),
    {
        let r: BatchOutcome = run.finish();
        if let BatchOutcome::Fatal(_) = &r {
            self.stopped = true;
        }
        r
    }

    /// What taking over `live` for a batch of `meta`'s table makes of the
    /// inserter, and what the batch then needs.
    pub open spec fn begun(
        &self,
        live: Option<&LiveInsertKnobs>,
        meta: BatchMeta,
        post: Inserter,
        r: BatchStart,
    ) -> bool {
        &&& r.parse_types == (parsed_epoch(self.parsed@, meta.table_key@) != Some(
            meta.schema_epoch,
        ))
        &&& post.parsed@ == self.parsed@
        &&& post.stopped == self.stopped
        &&& match live {
            None => {
                &&& !r.reconnect
                &&& post.conn@ == self.conn@
                &&& post.compression == self.compression
                &&& post.retry_max_attempts == self.retry_max_attempts
            },
            Some(k) => {
                &&& r.reconnect == (k.compression != self.compression || k.conn@ != self.conn@)
                &&& post.conn@ == k.conn@
                &&& post.compression == k.compression
                &&& post.retry_max_attempts == k.retry_max_attempts
            },
        }
    }

    /// Take over live knobs at a batch boundary.
    pub fn begin_batch(&mut self, live: Option<&LiveInsertKnobs>, meta: &BatchMeta) -> (r:
        BatchStart)
        requires
            !old(self).stopped,
        ensures
            old(self).begun(live, *meta, *final(self), r),
    {
        let mut reconnect: bool = false;
        if let Some(k) = live {
            self.retry_max_attempts = k.retry_max_attempts;
            if k.compression != self.compression {
                self.compression = k.compression;
                reconnect = true;
            }
            if self.conn.refresh(&k.conn) {
                reconnect = true;
            }
        }
        let parse_types: bool = match find_epoch(&self.parsed, &meta.table_key) {
            Some(e) => e != meta.schema_epoch,
            None => true,
        };
        BatchStart { reconnect, parse_types }
    }

    /// The table's types have been parsed.
    pub fn types_parsed(&mut self, meta: &BatchMeta)
        requires
            old(self).wf(),
        ensures
            final(self).wf(),
            final(self).stopped == old(self).stopped,
            parsed_epoch(final(self).parsed@, meta.table_key@) == Some(meta.schema_epoch),
            forall|key: RelKey|
                key != meta.table_key@ ==> #[trigger] parsed_epoch(final(self).parsed@, key)
                    == parsed_epoch(old(self).parsed@, key),
            final(self).conn == old(self).conn,
            final(self).compression == old(self).compression,
            final(self).retry_max_attempts == old(self).retry_max_attempts,
    {
        let ghost before = self.parsed@;
        let i: usize = position_of(&self.parsed, &meta.table_key);
        if i < self.parsed.len() {
            let entry: (RelName, u64) = self.parsed.remove(i);
            proof {
                assert forall|k: int| 0 <= k < self.parsed@.len() implies (
                #[trigger] self.parsed@[k]).0@ != meta.table_key@ by {
                    if k < i {
                        assert(before[k].0@ != meta.table_key@);
                    } else {
                        assert(before[i as int].0@ != before[k + 1].0@);
                    }
                }
                assert forall|a: int, b: int| 0 <= a < b < self.parsed@.len() implies (
                #[trigger] self.parsed@[a]).0@ != (#[trigger] self.parsed@[b]).0@ by {
                    let a0 = if a < i { a } else { a + 1 };
                    let b0 = if b < i { b } else { b + 1 };
                    assert(before[a0].0@ != before[b0].0@);
                }
                assert forall|key: RelKey|
                    key != meta.table_key@ implies #[trigger] parsed_epoch(self.parsed@, key)
                    == parsed_epoch(before, key) by {
                    lemma_remove_other(before, i as int, key);
                }
            }
        }
        let ghost mid = self.parsed@;
        self.parsed.push((meta.table_key.copied(), meta.schema_epoch));
        proof {
            assert(self.parsed@.drop_last() =~= mid);
            assert forall|key: RelKey| key != meta.table_key@ implies #[trigger] parsed_epoch(
                self.parsed@,
                key,
            ) == parsed_epoch(before, key) by {
                assert(parsed_epoch(self.parsed@, key) == parsed_epoch(mid, key));
            }
        }
    }
}

proof fn lemma_remove_other(list: Seq<(RelName, u64)>, i: int, key: RelKey)
    requires
        0 <= i < list.len(),
        list[i].0@ != key,
    ensures
        parsed_epoch(list.remove(i), key) == parsed_epoch(list, key),
    decreases list.len(),
{
    if i == list.len() - 1 {
        assert(list.remove(i) =~= list.drop_last());
    } else {
        assert(list.remove(i).drop_last() =~= list.drop_last().remove(i));
        assert(list.remove(i).last() == list.last());
        lemma_remove_other(list.drop_last(), i, key);
    }
}

/// The stage of a batch's insert that is running.
#[derive(Debug, Clone, Copy, PartialEq, Eq, Structural)]
pub enum InsertStage {
    /// Connect anew, for changed knobs.
    Reconnect,
    /// Parse the table's column types.
    ParseTypes,
    /// Build the block from the batch's columns.
    Build,
    /// Send the block until the server reports the end of the stream; a retry
    /// sends the same block.
    Send,
    Durable,
    Failed,
}

pub open spec fn running(s: InsertStage) -> bool {
    s != InsertStage::Durable && s != InsertStage::Failed
}

/// The first stage of a batch's insert.
pub open spec fn first_stage(start: BatchStart) -> InsertStage {
    if start.reconnect {
        InsertStage::Reconnect
    } else {
        stage_connected(start)
    }
}

/// The stage once the connection stands.
pub open spec fn stage_connected(start: BatchStart) -> InsertStage {
    if start.parse_types {
        InsertStage::ParseTypes
    } else {
        InsertStage::Build
    }
}

/// The stage after `s` succeeded or failed.
pub open spec fn stage_after(start: BatchStart, s: InsertStage, ok: bool) -> InsertStage {
    if !ok {
        InsertStage::Failed
    } else {
        match s {
            InsertStage::Reconnect => stage_connected(start),
            InsertStage::ParseTypes => InsertStage::Build,
            InsertStage::Build => InsertStage::Send,
            InsertStage::Send => InsertStage::Durable,
            _ => s,
        }
    }
}

/// What the error of a stage is prefixed with.
pub open spec fn stage_prefix(s: InsertStage) -> Seq<char> {
    match s {
        InsertStage::Reconnect => "inserter live-config reconnect: "@,
        InsertStage::ParseTypes => "inserter type parse: "@,
        _ => "inserter: "@,
    }
}

/// The insert of one batch.
pub struct InsertRun {
    pub batch: InsertBatch,
    pub start: BatchStart,
    pub stage: InsertStage,
    /// Why the insert failed.
    pub error: Option<String>,
}

impl InsertRun {
    pub open spec fn wf(&self) -> bool {
        self.error is Some <==> self.stage == InsertStage::Failed
    }

    /// What an ended insert means for its rows: they are durable, each seq's
    /// as often as the batch counts it, or the batch failed.
    pub open spec fn outcome(&self, r: BatchOutcome) -> bool {
        match self.error {
            None => r is Durable && r->per_seq@ == self.batch.per_seq@ && r->rows
                == self.batch.n_rows,
            Some(m) => r is Fatal && r->Fatal_0 == m,
        }
    }

    pub fn begin(batch: InsertBatch, start: BatchStart) -> (r: Self)
        ensures
            r.wf(),
            r.batch == batch,
            r.start == start,
            r.stage == first_stage(start),
    {
        let stage: InsertStage = if start.reconnect {
            InsertStage::Reconnect
        } else if start.parse_types {
            InsertStage::ParseTypes
        } else {
            InsertStage::Build
        };
        InsertRun { batch, start, stage, error: None }
    }

    /// The running stage ended.
    pub fn advance(&mut self, ended: Result<(), EmitterError>)
        requires
            old(self).wf(),
            running(old(self).stage),
        ensures
            final(self).wf(),
            final(self).batch == old(self).batch,
            final(self).start == old(self).start,
            final(self).stage == stage_after(old(self).start, old(self).stage, ended is Ok),
            match ended {
                Ok(()) => final(self).error is None,
                Err(e) => final(self).error is Some && final(self).error->0@ == stage_prefix(
                    old(self).stage,
                ) + e@.text(),
            },
    {
        match ended {
            Err(e) => {
                let mut m: String = match self.stage {
                    InsertStage::Reconnect => String::from_str("inserter live-config reconnect: "),
                    InsertStage::ParseTypes => String::from_str("inserter type parse: "),
                    _ => String::from_str("inserter: "),
                };
                m.append(e.to_text().as_str());
                self.error = Some(m);
                self.stage = InsertStage::Failed;
            },
            Ok(()) => {
                self.stage = match self.stage {
                    InsertStage::Reconnect => if self.start.parse_types {
                        InsertStage::ParseTypes
                    } else {
                        InsertStage::Build
                    },
                    InsertStage::ParseTypes => InsertStage::Build,
                    InsertStage::Build => InsertStage::Send,
                    _ => InsertStage::Durable,
                };
            },
        }
    }

    /// What the ended insert means for its rows.
    fn finish(self) -> (r: BatchOutcome)
        requires
            self.wf(),
            !running(self.stage),
        ensures
            self.outcome(r),
    {
        match self.error {
            None => BatchOutcome::Durable {
                per_seq: self.batch.per_seq,
                rows: self.batch.n_rows as u64,
            },
            Some(m) => BatchOutcome::Fatal(m),
        }
    }
}

/// A batch counts as durable only once its block was sent and the server
/// reported the end of the stream.
pub proof fn rows_are_durable_after_the_send(start: BatchStart, s: InsertStage, ok: bool)
    requires
        running(s),
        stage_after(start, s, ok) == InsertStage::Durable,
    ensures
        s == InsertStage::Send,
        ok,
{
}

/// A new connection for changed knobs is made at a batch boundary, never in
/// the middle of an insert.
pub proof fn reconnects_happen_between_batches(start: BatchStart, s: InsertStage, ok: bool)
    requires
        running(s),
    ensures
        stage_after(start, s, ok) != InsertStage::Reconnect,
        first_stage(start) == InsertStage::Reconnect <==> start.reconnect,
{
}

/// Whether an inserter takes another batch.
pub open spec fn takes_batches(stopped: bool) -> bool {
    !stopped
}

/// Whether an inserter is stopped after an insert that ended in `s`.
pub open spec fn stops(stopped: bool, s: InsertStage) -> bool {
    stopped || s == InsertStage::Failed
}

/// A batch that is offered to an inserter, and how each stage of its insert
/// ends, should it be taken.
pub struct Offer {
    pub per_seq: Seq<(u64, u64)>,
    pub start: BatchStart,
    pub ended: Seq<bool>,
}

/// The stage after those of `ended`.
pub open spec fn stage_reached(start: BatchStart, ended: Seq<bool>) -> InsertStage
    decreases ended.len(),
{
    if ended.len() == 0 {
        first_stage(start)
    } else {
        let s = stage_reached(start, ended.drop_last());
        if running(s) {
            stage_after(start, s, ended.last())
        } else {
            s
        }
    }
}

impl Offer {
    pub open spec fn stage(self) -> InsertStage {
        stage_reached(self.start, self.ended)
    }

    /// The block gets as far as the server.
    pub open spec fn reaches_the_send(self) -> bool {
        exists|n: int|
            0 <= n <= self.ended.len() && #[trigger] stage_reached(
                self.start,
                self.ended.subrange(0, n),
            ) == InsertStage::Send
    }
}

/// Whether the inserter is stopped after the offers.
pub open spec fn stopped_after(offers: Seq<Offer>) -> bool
    decreases offers.len(),
{
    if offers.len() == 0 {
        false
    } else {
        let before = stopped_after(offers.drop_last());
        if takes_batches(before) {
            stops(before, offers.last().stage())
        } else {
            before
        }
    }
}

/// The places of the offers that the inserter sends.
pub open spec fn sent(offers: Seq<Offer>) -> Seq<int>
    decreases offers.len(),
{
    if offers.len() == 0 {
        Seq::empty()
    } else {
        let rest = sent(offers.drop_last());
        if takes_batches(stopped_after(offers.drop_last())) && offers.last().reaches_the_send() {
            rest.push(offers.len() - 1)
        } else {
            rest
        }
    }
}

/// What the inserter acks, in order.
pub open spec fn acked(offers: Seq<Offer>) -> Seq<Seq<(u64, u64)>>
    decreases offers.len(),
{
    if offers.len() == 0 {
        Seq::empty()
    } else {
        let rest = acked(offers.drop_last());
        if takes_batches(stopped_after(offers.drop_last())) && offers.last().stage()
            == InsertStage::Durable {
            rest.push(offers.last().per_seq)
        } else {
            rest
        }
    }
}

/// As long as no batch fails, every batch is acked once, in order.
pub proof fn durable_batches_are_acked_once(offers: Seq<Offer>)
    requires
        forall|i: int|
            0 <= i < offers.len() ==> (#[trigger] offers[i]).stage() == InsertStage::Durable,
    ensures
        !stopped_after(offers),
        acked(offers) == offers.map_values(|o: Offer| o.per_seq),
    decreases offers.len(),
{
    let all = offers.map_values(|o: Offer| o.per_seq);
    if offers.len() > 0 {
        let rest = offers.drop_last();
        assert forall|i: int| 0 <= i < rest.len() implies (#[trigger] rest[i]).stage()
            == InsertStage::Durable by {
            assert(rest[i] == offers[i]);
        }
        durable_batches_are_acked_once(rest);
        assert(all =~= rest.map_values(|o: Offer| o.per_seq).push(offers.last().per_seq));
    } else {
        assert(all =~= Seq::empty());
    }
}

/// The first batch that fails is not acked, and no later one is sent or acked:
/// the inserter has acked what came before it, and sent nothing beyond it.
pub proof fn nothing_follows_a_failure(offers: Seq<Offer>, i: int)
    requires
        0 <= i < offers.len(),
        forall|k: int| 0 <= k < i ==> (#[trigger] offers[k]).stage() == InsertStage::Durable,
        offers[i].stage() == InsertStage::Failed,
    ensures
        stopped_after(offers),
        acked(offers) == offers.subrange(0, i).map_values(|o: Offer| o.per_seq),
        forall|k: int| 0 <= k < sent(offers).len() ==> #[trigger] sent(offers)[k] <= i,
    decreases offers.len(),
{
    let rest = offers.drop_last();
    if i < rest.len() {
        assert forall|k: int| 0 <= k < i implies (#[trigger] rest[k]).stage()
            == InsertStage::Durable by {
            assert(rest[k] == offers[k]);
        }
        nothing_follows_a_failure(rest, i);
        assert(rest.subrange(0, i) =~= offers.subrange(0, i));
        assert(sent(offers) == sent(rest));
    } else {
        assert(rest =~= offers.subrange(0, i));
        assert forall|k: int| 0 <= k < rest.len() implies (#[trigger] rest[k]).stage()
            == InsertStage::Durable by {
            assert(rest[k] == offers[k]);
        }
        durable_batches_are_acked_once(rest);
        lemma_sent_within(offers);
        assert forall|k: int| 0 <= k < sent(offers).len() implies #[trigger] sent(offers)[k]
            <= i by {
            assert(sent(offers)[k] < offers.len());
        }
    }
}

proof fn lemma_sent_within(offers: Seq<Offer>)
    ensures
        forall|k: int| 0 <= k < sent(offers).len() ==> #[trigger] sent(offers)[k] < offers.len(),
    decreases offers.len(),
{
    if offers.len() > 0 {
        let before = sent(offers.drop_last());
        lemma_sent_within(offers.drop_last());
        assert forall|k: int| 0 <= k < sent(offers).len() implies #[trigger] sent(offers)[k]
            < offers.len() by {
            if k < before.len() {
                assert(sent(offers)[k] == before[k]);
            }
        }
    }
}

/// The source database rendered no column for this one.
pub open spec fn unanswered(name: Seq<char>) -> ErrorView {
    ErrorView::Type("oracle answered no column for "@ + name)
}

/// The first column from `i` on that has neither a buffer of its own nor a
/// rendered column.
pub open spec fn missing_column(batch: InsertBatch, rendered: Seq<u32>, i: int) -> Option<
    Seq<char>,
>
    decreases batch.buffers@.len() - i,
{
    if i >= batch.buffers@.len() {
        None
    } else if batch.buffers@[i] is Oracle && !rendered.contains(i as u32) {
        Some(batch.meta.columns@[i].name@)
    } else {
        missing_column(batch, rendered, i + 1)
    }
}

fn holds_ordinal(list: &Vec<u32>, x: u32) -> (r: bool)
    ensures
        r == list@.contains(x),
{
    let mut i: usize = 0;
    while i < list.len()
        invariant
            i <= list@.len(),
            forall|k: int| 0 <= k < i ==> list@[k] != x,
        decreases list@.len() - i,
    {
        if list[i] == x {
            return true;
        }
        i = i + 1;
    }
    false
}

/// Where each column of the batch's block comes from, given the ordinals that
/// the source database rendered.
pub fn column_sources(batch: &InsertBatch, rendered: &Vec<u32>) -> (r: Result<
    Vec<ColumnSource>,
    EmitterError,
>)
    requires
        batch.buffers@.len() == batch.meta.columns@.len(),
        batch.buffers@.len() <= u32::MAX,
    ensures
        match r {
            Ok(v) => {
                &&& missing_column(*batch, rendered@, 0) is None
                &&& v@.len() == batch.buffers@.len()
                &&& forall|i: int|
                    0 <= i < v@.len() ==> #[trigger] v@[i] == (if batch.buffers@[i] is Oracle {
                        ColumnSource::Rendered(i as u32)
                    } else {
                        ColumnSource::Local
                    })
            },
            Err(e) => match missing_column(*batch, rendered@, 0) {
                Some(name) => e@ == unanswered(name),
                None => false,
            },
        },
{
    let mut out: Vec<ColumnSource> = Vec::new();
    let mut i: usize = 0;
    while i < batch.buffers.len()
        invariant
            i <= batch.buffers@.len(),
            batch.buffers@.len() == batch.meta.columns@.len(),
            batch.buffers@.len() <= u32::MAX,
            missing_column(*batch, rendered@, 0) == missing_column(*batch, rendered@, i as int),
            out@.len() == i,
            forall|k: int|
                0 <= k < i ==> #[trigger] out@[k] == (if batch.buffers@[k] is Oracle {
                    ColumnSource::Rendered(k as u32)
                } else {
                    ColumnSource::Local
                }),
        decreases batch.buffers@.len() - i,
    {
        match &batch.buffers[i] {
            ColumnBuf::Oracle(_) => {
                if !holds_ordinal(rendered, i as u32) {
                    let mut m: String = String::from_str("oracle answered no column for ");
                    m.append(batch.meta.columns[i].name.as_str());
                    return Err(EmitterError::Type(m));
                }
                out.push(ColumnSource::Rendered(i as u32));
            },
            _ => {
                out.push(ColumnSource::Local);
            },
        }
        i = i + 1;
    }
    Ok(out)
}

} // verus!
