//! Replaying deferred rows: a round gathers rows within its bounds, fetches
//! their values together, and writes them into the rows.
use vstd::prelude::*;

use crate::mapping::TableMapping;
use crate::pipeline::bootstrap::{
    apply_fetched, fetched_column, FetchedCell, PointerSite, REPLAY_BATCH_ROWS,
    REPLAY_FETCH_BYTES,
};
use crate::schema::RelName;
use crate::values::ColumnValue;

verus! {

/// The rows of one replay round.
#[derive(Debug)]
pub struct ReplayRound<T> {
    pub rows: Vec<T>,
    /// Bytes that fetching the rows' values peaks at.
    pub need: usize,
    /// Bytes that the rows hold already.
    pub resident: usize,
}

impl<T> ReplayRound<T> {
    /// The round takes another row.
    pub open spec fn open(&self) -> bool {
        self.rows@.len() < REPLAY_BATCH_ROWS && self.need + self.resident < REPLAY_FETCH_BYTES
    }

    pub fn new() -> (r: Self)
        ensures
            r.rows@.len() == 0,
            r.need == 0,
            r.resident == 0,
            r.open(),
    {
        ReplayRound { rows: Vec::new(), need: 0, resident: 0 }
    }

    pub fn has_room(&self) -> (r: bool)
        ensures
            r == self.open(),
    {
        crate::pipeline::bootstrap::round_has_room(self.rows.len(), self.need, self.resident)
    }

    /// Take a row whose values need so many bytes, and which holds so many.
    pub fn push(&mut self, row: T, need: usize, resident: usize)
        requires
            old(self).open(),
            old(self).need + need <= usize::MAX,
            old(self).resident + resident <= usize::MAX,
        ensures
            final(self).rows@ == old(self).rows@.push(row),
            final(self).need == old(self).need + need,
            final(self).resident == old(self).resident + resident,
    {
        self.need = self.need + need;
        self.resident = self.resident + resident;
        self.rows.push(row);
    }
}

/// The column that a fetch came to, with the bytes it retains; `None` for a
/// fault.
pub open spec fn cell_value(f: FetchedCell) -> Option<(ColumnValue, usize)> {
    match f {
        FetchedCell::NoStore => Some((ColumnValue::Null, 0usize)),
        FetchedCell::Finished(Ok(v)) => Some(v),
        _ => None,
    }
}

/// The column alone.
pub open spec fn cell_column(f: FetchedCell) -> ColumnValue {
    match f {
        FetchedCell::Finished(Ok((column, _))) => column,
        _ => ColumnValue::Null,
    }
}

/// The columns once the first `n` fetches are written at their places.
pub open spec fn filled(
    columns: Seq<Option<ColumnValue>>,
    sites: Seq<PointerSite>,
    cells: Seq<(FetchedCell, u64)>,
    n: int,
) -> Seq<Option<ColumnValue>>
    decreases n,
{
    if n <= 0 {
        columns
    } else {
        filled(columns, sites, cells, n - 1).update(
            sites[n - 1].idx as int,
            Some(cell_column(cells[n - 1].0)),
        )
    }
}

/// The bytes that the first `n` fetches retain.
pub open spec fn retained(cells: Seq<(FetchedCell, u64)>, n: int) -> nat
    decreases n,
{
    if n <= 0 {
        0
    } else {
        retained(cells, n - 1) + (match cell_value(cells[n - 1].0) {
            Some(v) => v.1 as nat,
            None => 0,
        })
    }
}

/// The first `n` fetches came to a column.
pub open spec fn all_fetched(cells: Seq<(FetchedCell, u64)>, n: int) -> bool {
    forall|k: int| 0 <= k < n ==> cell_value((#[trigger] cells[k]).0) is Some
}

/// Every place lies within the row.
pub open spec fn sites_within(sites: Seq<PointerSite>, columns: nat) -> bool {
    forall|k: int| 0 <= k < sites.len() ==> (#[trigger] sites[k]).idx < columns
}

/// Every place lies within the row and within its mapping.
pub open spec fn sites_fit(sites: Seq<PointerSite>, columns: nat, mapped: nat) -> bool {
    &&& sites_within(sites, columns)
    &&& forall|k: int| 0 <= k < sites.len() ==> (#[trigger] sites[k]).col < mapped
}

/// The place of the first fetch from `i` on that is at fault.
pub open spec fn failing(cells: Seq<(FetchedCell, u64)>, i: int) -> int
    decreases cells.len() - i,
{
    if i >= cells.len() || cell_value(cells[i].0) is None {
        i
    } else {
        failing(cells, i + 1)
    }
}

proof fn lemma_retained_grows(cells: Seq<(FetchedCell, u64)>, n: int)
    requires
        0 <= n <= cells.len(),
    ensures
        retained(cells, n) <= retained(cells, cells.len() as int),
    decreases cells.len() - n,
{
    if n < cells.len() {
        lemma_retained_grows(cells, n + 1);
    }
}

/// Write a row's fetched values, each beside the size that its pointer says,
/// into the row's columns. Returns the bytes that the row retains, or the
/// error of the first value that is at fault.
pub fn fill_columns(
    columns: &mut Vec<Option<ColumnValue>>,
    sites: &Vec<PointerSite>,
    cells: Vec<(FetchedCell, u64)>,
    rel: &RelName,
    mapping: &TableMapping,
) -> (r: Result<usize, String>)
    requires
        sites@.len() == cells@.len(),
        sites_fit(sites@, old(columns)@.len(), mapping.columns@.len()),
        retained(cells@, cells@.len() as int) <= usize::MAX,
    ensures
        r matches Ok(n) ==> all_fetched(cells@, cells@.len() as int) && n == retained(
            cells@,
            cells@.len() as int,
        ) && final(columns)@ == filled(old(columns)@, sites@, cells@, cells@.len() as int),
        r is Err ==> ({
            let k = failing(cells@, 0);
            &&& k < cells@.len()
            &&& final(columns)@ == filled(old(columns)@, sites@, cells@, k)
            &&& fetched_column(
                cells@[k].0,
                sites@[k].p,
                cells@[k].1,
                rel@,
                mapping.columns@[sites@[k].col as int].target_name@,
                Err(r->Err_0),
            )
        }),
{
    let ghost all = cells@;
    let ghost before = columns@;
    let total: usize = cells.len();
    let mut sum: usize = 0;
    let mut i: usize = 0;
    for c in iter: cells
        invariant
            iter.seq() == all,
            all == cells@,
            before == old(columns)@,
            i == iter.index(),
            i <= total == all.len(),
            sites@.len() == all.len(),
            columns@.len() == before.len(),
            sites_fit(sites@, before.len(), mapping.columns@.len()),
            retained(all, all.len() as int) <= usize::MAX,
            all_fetched(all, i as int),
            failing(all, 0) == failing(all, i as int),
            sum == retained(all, i as int),
            columns@ == filled(before, sites@, all, i as int),
    {
        let site: PointerSite = sites[i];
        let target: &str = mapping.columns[site.col].target_name.as_str();
        let ghost cell = c.0;
        proof {
            assert(c == all[i as int]);
            lemma_retained_grows(all, i as int + 1);
        }
        match apply_fetched(c.0, &site.p, c.1, rel, target) {
            Err(m) => {
                return Err(m);
            },
            Ok((column, bytes)) => {
                proof {
                    assert(cell_value(cell) == Some((column, bytes)));
                }
                sum = sum + bytes;
                columns.set(site.idx, Some(column));
            },
        }
        i = i + 1;
    }
    Ok(sum)
}

/// Every place of a filled row holds what the last fetch for it came to.
pub proof fn filled_rows_hold_their_values(
    columns: Seq<Option<ColumnValue>>,
    sites: Seq<PointerSite>,
    cells: Seq<(FetchedCell, u64)>,
    k: int,
)
    requires
        0 <= k < sites.len(),
        sites.len() == cells.len(),
        sites_within(sites, columns.len()),
        forall|j: int| k < j < sites.len() ==> (#[trigger] sites[j]).idx != sites[k].idx,
    ensures
        filled(columns, sites, cells, cells.len() as int)[sites[k].idx as int] == Some(
            cell_column(cells[k].0),
        ),
{
    lemma_filled_len(columns, sites, cells, cells.len() as int);
    lemma_filled_at(columns, sites, cells, k, cells.len() as int);
}

proof fn lemma_filled_len(
    columns: Seq<Option<ColumnValue>>,
    sites: Seq<PointerSite>,
    cells: Seq<(FetchedCell, u64)>,
    n: int,
)
    requires
        n <= sites.len(),
        sites_within(sites, columns.len()),
    ensures
        filled(columns, sites, cells, n).len() == columns.len(),
    decreases n,
{
    if n > 0 {
        lemma_filled_len(columns, sites, cells, n - 1);
    }
}

proof fn lemma_filled_at(
    columns: Seq<Option<ColumnValue>>,
    sites: Seq<PointerSite>,
    cells: Seq<(FetchedCell, u64)>,
    k: int,
    n: int,
)
    requires
        0 <= k < n <= sites.len(),
        sites_within(sites, columns.len()),
        forall|j: int| k < j < sites.len() ==> (#[trigger] sites[j]).idx != sites[k].idx,
    ensures
        filled(columns, sites, cells, n)[sites[k].idx as int] == Some(cell_column(cells[k].0)),
    decreases n,
{
    lemma_filled_len(columns, sites, cells, n - 1);
    if k < n - 1 {
        lemma_filled_at(columns, sites, cells, k, n - 1);
        assert(sites[n - 1].idx != sites[k].idx);
    }
}

} // verus!
