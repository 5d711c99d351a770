//! Decoded heap rows.
use vstd::prelude::*;

use crate::schema::{HeapOp, RelFileNode};
use crate::values::ColumnValue;

verus! {

/// One image of a row; `None` columns were not logged.
#[derive(Debug)]
pub struct DecodedTuple {
    pub columns: Vec<Option<ColumnValue>>,
    /// Some columns are missing because they did not change.
    pub partial: bool,
}

#[derive(Debug)]
pub struct DecodedHeap {
    pub rfn: RelFileNode,
    pub xid: u32,
    pub source_lsn: u64,
    pub op: HeapOp,
    pub new: Option<DecodedTuple>,
    pub old: Option<DecodedTuple>,
}

#[derive(Debug)]
pub struct CommittedTuple {
    pub decoded: DecodedHeap,
    /// Microseconds since 2000-01-01.
    pub commit_ts: i64,
    pub commit_lsn: u64,
}

impl DecodedHeap {
    /// The image that is shipped: the old one of a delete, else the new one.
    pub open spec fn side(&self) -> Option<DecodedTuple> {
        if self.op == HeapOp::Delete {
            self.old
        } else {
            self.new
        }
    }

    /// The shipped value of source column `attnum`, if it was logged.
    pub open spec fn value(&self, attnum: i16) -> Option<ColumnValue> {
        match self.side() {
            Some(t) => if 1 <= attnum <= t.columns@.len() {
                t.columns@[attnum - 1]
            } else {
                None
            },
            None => None,
        }
    }

    pub fn value_of(&self, attnum: i16) -> (r: Option<&ColumnValue>)
        ensures
            match r {
                Some(v) => self.value(attnum) == Some(*v),
                None => self.value(attnum) is None,
            },
    {
        let side: &Option<DecodedTuple> = match self.op {
            HeapOp::Delete => &self.old,
            _ => &self.new,
        };
        match side {
            None => None,
            Some(t) => {
                if attnum < 1 {
                    return None;
                }
                let idx: usize = (attnum - 1) as usize;
                if idx >= t.columns.len() {
                    return None;
                }
                t.columns[idx].as_ref()
            },
        }
    }
}

} // verus!
