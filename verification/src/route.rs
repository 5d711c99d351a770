//! A relation's route, frozen at planning.
use vstd::prelude::*;

use crate::mapping::{SystemColumns, TableMapping};
use crate::plan::ColumnTypes;

verus! {

/// Everything that shipping a relation's rows depends on. One transaction's
/// rows share one version.
#[derive(Debug)]
pub struct RouteSnapshot {
    pub mapping: TableMapping,
    /// What is known of each mapped column's types.
    pub types: Vec<ColumnTypes>,
    pub system: SystemColumns,
    /// Deletes have nowhere to land and are dropped.
    pub drops_deletes: bool,
}

impl RouteSnapshot {
    pub open spec fn wf(&self) -> bool {
        self.types@.len() == self.mapping.columns@.len()
    }
}

} // verus!
