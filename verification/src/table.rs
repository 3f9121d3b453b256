//! The state table: per-cell numeric fields of the grid, stored as parallel
//! columns over the row-major cell index `row * num_cols + col`.
//!
//! `next_value` is a staging buffer, meaningful only between the compute and
//! commit phases of a synchronous sweep; it is therefore not part of the
//! table's mathematical view.

use vstd::prelude::*;
use crate::config::Action;

verus! {

/// Owns all mutable numeric state of a grid world.
pub struct StateTable {
    pub terminal: Vec<bool>,
    pub reward: Vec<i64>,
    pub actions: Vec<Vec<Action>>,
    pub value: Vec<i64>,
    pub next_value: Vec<i64>,
    pub policy: Vec<Option<Action>>,
}

/// Mathematical image of a `StateTable`: one sequence per field, all of the
/// same length, the staging buffer omitted.
#[verifier::ext_equal]
pub struct TableView {
    pub terminal: Seq<bool>,
    pub reward: Seq<i64>,
    pub actions: Seq<Seq<Action>>,
    pub value: Seq<i64>,
    pub policy: Seq<Option<Action>>,
}

impl View for StateTable {
    type V = TableView;

    open spec fn view(&self) -> TableView {
        TableView {
            terminal: self.terminal@,
            reward: self.reward@,
            actions: Seq::new(self.actions@.len(), |i: int| self.actions@[i]@),
            value: self.value@,
            policy: self.policy@,
        }
    }
}

impl TableView {
    /// All columns cover the same cells.
    pub open spec fn consistent(self, len: int) -> bool {
        &&& self.terminal.len() == len
        &&& self.reward.len() == len
        &&& self.actions.len() == len
        &&& self.value.len() == len
        &&& self.policy.len() == len
    }
}

impl StateTable {
    /// The staging buffer covers the same cells as the table's view.
    pub open spec fn staging_consistent(self, len: int) -> bool {
        self.next_value@.len() == len
    }
}

} // verus!
