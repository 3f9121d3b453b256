//! Configuration of a grid world: dimensions, state family, update mode,
//! terminal placement, and the actions themselves.

use vstd::prelude::*;

verus! {

/// A move direction; the four-connected grid knows no others.
#[derive(Clone, Copy, PartialEq, Eq, Structural, Debug)]
pub enum Dir {
    Up,
    Right,
    Down,
    Left,
}

/// One action of a state: a direction together with the weight it carries
/// under the evaluated distribution and the immediate reward of taking it.
/// Both numbers are fixed-point counts of `1/SCALE`.
#[derive(Clone, Copy, PartialEq, Eq, Structural, Debug)]
pub struct Action {
    pub dir: Dir,
    pub probability: i64,
    pub reward: i64,
}

/// Which per-state data drives a sweep: a scalar ambient reward with
/// four-neighbor averaging, or an explicit action list.
#[derive(Clone, Copy, PartialEq, Eq, Structural, Debug)]
pub enum Family {
    RewardGrid,
    ActionGrid,
}

/// How a sweep commits its results: into a staging buffer that is copied
/// once all cells are computed, or directly into the value table in
/// row-major order.
#[derive(Clone, Copy, PartialEq, Eq, Structural, Debug)]
pub enum Buffering {
    Synchronous,
    InPlace,
}

/// How a cell's new value is combined from its one-step lookaheads: an
/// expectation under the fixed distribution, or a greedy maximum.
#[derive(Clone, Copy, PartialEq, Eq, Structural, Debug)]
pub enum Combination {
    Expectation,
    Greedy,
}

/// The classic named presets, each a point on the two mode axes.
#[derive(Clone, Copy, PartialEq, Eq, Structural, Debug)]
pub enum Policy {
    Iteration,
    IterationInPlace,
    ValueIteration,
}

impl Policy {
    /// The buffering mode a preset stands for.
    pub open spec fn buffering_of(self) -> Buffering {
        match self {
            Policy::Iteration => Buffering::Synchronous,
            Policy::IterationInPlace => Buffering::InPlace,
            Policy::ValueIteration => Buffering::Synchronous,
        }
    }

    /// The value-combination mode a preset stands for.
    pub open spec fn combination_of(self) -> Combination {
        match self {
            Policy::Iteration => Combination::Expectation,
            Policy::IterationInPlace => Combination::Expectation,
            Policy::ValueIteration => Combination::Greedy,
        }
    }

    pub fn buffering(&self) -> (b: Buffering)
        ensures
            b == self.buffering_of(),
    {
        match self {
            Policy::Iteration => Buffering::Synchronous,
            Policy::IterationInPlace => Buffering::InPlace,
            Policy::ValueIteration => Buffering::Synchronous,
        }
    }

    pub fn combination(&self) -> (c: Combination)
        ensures
            c == self.combination_of(),
    {
        match self {
            Policy::Iteration => Combination::Expectation,
            Policy::IterationInPlace => Combination::Expectation,
            Policy::ValueIteration => Combination::Greedy,
        }
    }
}

/// One terminal cell: its coordinate and the value it is frozen at (which
/// also serves as its reward entry, it being the reward source).
#[derive(Clone, Copy, PartialEq, Eq, Structural, Debug)]
pub struct Terminal {
    pub row: usize,
    pub col: usize,
    pub value: i64,
}

/// Immutable description of a grid world, fixed at construction.
pub struct GridSpec {
    pub num_rows: usize,
    pub num_cols: usize,
    pub family: Family,
    pub buffering: Buffering,
    pub combination: Combination,
    pub improve_policy: bool,
    pub terminals: Vec<Terminal>,
}

/// Mathematical image of a `GridSpec`.
#[verifier::ext_equal]
pub struct GridSpecView {
    pub num_rows: int,
    pub num_cols: int,
    pub family: Family,
    pub buffering: Buffering,
    pub combination: Combination,
    pub improve_policy: bool,
    pub terminals: Seq<Terminal>,
}

impl View for GridSpec {
    type V = GridSpecView;

    open spec fn view(&self) -> GridSpecView {
        GridSpecView {
            num_rows: self.num_rows as int,
            num_cols: self.num_cols as int,
            family: self.family,
            buffering: self.buffering,
            combination: self.combination,
            improve_policy: self.improve_policy,
            terminals: self.terminals@,
        }
    }
}

/// Why a configuration was rejected at construction.
#[derive(Clone, Copy, PartialEq, Eq, Structural, Debug)]
pub enum ConfigError {
    /// A grid dimension is zero.
    ZeroDimension,
    /// The cell count does not fit the address space.
    TooManyCells,
    /// A terminal coordinate lies outside the grid.
    TerminalOutOfBounds,
}

} // verus!
