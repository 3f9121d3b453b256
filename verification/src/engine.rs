//! The update engine: sweeps of the grid under a chosen update mode,
//! convergence detection, and greedy policy improvement.
//!
//! The mathematics of a sweep is laid out first, as spec functions over the
//! immutable part of a grid (`Grid`) and a sequence of cell values; the
//! executable engine (`GridWorld`) then carries contracts that tie every
//! pass to those functions exactly.

use vstd::prelude::*;
use vstd::arithmetic::div_mod::lemma_fundamental_div_mod;
use vstd::arithmetic::div_mod::lemma_mod_bound;
use crate::config::Action;
use crate::config::Buffering;
use crate::config::Combination;
use crate::config::ConfigError;
use crate::config::Dir;
use crate::config::Family;
use crate::config::GridSpec;
use crate::config::GridSpecView;
use crate::num::add_sat;
use crate::num::mul_prob;
use crate::num::prob_mul;
use crate::num::quarter;
use crate::num::quarter_one;
use crate::num::quarter_sum;
use crate::num::sat_add;
use crate::table::StateTable;
use crate::table::TableView;

verus! {

/// Probability of each of the four default actions (0.25 in fixed point).
pub const QUARTER_PROB: i64 = 16384;

/// Immediate reward of each default action (-1.0 in fixed point).
pub const STEP_COST: i64 = -65536;

/// The immutable part of a grid world: everything a sweep reads besides the
/// cell values themselves.
#[verifier::ext_equal]
pub struct Grid {
    pub num_rows: int,
    pub num_cols: int,
    pub family: Family,
    pub combination: Combination,
    pub terminal: Seq<bool>,
    pub reward: Seq<i64>,
    pub actions: Seq<Seq<Action>>,
}

impl Grid {
    /// Number of cells.
    pub open spec fn len(self) -> int {
        self.num_rows * self.num_cols
    }

    /// Well-formedness: positive dimensions that fit the address space,
    /// columns covering every cell, and the terminal marking consistent
    /// with the state family (a state of the action-grid family is terminal
    /// exactly when its action set is empty; reward-grid states carry no
    /// actions at all).
    pub open spec fn wf(self) -> bool {
        &&& self.num_rows >= 1
        &&& self.num_cols >= 1
        &&& self.len() <= usize::MAX
        &&& self.terminal.len() == self.len()
        &&& self.reward.len() == self.len()
        &&& self.actions.len() == self.len()
        &&& self.family == Family::ActionGrid ==> forall|i: int|
            0 <= i < self.len() ==> (self.terminal[i] <==> (#[trigger] self.actions[i]).len()
                == 0)
        &&& self.family == Family::RewardGrid ==> forall|i: int|
            0 <= i < self.len() ==> (#[trigger] self.actions[i]).len() == 0
    }
}

/// Mathematical image of a whole grid world.
#[verifier::ext_equal]
pub struct Model {
    pub num_rows: int,
    pub num_cols: int,
    pub family: Family,
    pub buffering: Buffering,
    pub combination: Combination,
    pub improve_policy: bool,
    pub table: TableView,
}

/// The immutable part of a model.
pub open spec fn grid_of(m: Model) -> Grid {
    Grid {
        num_rows: m.num_rows,
        num_cols: m.num_cols,
        family: m.family,
        combination: m.combination,
        terminal: m.table.terminal,
        reward: m.table.reward,
        actions: m.table.actions,
    }
}

/// Well-formedness of a model.
pub open spec fn wf(m: Model) -> bool {
    &&& grid_of(m).wf()
    &&& m.table.consistent(grid_of(m).len())
}

/// Row-major index of the cell at (r, c).
pub open spec fn cell_index(g: Grid, r: int, c: int) -> int {
    r * g.num_cols + c
}

/// Row of the cell with row-major index i.
pub open spec fn row_of(g: Grid, i: int) -> int {
    i / g.num_cols
}

/// Column of the cell with row-major index i.
pub open spec fn col_of(g: Grid, i: int) -> int {
    i % g.num_cols
}

/// Row reached from row r by moving in direction d, with wall bounce.
pub open spec fn succ_row(g: Grid, r: int, d: Dir) -> int {
    match d {
        Dir::Up => if r == 0 {
            r
        } else {
            r - 1
        },
        Dir::Down => if r == g.num_rows - 1 {
            r
        } else {
            r + 1
        },
        Dir::Right => r,
        Dir::Left => r,
    }
}

/// Column reached from column c by moving in direction d, with wall bounce.
pub open spec fn succ_col(g: Grid, c: int, d: Dir) -> int {
    match d {
        Dir::Up => c,
        Dir::Down => c,
        Dir::Right => if c == g.num_cols - 1 {
            c
        } else {
            c + 1
        },
        Dir::Left => if c == 0 {
            c
        } else {
            c - 1
        },
    }
}

/// Index of the state whose value backs a move from (r, c) in direction d.
pub open spec fn succ_index(g: Grid, r: int, c: int, d: Dir) -> int {
    cell_index(g, succ_row(g, r, d), succ_col(g, c, d))
}

/// Whether a move from (r, c) in direction d would exit the grid (and so
/// bounces back to (r, c) itself).
pub open spec fn exits_grid(g: Grid, r: int, c: int, d: Dir) -> bool {
    match d {
        Dir::Up => r == 0,
        Dir::Down => r == g.num_rows - 1,
        Dir::Right => c == g.num_cols - 1,
        Dir::Left => c == 0,
    }
}

/// One-step lookahead of an action at (r, c): its immediate reward plus the
/// value of its deterministic successor.
pub open spec fn action_value(g: Grid, vals: Seq<i64>, r: int, c: int, a: Action) -> i64 {
    sat_add(a.reward, vals[succ_index(g, r, c, a.dir)])
}

/// Expected one-step value at (r, c) over a prefix of its action list,
/// accumulated left to right.
pub open spec fn expected_value(g: Grid, vals: Seq<i64>, r: int, c: int, acts: Seq<Action>) -> i64
    decreases acts.len(),
{
    if acts.len() == 0 {
        0
    } else {
        sat_add(
            expected_value(g, vals, r, c, acts.drop_last()),
            prob_mul(acts.last().probability, action_value(g, vals, r, c, acts.last())),
        )
    }
}

/// Greedy scan of a non-empty action list at (r, c): the best one-step
/// lookahead together with the action achieving it; on ties the action seen
/// first in list order wins (strictly greater replaces).
pub open spec fn greedy_choice(g: Grid, vals: Seq<i64>, r: int, c: int, acts: Seq<Action>) -> (
    i64,
    Action,
)
    recommends
        acts.len() >= 1,
    decreases acts.len(),
{
    if acts.len() <= 1 {
        (action_value(g, vals, r, c, acts[0]), acts[0])
    } else {
        let prev = greedy_choice(g, vals, r, c, acts.drop_last());
        let v = action_value(g, vals, r, c, acts.last());
        if v > prev.0 {
            (v, acts.last())
        } else {
            prev
        }
    }
}

/// The larger of two values (the second wins only when strictly greater).
pub open spec fn max_val(a: i64, b: i64) -> i64 {
    if b > a {
        b
    } else {
        a
    }
}

/// Sum of the four neighbor values of (r, c), wall bounce included.
pub open spec fn neighbor_total(g: Grid, vals: Seq<i64>, r: int, c: int) -> int {
    vals[succ_index(g, r, c, Dir::Up)] + vals[succ_index(g, r, c, Dir::Right)] + vals[succ_index(
        g,
        r,
        c,
        Dir::Down,
    )] + vals[succ_index(g, r, c, Dir::Left)]
}

/// Greatest of the four neighbor values of (r, c), wall bounce included.
pub open spec fn neighbor_best(g: Grid, vals: Seq<i64>, r: int, c: int) -> i64 {
    max_val(
        max_val(
            max_val(vals[succ_index(g, r, c, Dir::Up)], vals[succ_index(g, r, c, Dir::Right)]),
            vals[succ_index(g, r, c, Dir::Down)],
        ),
        vals[succ_index(g, r, c, Dir::Left)],
    )
}

/// New value of a reward-grid cell: its ambient reward plus a quarter of
/// the sum (expectation) or of the best (greedy) of its neighbor values.
pub open spec fn reward_target(g: Grid, vals: Seq<i64>, r: int, c: int) -> i64 {
    match g.combination {
        Combination::Expectation => sat_add(
            g.reward[cell_index(g, r, c)],
            quarter(neighbor_total(g, vals, r, c)),
        ),
        Combination::Greedy => sat_add(
            g.reward[cell_index(g, r, c)],
            quarter(neighbor_best(g, vals, r, c) as int),
        ),
    }
}

/// New value of the non-terminal cell with index i, computed from the value
/// sequence `vals`.
pub open spec fn cell_target(g: Grid, vals: Seq<i64>, i: int) -> i64 {
    match g.family {
        Family::RewardGrid => reward_target(g, vals, row_of(g, i), col_of(g, i)),
        Family::ActionGrid => match g.combination {
            Combination::Expectation => expected_value(
                g,
                vals,
                row_of(g, i),
                col_of(g, i),
                g.actions[i],
            ),
            Combination::Greedy => greedy_choice(
                g,
                vals,
                row_of(g, i),
                col_of(g, i),
                g.actions[i],
            ).0,
        },
    }
}

/// Result of a synchronous (two-buffer) sweep: every non-terminal cell's
/// target is computed from the previous sweep's values alone.
pub open spec fn sync_swept(g: Grid, vals: Seq<i64>) -> Seq<i64> {
    Seq::new(
        vals.len(),
        |i: int|
            if g.terminal[i] {
                vals[i]
            } else {
                cell_target(g, vals, i)
            },
    )
}

/// Values after the first k cells of an in-place sweep, visited in
/// row-major index order; later cells see earlier cells' updates.
pub open spec fn in_place_swept(g: Grid, vals: Seq<i64>, k: nat) -> Seq<i64>
    decreases k,
{
    if k == 0 {
        vals
    } else {
        let prev = in_place_swept(g, vals, (k - 1) as nat);
        if g.terminal[k - 1] {
            prev
        } else {
            prev.update(k - 1, cell_target(g, prev, k - 1))
        }
    }
}

/// Values after one full sweep under the given buffering mode.
pub open spec fn swept_values(g: Grid, b: Buffering, vals: Seq<i64>) -> Seq<i64> {
    match b {
        Buffering::Synchronous => sync_swept(g, vals),
        Buffering::InPlace => in_place_swept(g, vals, vals.len()),
    }
}

/// A sweep converged when every non-terminal cell's newly computed value
/// equals, exactly, its value before the sweep.
pub open spec fn sweep_converged(g: Grid, b: Buffering, vals: Seq<i64>) -> bool {
    forall|i: int|
        0 <= i < vals.len() && !g.terminal[i] ==> swept_values(g, b, vals)[i] == vals[i]
}

/// Greedy policies over the given values: every non-terminal cell with a
/// non-empty action set gets the greedy scan's winner; all other cells keep
/// their previous entry.
pub open spec fn greedy_policies(g: Grid, vals: Seq<i64>, policy: Seq<Option<Action>>) -> Seq<
    Option<Action>,
> {
    Seq::new(
        policy.len(),
        |i: int|
            if !g.terminal[i] && g.actions[i].len() > 0 {
                Some(greedy_choice(g, vals, row_of(g, i), col_of(g, i), g.actions[i]).1)
            } else {
                policy[i]
            },
    )
}

/// The model with its value column replaced.
pub open spec fn with_values(m: Model, vals: Seq<i64>) -> Model {
    Model { table: TableView { value: vals, ..m.table }, ..m }
}

/// The model after one greedy policy-improvement pass.
pub open spec fn refreshed(m: Model) -> Model {
    Model {
        table: TableView {
            policy: greedy_policies(grid_of(m), m.table.value, m.table.policy),
            ..m.table
        },
        ..m
    }
}

/// The model after one `step` call: a full sweep, then, if enabled, policy
/// improvement over the new values.
pub open spec fn stepped(m: Model) -> Model {
    let m1 = with_values(m, swept_values(grid_of(m), m.buffering, m.table.value));
    if m.improve_policy {
        refreshed(m1)
    } else {
        m1
    }
}

/// The convergence flag that `step` reports.
pub open spec fn stepped_converged(m: Model) -> bool {
    sweep_converged(grid_of(m), m.buffering, m.table.value)
}

/// The four default actions of a non-terminal action-grid state: one move
/// per direction, each with probability 0.25 and reward -1.0.
pub open spec fn default_actions() -> Seq<Action> {
    seq![
        Action { dir: Dir::Up, probability: QUARTER_PROB, reward: STEP_COST },
        Action { dir: Dir::Right, probability: QUARTER_PROB, reward: STEP_COST },
        Action { dir: Dir::Down, probability: QUARTER_PROB, reward: STEP_COST },
        Action { dir: Dir::Left, probability: QUARTER_PROB, reward: STEP_COST },
    ]
}

/// The action list a freshly built non-terminal state starts with.
pub open spec fn base_actions(f: Family) -> Seq<Action> {
    match f {
        Family::ActionGrid => default_actions(),
        Family::RewardGrid => Seq::empty(),
    }
}

/// Both grid dimensions are positive.
pub open spec fn dims_positive(o: GridSpecView) -> bool {
    o.num_rows >= 1 && o.num_cols >= 1
}

/// The cell count fits the address space.
pub open spec fn dims_fit(o: GridSpecView) -> bool {
    o.num_rows * o.num_cols <= usize::MAX
}

/// Every declared terminal lies inside the grid.
pub open spec fn terminals_in_bounds(o: GridSpecView) -> bool {
    forall|k: int|
        0 <= k < o.terminals.len() ==> (#[trigger] o.terminals[k]).row < o.num_rows
            && o.terminals[k].col < o.num_cols
}

/// A configuration the constructor accepts.
pub open spec fn config_ok(o: GridSpecView) -> bool {
    dims_positive(o) && dims_fit(o) && terminals_in_bounds(o)
}

/// The error a rejected configuration is reported with: the first check
/// that fails, in the order the constructor makes them.
pub open spec fn config_fault(o: GridSpecView) -> ConfigError {
    if !dims_positive(o) {
        ConfigError::ZeroDimension
    } else if !dims_fit(o) {
        ConfigError::TooManyCells
    } else {
        ConfigError::TerminalOutOfBounds
    }
}

/// The table before terminals are applied: no terminal marks, zero rewards
/// and values, no chosen policies, and the family's base action list in
/// every cell.
pub open spec fn init_table_base(o: GridSpecView) -> TableView {
    TableView {
        terminal: Seq::new((o.num_rows * o.num_cols) as nat, |i: int| false),
        reward: Seq::new((o.num_rows * o.num_cols) as nat, |i: int| 0i64),
        actions: Seq::new((o.num_rows * o.num_cols) as nat, |i: int| base_actions(o.family)),
        value: Seq::new((o.num_rows * o.num_cols) as nat, |i: int| 0i64),
        policy: Seq::new((o.num_rows * o.num_cols) as nat, |i: int| None::<Action>),
    }
}

/// The table after the first k declared terminals are applied, in list
/// order: each gets its terminal mark, an empty action set, and its frozen
/// value (also entered as its reward, it being the reward source).
pub open spec fn apply_terminals(t: TableView, o: GridSpecView, k: nat) -> TableView
    decreases k,
{
    if k == 0 {
        t
    } else {
        let prev = apply_terminals(t, o, (k - 1) as nat);
        let term = o.terminals[k - 1];
        let i = (term.row as int) * o.num_cols + (term.col as int);
        TableView {
            terminal: prev.terminal.update(i, true),
            reward: prev.reward.update(i, term.value),
            actions: prev.actions.update(i, Seq::empty()),
            value: prev.value.update(i, term.value),
            policy: prev.policy,
        }
    }
}

/// The model a freshly constructed grid world presents.
pub open spec fn init_model(o: GridSpecView) -> Model {
    Model {
        num_rows: o.num_rows,
        num_cols: o.num_cols,
        family: o.family,
        buffering: o.buffering,
        combination: o.combination,
        improve_policy: o.improve_policy,
        table: apply_terminals(init_table_base(o), o, o.terminals.len()),
    }
}

proof fn lemma_apply_terminals_props(t: TableView, o: GridSpecView, k: nat, len: int)
    requires
        len == o.num_rows * o.num_cols,
        dims_positive(o),
        terminals_in_bounds(o),
        k <= o.terminals.len(),
        t.consistent(len),
        forall|i: int| 0 <= i < len && #[trigger] t.terminal[i] ==> t.actions[i].len() == 0,
        forall|i: int|
            0 <= i < len && !(#[trigger] t.terminal[i]) ==> t.actions[i] == base_actions(o.family),
    ensures
        apply_terminals(t, o, k).consistent(len),
        forall|i: int|
            0 <= i < len && #[trigger] apply_terminals(t, o, k).terminal[i] ==> apply_terminals(
                t,
                o,
                k,
            ).actions[i].len() == 0,
        forall|i: int|
            0 <= i < len && !(#[trigger] apply_terminals(t, o, k).terminal[i]) ==> apply_terminals(
                t,
                o,
                k,
            ).actions[i] == base_actions(o.family),
    decreases k,
{
    if k > 0 {
        lemma_apply_terminals_props(t, o, (k - 1) as nat, len);
        let term = o.terminals[k - 1];
        lemma_cell_index_bounds(o.num_rows, o.num_cols, term.row as int, term.col as int);
    }
}

/// A well-formed configuration constructs a well-formed model.
pub proof fn lemma_init_model_wf(o: GridSpecView)
    requires
        config_ok(o),
    ensures
        wf(init_model(o)),
{
    lemma_apply_terminals_props(
        init_table_base(o),
        o,
        o.terminals.len(),
        o.num_rows * o.num_cols,
    );
    assert(default_actions().len() == 4);
    let g = grid_of(init_model(o));
    let t = apply_terminals(init_table_base(o), o, o.terminals.len());
    assert forall|i: int| 0 <= i < g.len() implies (g.terminal[i] ==> (#[trigger] g.actions[i]).len()
        == 0) && (!g.terminal[i] ==> g.actions[i] == base_actions(o.family)) by {
        assert(g.terminal[i] == t.terminal[i]);
        assert(g.actions[i] == t.actions[i]);
    }
}

/// The capacity test the constructor makes is exactly the bound it needs:
/// `a <= m / b` holds exactly when `a * b <= m`.
proof fn lemma_fits_check(a: int, b: int, m: int)
    requires
        1 <= b,
        0 <= a,
        0 <= m,
    ensures
        a * b <= m <==> a <= m / b,
{
    lemma_fundamental_div_mod(m, b);
    lemma_mod_bound(m, b);
    assert(a * b <= m <==> a <= m / b) by (nonlinear_arith)
        requires
            1 <= b,
            0 <= a,
            0 <= m,
            m == b * (m / b) + (m % b),
            0 <= m % b < b,
    ;
}

/// A row-major cell index stays strictly under the cell count.
pub proof fn lemma_cell_index_bounds(rows: int, cols: int, r: int, c: int)
    requires
        0 <= r < rows,
        0 <= c < cols,
    ensures
        0 <= r * cols + c,
        r * cols + c < rows * cols,
{
    assert(0 <= r * cols + c && r * cols + c < rows * cols) by (nonlinear_arith)
        requires
            0 <= r < rows,
            0 <= c < cols,
    ;
}

/// Splitting a row-major index back into its row and column.
pub proof fn lemma_index_split(rows: int, cols: int, i: int)
    requires
        cols >= 1,
        0 <= i,
        i < rows * cols,
    ensures
        0 <= i / cols < rows,
        0 <= i % cols < cols,
        (i / cols) * cols + (i % cols) == i,
{
    lemma_fundamental_div_mod(i, cols);
    assert(0 <= i / cols < rows && 0 <= i % cols < cols && (i / cols) * cols + (i % cols) == i)
        by (nonlinear_arith)
        requires
            cols >= 1,
            0 <= i,
            i < rows * cols,
            i == cols * (i / cols) + (i % cols),
            0 <= i % cols < cols,
    ;
}

/// The wall-bounce successor of an in-bounds cell is in bounds: no action
/// ever produces an out-of-grid coordinate.
pub proof fn lemma_succ_index_bounds(g: Grid, r: int, c: int, d: Dir)
    requires
        g.num_rows >= 1,
        g.num_cols >= 1,
        0 <= r < g.num_rows,
        0 <= c < g.num_cols,
    ensures
        0 <= succ_index(g, r, c, d) < g.len(),
        0 <= succ_row(g, r, d) < g.num_rows,
        0 <= succ_col(g, c, d) < g.num_cols,
{
    lemma_cell_index_bounds(g.num_rows, g.num_cols, succ_row(g, r, d), succ_col(g, c, d));
}

/// A `step` leaves the model well formed.
pub proof fn lemma_stepped_wf(m: Model)
    requires
        wf(m),
    ensures
        wf(stepped(m)),
        grid_of(stepped(m)) == grid_of(m),
        stepped(m).buffering == m.buffering,
        stepped(m).improve_policy == m.improve_policy,
        stepped(m).table.value == swept_values(grid_of(m), m.buffering, m.table.value),
{
    let g = grid_of(m);
    if m.buffering == Buffering::InPlace {
        lemma_in_place_len(g, m.table.value, m.table.value.len());
    }
    assert(grid_of(stepped(m)) =~= g);
}

/// An in-place sweep never changes the number of cells.
pub proof fn lemma_in_place_len(g: Grid, vals: Seq<i64>, k: nat)
    requires
        k <= vals.len(),
    ensures
        in_place_swept(g, vals, k).len() == vals.len(),
    decreases k,
{
    if k > 0 {
        lemma_in_place_len(g, vals, (k - 1) as nat);
    }
}

/// Cells not yet visited, and terminal cells, still hold their pre-sweep
/// value after the first k cells of an in-place sweep.
pub proof fn lemma_in_place_untouched(g: Grid, vals: Seq<i64>, k: nat, i: int)
    requires
        k <= vals.len(),
        0 <= i < vals.len(),
        i >= k || g.terminal[i],
    ensures
        in_place_swept(g, vals, k)[i] == vals[i],
    decreases k,
{
    if k > 0 {
        lemma_in_place_untouched(g, vals, (k - 1) as nat, i);
        lemma_in_place_len(g, vals, (k - 1) as nat);
    }
}

/// Once a cell has been visited, a longer in-place prefix agrees with the
/// shorter one on it: each cell is written at most once per sweep.
pub proof fn lemma_in_place_stable(g: Grid, vals: Seq<i64>, k1: nat, k2: nat, i: int)
    requires
        k1 <= k2,
        k2 <= vals.len(),
        0 <= i < k1,
    ensures
        in_place_swept(g, vals, k2)[i] == in_place_swept(g, vals, k1)[i],
    decreases k2,
{
    if k2 > k1 {
        lemma_in_place_stable(g, vals, k1, (k2 - 1) as nat, i);
        lemma_in_place_len(g, vals, (k2 - 1) as nat);
    }
}

/// The update engine together with the state table it owns.
pub struct GridWorld {
    num_rows: usize,
    num_cols: usize,
    family: Family,
    buffering: Buffering,
    combination: Combination,
    improve_policy: bool,
    table: StateTable,
}

impl View for GridWorld {
    type V = Model;

    closed spec fn view(&self) -> Model {
        Model {
            num_rows: self.num_rows as int,
            num_cols: self.num_cols as int,
            family: self.family,
            buffering: self.buffering,
            combination: self.combination,
            improve_policy: self.improve_policy,
            table: self.table@,
        }
    }
}

impl GridWorld {
    /// Well-formedness of the engine: its model is well formed and the
    /// staging buffer covers every cell.
    pub closed spec fn wf(self) -> bool {
        &&& wf(self@)
        &&& self.table.staging_consistent(grid_of(self@).len())
    }

    /// The TransitionModel: the coordinate whose current value backs a move
    /// from (row, col) in direction d. A move that would exit the grid
    /// bounces back: the destination is (row, col) itself, never an error.
    pub fn successor(&self, row: usize, col: usize, d: Dir) -> (rc: (usize, usize))
        requires
            self.wf(),
            row < self@.num_rows,
            col < self@.num_cols,
        ensures
            rc.0 == succ_row(grid_of(self@), row as int, d),
            rc.1 == succ_col(grid_of(self@), col as int, d),
            rc.0 < self@.num_rows,
            rc.1 < self@.num_cols,
            exits_grid(grid_of(self@), row as int, col as int, d) ==> rc == (row, col),
    {
        match d {
            Dir::Up => if row == 0 {
                (row, col)
            } else {
                (row - 1, col)
            },
            Dir::Down => if row == self.num_rows - 1 {
                (row, col)
            } else {
                (row + 1, col)
            },
            Dir::Right => if col == self.num_cols - 1 {
                (row, col)
            } else {
                (row, col + 1)
            },
            Dir::Left => if col == 0 {
                (row, col)
            } else {
                (row, col - 1)
            },
        }
    }

    /// One-step lookahead of an action from (row, col): immediate reward
    /// plus the current value of the wall-bounce successor.
    fn get_action_value(&self, row: usize, col: usize, a: &Action) -> (v: i64)
        requires
            self.wf(),
            row < self@.num_rows,
            col < self@.num_cols,
        ensures
            v == action_value(grid_of(self@), self@.table.value, row as int, col as int, *a),
    {
        let (sr, sc) = self.successor(row, col, a.dir);
        proof {
            lemma_cell_index_bounds(self@.num_rows, self@.num_cols, sr as int, sc as int);
        }
        let si = sr * self.num_cols + sc;
        add_sat(a.reward, self.table.value[si])
    }

    /// Expected one-step value of the cell at (row, col) under its action
    /// distribution, accumulated in action-list order.
    #[verifier::loop_isolation(false)]
    fn get_expected_value(&self, row: usize, col: usize, i: usize) -> (v: i64)
        requires
            self.wf(),
            row < self@.num_rows,
            col < self@.num_cols,
            i == cell_index(grid_of(self@), row as int, col as int),
        ensures
            v == expected_value(
                grid_of(self@),
                self@.table.value,
                row as int,
                col as int,
                grid_of(self@).actions[i as int],
            ),
    {
        proof {
            lemma_cell_index_bounds(self@.num_rows, self@.num_cols, row as int, col as int);
        }
        let ghost g = grid_of(self@);
        let acts: &Vec<Action> = &self.table.actions[i];
        proof {
            assert(acts@ == g.actions[i as int]);
            assert(acts@.take(0) =~= Seq::<Action>::empty());
        }
        let mut v: i64 = 0;
        let mut j: usize = 0;
        while j < acts.len()
            invariant
                j <= acts@.len(),
                v == expected_value(g, self@.table.value, row as int, col as int, acts@.take(j as int)),
            decreases acts@.len() - j,
        {
            let a = acts[j];
            let q = self.get_action_value(row, col, &a);
            let w = mul_prob(a.probability, q);
            v = add_sat(v, w);
            proof {
                assert(acts@.take(j + 1).drop_last() =~= acts@.take(j as int));
                assert(acts@.take(j + 1).last() == acts@[j as int]);
            }
            j += 1;
        }
        proof {
            assert(acts@.take(acts@.len() as int) =~= acts@);
        }
        v
    }

    /// Greedy scan of the cell at (row, col): best one-step lookahead and
    /// the first action in list order achieving it.
    #[verifier::loop_isolation(false)]
    fn get_greedy_pair(&self, row: usize, col: usize, i: usize) -> (r: (i64, Action))
        requires
            self.wf(),
            row < self@.num_rows,
            col < self@.num_cols,
            i == cell_index(grid_of(self@), row as int, col as int),
            grid_of(self@).actions[i as int].len() > 0,
        ensures
            r == greedy_choice(
                grid_of(self@),
                self@.table.value,
                row as int,
                col as int,
                grid_of(self@).actions[i as int],
            ),
    {
        proof {
            lemma_cell_index_bounds(self@.num_rows, self@.num_cols, row as int, col as int);
        }
        let ghost g = grid_of(self@);
        let acts: &Vec<Action> = &self.table.actions[i];
        proof {
            assert(acts@ == g.actions[i as int]);
        }
        let a0 = acts[0];
        let mut best_v = self.get_action_value(row, col, &a0);
        let mut best_a = a0;
        proof {
            assert(acts@.take(1)[0] == acts@[0]);
        }
        let mut j: usize = 1;
        while j < acts.len()
            invariant
                1 <= j <= acts@.len(),
                best_v == greedy_choice(g, self@.table.value, row as int, col as int, acts@.take(j as int)).0,
                best_a == greedy_choice(g, self@.table.value, row as int, col as int, acts@.take(j as int)).1,
            decreases acts@.len() - j,
        {
            let a = acts[j];
            let q = self.get_action_value(row, col, &a);
            proof {
                assert(acts@.take(j + 1).drop_last() =~= acts@.take(j as int));
                assert(acts@.take(j + 1).last() == acts@[j as int]);
            }
            if q > best_v {
                best_v = q;
                best_a = a;
            }
            j += 1;
        }
        proof {
            assert(acts@.take(acts@.len() as int) =~= acts@);
        }
        (best_v, best_a)
    }

    /// New value of the reward-grid cell at (row, col): its ambient reward
    /// plus a quarter of the sum or of the best of its neighbor values.
    fn get_reward_value(&self, row: usize, col: usize, i: usize) -> (v: i64)
        requires
            self.wf(),
            row < self@.num_rows,
            col < self@.num_cols,
            i == cell_index(grid_of(self@), row as int, col as int),
        ensures
            v == reward_target(grid_of(self@), self@.table.value, row as int, col as int),
    {
        proof {
            lemma_cell_index_bounds(self@.num_rows, self@.num_cols, row as int, col as int);
        }
        let vu = self.neighbor_value(row, col, Dir::Up);
        let vr = self.neighbor_value(row, col, Dir::Right);
        let vd = self.neighbor_value(row, col, Dir::Down);
        let vl = self.neighbor_value(row, col, Dir::Left);
        let base = self.table.reward[i];
        match self.combination {
            Combination::Expectation => add_sat(base, quarter_sum(vu, vr, vd, vl)),
            Combination::Greedy => {
                let mut mx = vu;
                if vr > mx {
                    mx = vr;
                }
                if vd > mx {
                    mx = vd;
                }
                if vl > mx {
                    mx = vl;
                }
                add_sat(base, quarter_one(mx))
            },
        }
    }

    /// Current value of the wall-bounce neighbor of (row, col) in
    /// direction d.
    fn neighbor_value(&self, row: usize, col: usize, d: Dir) -> (v: i64)
        requires
            self.wf(),
            row < self@.num_rows,
            col < self@.num_cols,
        ensures
            v == self@.table.value[succ_index(grid_of(self@), row as int, col as int, d)],
    {
        let (sr, sc) = self.successor(row, col, d);
        proof {
            lemma_cell_index_bounds(self@.num_rows, self@.num_cols, sr as int, sc as int);
        }
        let si = sr * self.num_cols + sc;
        self.table.value[si]
    }

    /// New value of the non-terminal cell with row-major index i, under the
    /// configured family and combination mode.
    fn compute_value(&self, i: usize) -> (v: i64)
        requires
            self.wf(),
            i < grid_of(self@).len(),
            !self@.table.terminal[i as int],
        ensures
            v == cell_target(grid_of(self@), self@.table.value, i as int),
    {
        proof {
            lemma_index_split(self@.num_rows, self@.num_cols, i as int);
        }
        let row = i / self.num_cols;
        let col = i % self.num_cols;
        match self.family {
            Family::RewardGrid => self.get_reward_value(row, col, i),
            Family::ActionGrid => match self.combination {
                Combination::Expectation => self.get_expected_value(row, col, i),
                Combination::Greedy => {
                    let p = self.get_greedy_pair(row, col, i);
                    p.0
                },
            },
        }
    }

    /// One sweep of the grid under the configured modes, followed, if
    /// enabled, by a policy-improvement pass over the new values.
    ///
    /// Returns true exactly when the sweep converged: every non-terminal
    /// cell's newly computed value equals, bit for bit, its value before
    /// the sweep. Terminal cells are skipped by every pass; their fields
    /// stay frozen.
    #[verifier::loop_isolation(false)]
    pub fn step(&mut self) -> (converged: bool)
        requires
            old(self).wf(),
        ensures
            final(self).wf(),
            final(self)@ == stepped(old(self)@),
            converged == stepped_converged(old(self)@),
    {
        let ghost m0 = self@;
        let ghost g = grid_of(m0);
        let ghost vals0 = m0.table.value;
        let n = self.table.value.len();
        let mut converged = true;
        let mut i: usize = 0;

        // Compute pass: visit every cell in row-major index order.
        while i < n
            invariant
                i <= n,
                n == g.len(),
                self.wf(),
                grid_of(self@) == g,
                self@.buffering == m0.buffering,
                self@.improve_policy == m0.improve_policy,
                self@.table.policy == m0.table.policy,
                match m0.buffering {
                    Buffering::Synchronous => self@.table.value == vals0 && forall|j: int|
                        0 <= j < i && !g.terminal[j] ==> self.table.next_value@[j] == sync_swept(
                            g,
                            vals0,
                        )[j],
                    Buffering::InPlace => self@.table.value == in_place_swept(g, vals0, i as nat),
                },
                converged <==> (forall|j: int|
                    0 <= j < i && !g.terminal[j] ==> swept_values(g, m0.buffering, vals0)[j]
                        == vals0[j]),
            decreases n - i,
        {
            let term = self.table.terminal[i];
            if !term {
                proof {
                    if m0.buffering == Buffering::InPlace {
                        lemma_in_place_len(g, vals0, i as nat);
                        lemma_in_place_untouched(g, vals0, i as nat, i as int);
                    }
                }
                let v = self.compute_value(i);
                let ghost cur = self@.table.value;
                let old_vi = self.table.value[i];
                if v != old_vi {
                    converged = false;
                }
                match self.buffering {
                    Buffering::Synchronous => self.table.next_value.set(i, v),
                    Buffering::InPlace => self.table.value.set(i, v),
                }
                proof {
                    if m0.buffering == Buffering::InPlace {
                        assert(in_place_swept(g, vals0, (i + 1) as nat) == cur.update(
                            i as int,
                            cell_target(g, cur, i as int),
                        ));
                        lemma_in_place_stable(g, vals0, (i + 1) as nat, n as nat, i as int);
                    }
                    assert(swept_values(g, m0.buffering, vals0)[i as int] == v);
                }
            } else {
                proof {
                    if m0.buffering == Buffering::InPlace {
                        assert(in_place_swept(g, vals0, (i + 1) as nat) == in_place_swept(
                            g,
                            vals0,
                            i as nat,
                        ));
                    }
                }
            }
            i += 1;
        }

        // Commit pass: under synchronous buffering only, copy the staged
        // values of the non-terminal cells into the value column.
        match self.buffering {
            Buffering::Synchronous => {
                let ghost nv = self.table.next_value@;
                let mut k: usize = 0;
                while k < n
                    invariant
                        k <= n,
                        n == g.len(),
                        self.wf(),
                        grid_of(self@) == g,
                        self@.buffering == m0.buffering,
                        m0.buffering == Buffering::Synchronous,
                        self@.improve_policy == m0.improve_policy,
                        self@.table.policy == m0.table.policy,
                        self.table.next_value@ == nv,
                        forall|j: int|
                            0 <= j < n && !g.terminal[j] ==> nv[j] == sync_swept(g, vals0)[j],
                        forall|j: int|
                            0 <= j < n ==> self@.table.value[j] == (if j < k {
                                sync_swept(g, vals0)[j]
                            } else {
                                vals0[j]
                            }),
                    decreases n - k,
                {
                    if !self.table.terminal[k] {
                        let w = self.table.next_value[k];
                        self.table.value.set(k, w);
                    }
                    k += 1;
                }
                proof {
                    assert(self@.table.value =~= sync_swept(g, vals0));
                }
            },
            Buffering::InPlace => {},
        }

        proof {
            assert(self@ =~= with_values(m0, swept_values(g, m0.buffering, vals0)));
        }
        let ghost m1 = self@;
        if self.improve_policy {
            self.refresh();
            proof {
                assert(stepped(m0) == refreshed(m1));
            }
        }
        converged
    }

    /// The PolicyImprover: recompute the greedy action of every
    /// non-terminal state with a non-empty action set, from the current
    /// values; every other cell keeps its policy entry. Has no effect on
    /// values or on terminal states.
    #[verifier::loop_isolation(false)]
    pub fn refresh(&mut self)
        requires
            old(self).wf(),
        ensures
            final(self).wf(),
            final(self)@ == refreshed(old(self)@),
    {
        let ghost m = self@;
        let ghost g = grid_of(m);
        let n = self.table.policy.len();
        let mut i: usize = 0;
        while i < n
            invariant
                i <= n,
                n == g.len(),
                self.wf(),
                grid_of(self@) == g,
                self@.buffering == m.buffering,
                self@.improve_policy == m.improve_policy,
                self@.table.value == m.table.value,
                forall|j: int|
                    0 <= j < n ==> self@.table.policy[j] == (if j < i {
                        greedy_policies(g, m.table.value, m.table.policy)[j]
                    } else {
                        m.table.policy[j]
                    }),
            decreases n - i,
        {
            let term = self.table.terminal[i];
            if !term && self.table.actions[i].len() > 0 {
                proof {
                    lemma_index_split(self@.num_rows, self@.num_cols, i as int);
                }
                let row = i / self.num_cols;
                let col = i % self.num_cols;
                let pr = self.get_greedy_pair(row, col, i);
                self.table.policy.set(i, Some(pr.1));
            }
            i += 1;
        }
        proof {
            assert(self@.table.policy =~= greedy_policies(g, m.table.value, m.table.policy));
            assert(self@ =~= refreshed(m));
        }
    }

    /// Build a grid world from its configuration, or reject it: a zero
    /// dimension, a cell count beyond the address space, or a terminal
    /// outside the grid each names its own error, reported in that order.
    #[verifier::loop_isolation(false)]
    pub fn new(options: GridSpec) -> (r: Result<GridWorld, ConfigError>)
        ensures
            config_ok(options@) ==> (r matches Ok(w) && w.wf() && w@ == init_model(options@)),
            !config_ok(options@) ==> (r matches Err(e) && e == config_fault(options@)),
    {
        let ghost o = options@;
        if options.num_rows == 0 || options.num_cols == 0 {
            return Err(ConfigError::ZeroDimension);
        }
        proof {
            lemma_fits_check(o.num_rows, o.num_cols, usize::MAX as int);
        }
        if options.num_rows > usize::MAX / options.num_cols {
            return Err(ConfigError::TooManyCells);
        }
        let len = options.num_rows * options.num_cols;

        let mut k: usize = 0;
        while k < options.terminals.len()
            invariant
                k <= o.terminals.len(),
                forall|j: int|
                    0 <= j < k ==> (#[trigger] o.terminals[j]).row < o.num_rows
                        && o.terminals[j].col < o.num_cols,
            decreases o.terminals.len() - k,
        {
            let t = options.terminals[k];
            if t.row >= options.num_rows || t.col >= options.num_cols {
                return Err(ConfigError::TerminalOutOfBounds);
            }
            k += 1;
        }
        assert(config_ok(o));

        let mut terminal: Vec<bool> = Vec::new();
        let mut reward: Vec<i64> = Vec::new();
        let mut actions: Vec<Vec<Action>> = Vec::new();
        let mut value: Vec<i64> = Vec::new();
        let mut next_value: Vec<i64> = Vec::new();
        let mut policy: Vec<Option<Action>> = Vec::new();
        let mut c: usize = 0;
        while c < len
            invariant
                c <= len,
                terminal@.len() == c,
                reward@.len() == c,
                actions@.len() == c,
                value@.len() == c,
                next_value@.len() == c,
                policy@.len() == c,
                forall|j: int| 0 <= j < c ==> terminal@[j] == false,
                forall|j: int| 0 <= j < c ==> reward@[j] == 0i64,
                forall|j: int| 0 <= j < c ==> (#[trigger] actions@[j])@ == base_actions(o.family),
                forall|j: int| 0 <= j < c ==> value@[j] == 0i64,
                forall|j: int| 0 <= j < c ==> policy@[j] == None::<Action>,
            decreases len - c,
        {
            terminal.push(false);
            reward.push(0);
            match options.family {
                Family::ActionGrid => actions.push(GridWorld::default_action_vec()),
                Family::RewardGrid => actions.push(Vec::new()),
            }
            value.push(0);
            next_value.push(0);
            policy.push(None);
            c += 1;
        }

        let ghost base = init_table_base(o);
        proof {
            assert(terminal@ =~= base.terminal);
            assert(reward@ =~= base.reward);
            assert(Seq::new(actions@.len(), |i: int| actions@[i]@) =~= base.actions);
            assert(value@ =~= base.value);
            assert(policy@ =~= base.policy);
        }

        let mut k2: usize = 0;
        while k2 < options.terminals.len()
            invariant
                k2 <= o.terminals.len(),
                terminal@ == apply_terminals(base, o, k2 as nat).terminal,
                reward@ == apply_terminals(base, o, k2 as nat).reward,
                Seq::new(actions@.len(), |i: int| actions@[i]@) == apply_terminals(
                    base,
                    o,
                    k2 as nat,
                ).actions,
                value@ == apply_terminals(base, o, k2 as nat).value,
                policy@ == apply_terminals(base, o, k2 as nat).policy,
                terminal@.len() == len,
                reward@.len() == len,
                actions@.len() == len,
                value@.len() == len,
                next_value@.len() == len,
                policy@.len() == len,
            decreases o.terminals.len() - k2,
        {
            let t = options.terminals[k2];
            proof {
                lemma_cell_index_bounds(o.num_rows, o.num_cols, t.row as int, t.col as int);
            }
            let ti = t.row * options.num_cols + t.col;
            terminal.set(ti, true);
            reward.set(ti, t.value);
            actions.set(ti, Vec::new());
            value.set(ti, t.value);
            proof {
                assert(Seq::new(actions@.len(), |i: int| actions@[i]@) =~= apply_terminals(
                    base,
                    o,
                    (k2 + 1) as nat,
                ).actions);
            }
            k2 += 1;
        }

        let w = GridWorld {
            num_rows: options.num_rows,
            num_cols: options.num_cols,
            family: options.family,
            buffering: options.buffering,
            combination: options.combination,
            improve_policy: options.improve_policy,
            table: StateTable { terminal, reward, actions, value, next_value, policy },
        };
        proof {
            assert(w@.table =~= apply_terminals(base, o, o.terminals.len()));
            assert(w@ =~= init_model(o));
            lemma_init_model_wf(o);
        }
        Ok(w)
    }

    /// The action list every non-terminal action-grid state starts with.
    fn default_action_vec() -> (v: Vec<Action>)
        ensures
            v@ == default_actions(),
    {
        let mut v: Vec<Action> = Vec::new();
        v.push(Action { dir: Dir::Up, probability: QUARTER_PROB, reward: STEP_COST });
        v.push(Action { dir: Dir::Right, probability: QUARTER_PROB, reward: STEP_COST });
        v.push(Action { dir: Dir::Down, probability: QUARTER_PROB, reward: STEP_COST });
        v.push(Action { dir: Dir::Left, probability: QUARTER_PROB, reward: STEP_COST });
        proof {
            assert(v@ =~= default_actions());
        }
        v
    }

    /// Number of rows.
    pub fn num_rows(&self) -> (r: usize)
        ensures
            r as int == self@.num_rows,
    {
        self.num_rows
    }

    /// Number of columns.
    pub fn num_cols(&self) -> (r: usize)
        ensures
            r as int == self@.num_cols,
    {
        self.num_cols
    }

    /// The active state family.
    pub fn family(&self) -> (f: Family)
        ensures
            f == self@.family,
    {
        self.family
    }

    /// The active buffering mode.
    pub fn buffering(&self) -> (b: Buffering)
        ensures
            b == self@.buffering,
    {
        self.buffering
    }

    /// The active value-combination mode.
    pub fn combination(&self) -> (c: Combination)
        ensures
            c == self@.combination,
    {
        self.combination
    }

    /// Whether each sweep is followed by a policy-improvement pass.
    pub fn improves_policy(&self) -> (b: bool)
        ensures
            b == self@.improve_policy,
    {
        self.improve_policy
    }

    /// Current value estimate of the cell at (row, col).
    pub fn value_at(&self, row: usize, col: usize) -> (v: i64)
        requires
            self.wf(),
            row < self@.num_rows,
            col < self@.num_cols,
        ensures
            v == self@.table.value[cell_index(grid_of(self@), row as int, col as int)],
    {
        proof {
            lemma_cell_index_bounds(self@.num_rows, self@.num_cols, row as int, col as int);
        }
        self.table.value[row * self.num_cols + col]
    }

    /// Currently selected action of the cell at (row, col); None while no
    /// greedy pass has chosen one (or the state carries no actions).
    pub fn policy_at(&self, row: usize, col: usize) -> (p: Option<Action>)
        requires
            self.wf(),
            row < self@.num_rows,
            col < self@.num_cols,
        ensures
            p == self@.table.policy[cell_index(grid_of(self@), row as int, col as int)],
    {
        proof {
            lemma_cell_index_bounds(self@.num_rows, self@.num_cols, row as int, col as int);
        }
        self.table.policy[row * self.num_cols + col]
    }

    /// Whether the cell at (row, col) is terminal: excluded from every
    /// update pass, its fields frozen since construction.
    pub fn is_terminal(&self, row: usize, col: usize) -> (t: bool)
        requires
            self.wf(),
            row < self@.num_rows,
            col < self@.num_cols,
        ensures
            t == self@.table.terminal[cell_index(grid_of(self@), row as int, col as int)],
    {
        proof {
            lemma_cell_index_bounds(self@.num_rows, self@.num_cols, row as int, col as int);
        }
        self.table.terminal[row * self.num_cols + col]
    }
}

} // verus!
