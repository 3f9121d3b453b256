//! Laws of the update engine, stated over the model and proved once and
//! for all: determinism, terminal invariance, synchronous isolation,
//! boundary self-loops, convergence as a fixed point, idempotence of
//! policy improvement, agreement of identically configured runs, and
//! monotone convergence of in-place averaging sweeps from a sub-solution.

use vstd::prelude::*;
use crate::config::Action;
use crate::config::Buffering;
use crate::config::Combination;
use crate::config::Dir;
use crate::config::Family;
use crate::config::GridSpecView;
use crate::engine::Grid;
use crate::engine::Model;
use crate::engine::action_value;
use crate::engine::apply_terminals;
use crate::engine::cell_index;
use crate::engine::cell_target;
use crate::engine::col_of;
use crate::engine::config_ok;
use crate::engine::dims_positive;
use crate::engine::exits_grid;
use crate::engine::greedy_choice;
use crate::engine::greedy_policies;
use crate::engine::grid_of;
use crate::engine::in_place_swept;
use crate::engine::init_model;
use crate::engine::init_table_base;
use crate::engine::lemma_cell_index_bounds;
use crate::engine::lemma_in_place_len;
use crate::engine::lemma_in_place_stable;
use crate::engine::lemma_in_place_untouched;
use crate::engine::lemma_index_split;
use crate::engine::lemma_init_model_wf;
use crate::engine::lemma_stepped_wf;
use crate::engine::lemma_succ_index_bounds;
use crate::engine::neighbor_best;
use crate::engine::neighbor_total;
use crate::engine::refreshed;
use crate::engine::row_of;
use crate::engine::stepped;
use crate::engine::stepped_converged;
use crate::engine::swept_values;
use crate::engine::terminals_in_bounds;
use crate::engine::wf;
use crate::num::lemma_clip_monotone;
use crate::num::lemma_trunc_div_monotone;
use crate::num::lemma_trunc_div_nonneg;
use crate::num::quarter;
use crate::num::sat_add;
use crate::num::trunc_div;
use crate::table::TableView;

verus! {

/// The model after n `step` calls.
pub open spec fn run(m: Model, n: nat) -> Model
    decreases n,
{
    if n == 0 {
        m
    } else {
        stepped(run(m, (n - 1) as nat))
    }
}

/// Determinism: the engine holds no hidden state and draws on no outside
/// source, so from one configuration and initial state, any two runs of n
/// sweeps produce the same value table — `stepped` is a function of the
/// model alone.
pub proof fn lemma_determinism(m1: Model, m2: Model, n: nat)
    requires
        m1 == m2,
    ensures
        run(m1, n) == run(m2, n),
{
}

/// Terminal invariance: a `step` call never touches a terminal state; its
/// value, its reward, its action set, and its terminal mark all read the
/// same after the sweep as before it.
pub proof fn lemma_terminal_invariance(m: Model, i: int)
    requires
        wf(m),
        0 <= i < grid_of(m).len(),
        m.table.terminal[i],
    ensures
        stepped(m).table.value[i] == m.table.value[i],
        stepped(m).table.reward[i] == m.table.reward[i],
        stepped(m).table.actions[i] == m.table.actions[i],
        stepped(m).table.terminal[i] == m.table.terminal[i],
        stepped(m).table.policy[i] == m.table.policy[i],
{
    let g = grid_of(m);
    let vals = m.table.value;
    if m.buffering == Buffering::InPlace {
        lemma_in_place_len(g, vals, vals.len());
        lemma_in_place_untouched(g, vals, vals.len(), i);
    }
}

/// Synchronous isolation: under synchronous buffering, the value a sweep
/// assigns to a non-terminal cell is its target computed from the value
/// table as it stood at the end of the previous sweep — no cell ever sees
/// a value written during the sweep itself.
pub proof fn lemma_synchronous_isolation(m: Model, i: int)
    requires
        wf(m),
        m.buffering == Buffering::Synchronous,
        0 <= i < grid_of(m).len(),
        !m.table.terminal[i],
    ensures
        stepped(m).table.value[i] == cell_target(grid_of(m), m.table.value, i),
{
}

/// Boundary self-loop: an action that would exit the grid backs its
/// one-step lookahead with the acting state's own current value; the
/// action's reward is still incurred.
pub proof fn lemma_boundary_self_loop(g: Grid, vals: Seq<i64>, r: int, c: int, a: Action)
    requires
        0 <= r < g.num_rows,
        0 <= c < g.num_cols,
        exits_grid(g, r, c, a.dir),
    ensures
        action_value(g, vals, r, c, a) == sat_add(a.reward, vals[cell_index(g, r, c)]),
{
}

/// The greedy scan really is a first-seen argmax: its value bounds every
/// action's one-step lookahead, and its winner is an action attaining
/// that value, with everything earlier in list order strictly worse.
pub proof fn lemma_greedy_choice_is_first_argmax(
    g: Grid,
    vals: Seq<i64>,
    r: int,
    c: int,
    acts: Seq<Action>,
)
    requires
        acts.len() >= 1,
    ensures
        forall|j: int|
            0 <= j < acts.len() ==> action_value(g, vals, r, c, acts[j]) <= greedy_choice(
                g,
                vals,
                r,
                c,
                acts,
            ).0,
        exists|k: int|
            0 <= k < acts.len() && acts[k] == greedy_choice(g, vals, r, c, acts).1 && action_value(
                g,
                vals,
                r,
                c,
                acts[k],
            ) == greedy_choice(g, vals, r, c, acts).0 && (forall|j: int|
                0 <= j < k ==> action_value(g, vals, r, c, acts[j]) < greedy_choice(
                    g,
                    vals,
                    r,
                    c,
                    acts,
                ).0),
    decreases acts.len(),
{
    let best = greedy_choice(g, vals, r, c, acts);
    if acts.len() == 1 {
        assert(0 <= 0 < acts.len() && acts[0] == best.1 && action_value(g, vals, r, c, acts[0])
            == best.0 && (forall|j: int|
            0 <= j < 0 ==> action_value(g, vals, r, c, acts[j]) < best.0));
    } else {
        let front = acts.drop_last();
        lemma_greedy_choice_is_first_argmax(g, vals, r, c, front);
        let prev = greedy_choice(g, vals, r, c, front);
        let v = action_value(g, vals, r, c, acts.last());
        assert(forall|j: int| 0 <= j < front.len() ==> front[j] == acts[j]);
        if v > prev.0 {
            let k = acts.len() - 1;
            assert(0 <= k < acts.len() && acts[k] == best.1 && action_value(g, vals, r, c, acts[k])
                == best.0 && (forall|j: int|
                0 <= j < k ==> action_value(g, vals, r, c, acts[j]) < best.0));
        } else {
            let k = choose|k: int|
                0 <= k < front.len() && front[k] == prev.1 && action_value(g, vals, r, c, front[k])
                    == prev.0 && (forall|j: int|
                    0 <= j < k ==> action_value(g, vals, r, c, front[j]) < prev.0);
            assert(0 <= k < acts.len() && acts[k] == best.1 && action_value(g, vals, r, c, acts[k])
                == best.0 && (forall|j: int|
                0 <= j < k ==> action_value(g, vals, r, c, acts[j]) < best.0));
        }
    }
}

/// Policy-improvement idempotence: a refresh pass reads only values and
/// action sets and writes only policies, so a second refresh straight
/// after a first chooses exactly the same policy table — converged values
/// or not.
pub proof fn lemma_refresh_idempotent(m: Model)
    requires
        wf(m),
    ensures
        refreshed(refreshed(m)) == refreshed(m),
{
    let m1 = refreshed(m);
    assert(grid_of(m1) =~= grid_of(m));
    assert(greedy_policies(grid_of(m1), m1.table.value, m1.table.policy) =~= greedy_policies(
        grid_of(m),
        m.table.value,
        m.table.policy,
    ));
    assert(refreshed(m1) =~= m1);
}

/// Convergence is exactly a fixed point: `step` reports true precisely
/// when the sweep leaves every value (terminal cells included) bit-for-bit
/// unchanged.
pub proof fn lemma_converged_fixpoint(m: Model)
    requires
        wf(m),
    ensures
        stepped_converged(m) <==> stepped(m).table.value == m.table.value,
{
    let g = grid_of(m);
    let vals = m.table.value;
    if m.buffering == Buffering::InPlace {
        lemma_in_place_len(g, vals, vals.len());
    }
    if stepped_converged(m) {
        assert forall|i: int| 0 <= i < vals.len() implies swept_values(g, m.buffering, vals)[i]
            == vals[i] by {
            if g.terminal[i] && m.buffering == Buffering::InPlace {
                lemma_in_place_untouched(g, vals, vals.len(), i);
            }
        }
        assert(swept_values(g, m.buffering, vals) =~= vals);
    }
}

/// Two value tables over the same cells, the first nowhere above the
/// second.
pub open spec fn pointwise_le(v1: Seq<i64>, v2: Seq<i64>) -> bool {
    &&& v1.len() == v2.len()
    &&& forall|i: int| 0 <= i < v1.len() ==> v1[i] <= v2[i]
}

/// A value table in which every non-terminal cell lies at or below its own
/// update target: the configurations from which an averaging sweep can
/// only raise values (a single non-negative reward source and zeros
/// elsewhere is the classic instance).
pub open spec fn sub_solution(g: Grid, v: Seq<i64>) -> bool {
    forall|i: int| 0 <= i < g.len() && !g.terminal[i] ==> v[i] <= cell_target(g, v, i)
}

/// Raising values never lowers a reward-grid cell's target.
proof fn lemma_reward_target_monotone(g: Grid, v1: Seq<i64>, v2: Seq<i64>, i: int)
    requires
        g.wf(),
        g.family == Family::RewardGrid,
        v1.len() == g.len(),
        pointwise_le(v1, v2),
        0 <= i < g.len(),
    ensures
        cell_target(g, v1, i) <= cell_target(g, v2, i),
{
    lemma_index_split(g.num_rows, g.num_cols, i);
    let r = row_of(g, i);
    let c = col_of(g, i);
    lemma_succ_index_bounds(g, r, c, Dir::Up);
    lemma_succ_index_bounds(g, r, c, Dir::Right);
    lemma_succ_index_bounds(g, r, c, Dir::Down);
    lemma_succ_index_bounds(g, r, c, Dir::Left);
    let base = g.reward[cell_index(g, r, c)];
    match g.combination {
        Combination::Expectation => {
            lemma_trunc_div_monotone(neighbor_total(g, v1, r, c), neighbor_total(g, v2, r, c), 4);
            lemma_clip_monotone(
                trunc_div(neighbor_total(g, v1, r, c), 4),
                trunc_div(neighbor_total(g, v2, r, c), 4),
            );
            lemma_clip_monotone(
                base + quarter(neighbor_total(g, v1, r, c)),
                base + quarter(neighbor_total(g, v2, r, c)),
            );
        },
        Combination::Greedy => {
            lemma_trunc_div_monotone(
                neighbor_best(g, v1, r, c) as int,
                neighbor_best(g, v2, r, c) as int,
                4,
            );
            lemma_clip_monotone(
                trunc_div(neighbor_best(g, v1, r, c) as int, 4),
                trunc_div(neighbor_best(g, v2, r, c) as int, 4),
            );
            lemma_clip_monotone(
                base + quarter(neighbor_best(g, v1, r, c) as int),
                base + quarter(neighbor_best(g, v2, r, c) as int),
            );
        },
    }
}

/// From a sub-solution, every prefix of an in-place sweep only raises
/// values.
proof fn lemma_in_place_raises(g: Grid, v: Seq<i64>, k: nat)
    requires
        g.wf(),
        g.family == Family::RewardGrid,
        v.len() == g.len(),
        sub_solution(g, v),
        k <= g.len(),
    ensures
        pointwise_le(v, in_place_swept(g, v, k)),
    decreases k,
{
    lemma_in_place_len(g, v, k);
    if k > 0 {
        lemma_in_place_raises(g, v, (k - 1) as nat);
        lemma_in_place_len(g, v, (k - 1) as nat);
        let prev = in_place_swept(g, v, (k - 1) as nat);
        if !g.terminal[k - 1] {
            lemma_in_place_untouched(g, v, (k - 1) as nat, k - 1);
            lemma_reward_target_monotone(g, v, prev, k - 1);
        }
    }
}

/// A longer prefix of an in-place sweep is nowhere below a shorter one.
proof fn lemma_in_place_chain(g: Grid, v: Seq<i64>, k1: nat, k2: nat)
    requires
        g.wf(),
        g.family == Family::RewardGrid,
        v.len() == g.len(),
        sub_solution(g, v),
        k1 <= k2,
        k2 <= g.len(),
    ensures
        pointwise_le(in_place_swept(g, v, k1), in_place_swept(g, v, k2)),
{
    lemma_in_place_len(g, v, k1);
    lemma_in_place_len(g, v, k2);
    lemma_in_place_raises(g, v, k2);
    assert forall|l: int| 0 <= l < v.len() implies in_place_swept(g, v, k1)[l] <= in_place_swept(
        g,
        v,
        k2,
    )[l] by {
        if l < k1 {
            lemma_in_place_stable(g, v, k1, k2, l);
        } else {
            lemma_in_place_untouched(g, v, k1, l);
        }
    }
}

/// One full in-place sweep from a sub-solution raises every value and
/// lands on a sub-solution again: the engine can repeat the argument sweep
/// after sweep.
pub proof fn lemma_sweep_monotone(g: Grid, v: Seq<i64>)
    requires
        g.wf(),
        g.family == Family::RewardGrid,
        v.len() == g.len(),
        sub_solution(g, v),
    ensures
        pointwise_le(v, in_place_swept(g, v, v.len())),
        sub_solution(g, in_place_swept(g, v, v.len())),
{
    let n = v.len();
    let w = in_place_swept(g, v, n);
    lemma_in_place_raises(g, v, n);
    lemma_in_place_len(g, v, n);
    assert forall|j: int| 0 <= j < g.len() && !g.terminal[j] implies w[j] <= cell_target(
        g,
        w,
        j,
    ) by {
        let prevj = in_place_swept(g, v, j as nat);
        lemma_in_place_len(g, v, j as nat);
        lemma_in_place_len(g, v, (j + 1) as nat);
        lemma_in_place_stable(g, v, (j + 1) as nat, n, j);
        assert(in_place_swept(g, v, (j + 1) as nat)[j] == cell_target(g, prevj, j));
        lemma_in_place_chain(g, v, j as nat, n);
        lemma_reward_target_monotone(g, prevj, w, j);
    }
}

/// Every step of a reward-grid in-place run preserves well-formedness, the
/// immutable grid, and the sub-solution property of the values.
proof fn lemma_run_preserves(m: Model, n: nat)
    requires
        wf(m),
        m.family == Family::RewardGrid,
        m.buffering == Buffering::InPlace,
        sub_solution(grid_of(m), m.table.value),
    ensures
        wf(run(m, n)),
        grid_of(run(m, n)) == grid_of(m),
        run(m, n).buffering == m.buffering,
        run(m, n).table.value.len() == grid_of(m).len(),
        sub_solution(grid_of(m), run(m, n).table.value),
    decreases n,
{
    if n > 0 {
        lemma_run_preserves(m, (n - 1) as nat);
        let mk = run(m, (n - 1) as nat);
        lemma_stepped_wf(mk);
        lemma_sweep_monotone(grid_of(m), mk.table.value);
    }
}

/// Convergence monotonicity: under the reward-grid four-neighbor-average
/// family with in-place buffering, starting from a value table that lies
/// at or below its own targets (e.g. a single non-negative reward source,
/// zero elsewhere), no non-terminal cell's value ever decreases from one
/// sweep to the next.
pub proof fn lemma_convergence_monotonicity(m: Model, n: nat)
    requires
        wf(m),
        m.family == Family::RewardGrid,
        m.buffering == Buffering::InPlace,
        sub_solution(grid_of(m), m.table.value),
    ensures
        pointwise_le(run(m, n).table.value, run(m, (n + 1) as nat).table.value),
{
    lemma_run_preserves(m, n);
    let mk = run(m, n);
    lemma_stepped_wf(mk);
    lemma_sweep_monotone(grid_of(m), mk.table.value);
    assert(run(m, (n + 1) as nat) == stepped(mk));
}

/// A freshly built reward grid whose terminals are frozen at non-negative
/// values is a sub-solution: zero-valued cells with non-negative ambient
/// rewards sit at or below their own averaging targets.
pub proof fn lemma_nonnegative_start_sub_solution(g: Grid, v: Seq<i64>)
    requires
        g.wf(),
        g.family == Family::RewardGrid,
        v.len() == g.len(),
        forall|i: int| 0 <= i < g.len() ==> v[i] >= 0,
        forall|i: int| 0 <= i < g.len() && !g.terminal[i] ==> v[i] == 0 && g.reward[i] >= 0,
    ensures
        sub_solution(g, v),
{
    assert forall|i: int| 0 <= i < g.len() && !g.terminal[i] implies v[i] <= cell_target(
        g,
        v,
        i,
    ) by {
        lemma_index_split(g.num_rows, g.num_cols, i);
        let r = row_of(g, i);
        let c = col_of(g, i);
        lemma_succ_index_bounds(g, r, c, Dir::Up);
        lemma_succ_index_bounds(g, r, c, Dir::Right);
        lemma_succ_index_bounds(g, r, c, Dir::Down);
        lemma_succ_index_bounds(g, r, c, Dir::Left);
        match g.combination {
            Combination::Expectation => {
                lemma_trunc_div_nonneg(neighbor_total(g, v, r, c), 4);
            },
            Combination::Greedy => {
                lemma_trunc_div_nonneg(neighbor_best(g, v, r, c) as int, 4);
            },
        }
    }
}

proof fn lemma_apply_terminals_nonneg(t: TableView, o: GridSpecView, k: nat, len: int)
    requires
        len == o.num_rows * o.num_cols,
        dims_positive(o),
        terminals_in_bounds(o),
        k <= o.terminals.len(),
        t.consistent(len),
        forall|j: int| 0 <= j < o.terminals.len() ==> (#[trigger] o.terminals[j]).value >= 0,
        forall|i: int| 0 <= i < len ==> (#[trigger] t.value[i]) >= 0,
        forall|i: int|
            0 <= i < len && !(#[trigger] t.terminal[i]) ==> t.value[i] == 0 && t.reward[i] == 0,
    ensures
        apply_terminals(t, o, k).consistent(len),
        forall|i: int| 0 <= i < len ==> (#[trigger] apply_terminals(t, o, k).value[i]) >= 0,
        forall|i: int|
            0 <= i < len && !(#[trigger] apply_terminals(t, o, k).terminal[i]) ==> apply_terminals(
                t,
                o,
                k,
            ).value[i] == 0 && apply_terminals(t, o, k).reward[i] == 0,
    decreases k,
{
    if k > 0 {
        lemma_apply_terminals_nonneg(t, o, (k - 1) as nat, len);
        let term = o.terminals[k - 1];
        lemma_cell_index_bounds(o.num_rows, o.num_cols, term.row as int, term.col as int);
    }
}

/// A freshly built reward grid whose declared terminals are frozen at
/// non-negative values starts as a sub-solution: the monotonicity law
/// applies to such an engine from its very first sweep.
pub proof fn lemma_init_reward_grid_sub_solution(o: GridSpecView)
    requires
        config_ok(o),
        o.family == Family::RewardGrid,
        forall|j: int| 0 <= j < o.terminals.len() ==> (#[trigger] o.terminals[j]).value >= 0,
    ensures
        sub_solution(grid_of(init_model(o)), init_model(o).table.value),
{
    lemma_init_model_wf(o);
    lemma_apply_terminals_nonneg(
        init_table_base(o),
        o,
        o.terminals.len(),
        o.num_rows * o.num_cols,
    );
    lemma_nonnegative_start_sub_solution(grid_of(init_model(o)), init_model(o).table.value);
}

/// Round-trip of configuration: two engines built from equal
/// configurations start from equal models, and stepping both identically
/// keeps their value and policy tables equal at every sweep count.
pub proof fn lemma_config_round_trip(o1: GridSpecView, o2: GridSpecView, n: nat)
    requires
        o1 == o2,
    ensures
        run(init_model(o1), n) == run(init_model(o2), n),
{
}

} // verus!
