//! Behavioral tests of the update engine: determinism, terminal
//! invariance, buffering semantics, boundary self-loops, monotone
//! convergence, value-iteration optimality, policy-improvement
//! idempotence, and configuration round-trips.

use gridworld::config::Buffering;
use gridworld::config::Combination;
use gridworld::config::Dir;
use gridworld::config::Family;
use gridworld::config::GridSpec;
use gridworld::config::Terminal;
use gridworld::engine::GridWorld;

const ONE: i64 = 65536;

fn spec_with(
    family: Family,
    buffering: Buffering,
    combination: Combination,
    improve_policy: bool,
    num_rows: usize,
    num_cols: usize,
    terminals: Vec<Terminal>,
) -> GridSpec {
    GridSpec { num_rows, num_cols, family, buffering, combination, improve_policy, terminals }
}

fn values_of(w: &GridWorld) -> Vec<i64> {
    let mut v = Vec::new();
    for r in 0..w.num_rows() {
        for c in 0..w.num_cols() {
            v.push(w.value_at(r, c));
        }
    }
    v
}

fn policies_of(w: &GridWorld) -> Vec<Option<Dir>> {
    let mut v = Vec::new();
    for r in 0..w.num_rows() {
        for c in 0..w.num_cols() {
            v.push(w.policy_at(r, c).map(|a| a.dir));
        }
    }
    v
}

#[test]
fn determinism_repeated_runs() {
    let build = || {
        GridWorld::new(spec_with(
            Family::ActionGrid,
            Buffering::Synchronous,
            Combination::Expectation,
            true,
            4,
            4,
            vec![
                Terminal { row: 0, col: 0, value: 0 },
                Terminal { row: 3, col: 3, value: 0 },
            ],
        ))
        .unwrap()
    };
    let mut a = build();
    let mut b = build();
    for _ in 0..25 {
        let ca = a.step();
        let cb = b.step();
        assert_eq!(ca, cb);
        assert_eq!(values_of(&a), values_of(&b));
        assert_eq!(policies_of(&a), policies_of(&b));
    }
}

#[test]
fn terminal_invariance_across_sweeps() {
    let mut w = GridWorld::new(spec_with(
        Family::RewardGrid,
        Buffering::Synchronous,
        Combination::Expectation,
        false,
        3,
        3,
        vec![Terminal { row: 0, col: 0, value: ONE }],
    ))
    .unwrap();
    assert!(w.is_terminal(0, 0));
    assert_eq!(w.value_at(0, 0), ONE);
    for _ in 0..50 {
        w.step();
        assert!(w.is_terminal(0, 0));
        assert_eq!(w.value_at(0, 0), ONE);
        assert!(!w.is_terminal(1, 1));
    }
}

#[test]
fn synchronous_isolation_on_a_row() {
    // A 1x3 reward grid with the reward source on the left. Under
    // synchronous buffering the rightmost cell must read its left
    // neighbor's pre-sweep value (0), not the value written this sweep.
    let mut sync = GridWorld::new(spec_with(
        Family::RewardGrid,
        Buffering::Synchronous,
        Combination::Expectation,
        false,
        1,
        3,
        vec![Terminal { row: 0, col: 0, value: ONE }],
    ))
    .unwrap();
    sync.step();
    assert_eq!(sync.value_at(0, 1), ONE / 4);
    assert_eq!(sync.value_at(0, 2), 0);

    // In-place, the same sweep lets the rightmost cell see the fresh value.
    let mut inplace = GridWorld::new(spec_with(
        Family::RewardGrid,
        Buffering::InPlace,
        Combination::Expectation,
        false,
        1,
        3,
        vec![Terminal { row: 0, col: 0, value: ONE }],
    ))
    .unwrap();
    inplace.step();
    assert_eq!(inplace.value_at(0, 1), ONE / 4);
    assert_eq!(inplace.value_at(0, 2), ONE / 16);
}

#[test]
fn boundary_moves_bounce_back() {
    let w = GridWorld::new(spec_with(
        Family::ActionGrid,
        Buffering::Synchronous,
        Combination::Greedy,
        false,
        4,
        4,
        vec![Terminal { row: 0, col: 0, value: 0 }],
    ))
    .unwrap();
    assert_eq!(w.successor(0, 2, Dir::Up), (0, 2));
    assert_eq!(w.successor(3, 2, Dir::Down), (3, 2));
    assert_eq!(w.successor(1, 0, Dir::Left), (1, 0));
    assert_eq!(w.successor(1, 3, Dir::Right), (1, 3));
    assert_eq!(w.successor(1, 1, Dir::Up), (0, 1));
    assert_eq!(w.successor(1, 1, Dir::Right), (1, 2));
    assert_eq!(w.successor(1, 1, Dir::Down), (2, 1));
    assert_eq!(w.successor(1, 1, Dir::Left), (1, 0));
}

#[test]
fn single_cell_grid_self_loops() {
    // On a 1x1 action grid every move exits and bounces back, so each
    // sweep adds exactly the expected step cost to the lone cell.
    let mut w = GridWorld::new(spec_with(
        Family::ActionGrid,
        Buffering::Synchronous,
        Combination::Expectation,
        false,
        1,
        1,
        vec![],
    ))
    .unwrap();
    w.step();
    assert_eq!(w.value_at(0, 0), -ONE);
    w.step();
    assert_eq!(w.value_at(0, 0), -2 * ONE);
}

#[test]
fn monotone_convergence_on_reward_grid() {
    // 4x8 reward grid, reward 1.0 at (0, 0) and 0 elsewhere, in-place:
    // values must rise monotonically at every cell and end exactly equal
    // between sweeps.
    let mut w = GridWorld::new(spec_with(
        Family::RewardGrid,
        Buffering::InPlace,
        Combination::Expectation,
        false,
        4,
        8,
        vec![Terminal { row: 0, col: 0, value: ONE }],
    ))
    .unwrap();
    let mut prev = values_of(&w);
    let mut converged = false;
    for _ in 0..100000 {
        converged = w.step();
        let cur = values_of(&w);
        for (p, c) in prev.iter().zip(cur.iter()) {
            assert!(c >= p);
        }
        if converged {
            assert_eq!(prev, cur);
            break;
        }
        prev = cur;
    }
    assert!(converged);
    // One more sweep after convergence changes nothing.
    assert!(w.step());
    assert_eq!(values_of(&w), prev);
}

#[test]
fn value_iteration_optimality_4x4() {
    // Action grid, terminal corners at (0, 0) and (3, 3), step reward
    // -1.0, greedy combination: converged values are minus the Manhattan
    // distance to the nearer terminal, the table is symmetric under the
    // diagonal reflection, and every greedy policy points one step closer
    // to the nearer terminal.
    let mut w = GridWorld::new(spec_with(
        Family::ActionGrid,
        Buffering::Synchronous,
        Combination::Greedy,
        true,
        4,
        4,
        vec![
            Terminal { row: 0, col: 0, value: 0 },
            Terminal { row: 3, col: 3, value: 0 },
        ],
    ))
    .unwrap();
    let mut converged = false;
    for _ in 0..1000 {
        if w.step() {
            converged = true;
            break;
        }
    }
    assert!(converged);

    let dist = |r: usize, c: usize| -> i64 {
        let d0 = (r + c) as i64;
        let d1 = (3 - r) as i64 + (3 - c) as i64;
        d0.min(d1)
    };
    for r in 0..4 {
        for c in 0..4 {
            assert_eq!(w.value_at(r, c), -ONE * dist(r, c));
            assert_eq!(w.value_at(r, c), w.value_at(c, r));
        }
    }
    for r in 0..4 {
        for c in 0..4 {
            if w.is_terminal(r, c) {
                continue;
            }
            let a = w.policy_at(r, c).expect("non-terminal cell has a policy");
            let (nr, nc) = w.successor(r, c, a.dir);
            assert_eq!(dist(nr, nc), dist(r, c) - 1);
        }
    }
}

#[test]
fn policy_improvement_is_idempotent() {
    let mut w = GridWorld::new(spec_with(
        Family::ActionGrid,
        Buffering::Synchronous,
        Combination::Expectation,
        false,
        4,
        4,
        vec![
            Terminal { row: 0, col: 0, value: 0 },
            Terminal { row: 3, col: 3, value: 0 },
        ],
    ))
    .unwrap();
    let mut converged = false;
    for _ in 0..100000 {
        if w.step() {
            converged = true;
            break;
        }
    }
    assert!(converged);
    w.refresh();
    let first = policies_of(&w);
    let values_after_first = values_of(&w);
    w.refresh();
    assert_eq!(policies_of(&w), first);
    assert_eq!(values_of(&w), values_after_first);
}

#[test]
fn identical_configurations_round_trip() {
    let make = |buffering| {
        spec_with(
            Family::RewardGrid,
            buffering,
            Combination::Expectation,
            false,
            3,
            5,
            vec![Terminal { row: 0, col: 0, value: ONE }],
        )
    };
    let mut a = GridWorld::new(make(Buffering::InPlace)).unwrap();
    let mut b = GridWorld::new(make(Buffering::InPlace)).unwrap();
    assert_eq!(values_of(&a), values_of(&b));
    for _ in 0..40 {
        let ca = a.step();
        let cb = b.step();
        assert_eq!(ca, cb);
        assert_eq!(values_of(&a), values_of(&b));
        assert_eq!(policies_of(&a), policies_of(&b));
    }
}
