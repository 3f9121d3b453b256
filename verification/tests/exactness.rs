//! Exact fixed-point arithmetic and configuration-validation tests.

use gridworld::config::Buffering;
use gridworld::config::Combination;
use gridworld::config::ConfigError;
use gridworld::config::Family;
use gridworld::config::GridSpec;
use gridworld::config::Policy;
use gridworld::config::Terminal;
use gridworld::engine::GridWorld;
use gridworld::num::add_sat;
use gridworld::num::mul_prob;
use gridworld::num::quarter_one;
use gridworld::num::quarter_sum;

const ONE: i64 = 65536;

fn spec_with(
    family: Family,
    buffering: Buffering,
    combination: Combination,
    improve_policy: bool,
    num_rows: usize,
    num_cols: usize,
    terminals: Vec<Terminal>,
) -> GridSpec {
    GridSpec { num_rows, num_cols, family, buffering, combination, improve_policy, terminals }
}

#[test]
fn expectation_two_by_two_exact() {
    // 2x2 action grid, terminal (0, 0): after one sweep every non-terminal
    // cell is exactly -1.0; after two, (0, 1) is exactly -1.75 (three
    // lookaheads of -2.0 and one of -1.0, each weighted by 0.25).
    let mut w = GridWorld::new(spec_with(
        Family::ActionGrid,
        Buffering::Synchronous,
        Combination::Expectation,
        false,
        2,
        2,
        vec![Terminal { row: 0, col: 0, value: 0 }],
    ))
    .unwrap();
    w.step();
    assert_eq!(w.value_at(0, 1), -ONE);
    assert_eq!(w.value_at(1, 0), -ONE);
    assert_eq!(w.value_at(1, 1), -ONE);
    assert_eq!(w.value_at(0, 0), 0);
    w.step();
    assert_eq!(w.value_at(0, 1), -7 * ONE / 4);
    assert_eq!(w.value_at(1, 0), -7 * ONE / 4);
    assert_eq!(w.value_at(1, 1), -2 * ONE);
}

#[test]
fn reward_grid_greedy_exact() {
    // 1x3 reward grid under the greedy combination: a cell takes its
    // reward plus a quarter of its best neighbor value.
    let mut w = GridWorld::new(spec_with(
        Family::RewardGrid,
        Buffering::Synchronous,
        Combination::Greedy,
        false,
        1,
        3,
        vec![Terminal { row: 0, col: 0, value: ONE }],
    ))
    .unwrap();
    w.step();
    assert_eq!(w.value_at(0, 1), ONE / 4);
    assert_eq!(w.value_at(0, 2), 0);
    w.step();
    assert_eq!(w.value_at(0, 1), ONE / 4);
    assert_eq!(w.value_at(0, 2), ONE / 16);
}

#[test]
fn quarter_truncates_toward_zero() {
    // A negative odd sum: -65537 / 4 truncates to -16384, not -16385.
    let mut w = GridWorld::new(spec_with(
        Family::RewardGrid,
        Buffering::InPlace,
        Combination::Expectation,
        false,
        1,
        2,
        vec![Terminal { row: 0, col: 0, value: -ONE - 1 }],
    ))
    .unwrap();
    w.step();
    assert_eq!(w.value_at(0, 1), -16384);
}

#[test]
fn probability_weight_truncates_toward_zero() {
    // The lookahead through the terminal is -65543; its quarter weight
    // truncates to -16385, the three self-loops give -16384 each.
    let mut w = GridWorld::new(spec_with(
        Family::ActionGrid,
        Buffering::Synchronous,
        Combination::Expectation,
        false,
        1,
        2,
        vec![Terminal { row: 0, col: 0, value: -7 }],
    ))
    .unwrap();
    w.step();
    assert_eq!(w.value_at(0, 1), -65537);
}

#[test]
fn arithmetic_helpers_exact() {
    assert_eq!(add_sat(3, 4), 7);
    assert_eq!(add_sat(i64::MAX, 1), i64::MAX);
    assert_eq!(add_sat(i64::MIN, -1), i64::MIN);
    assert_eq!(add_sat(i64::MIN, i64::MAX), -1);
    assert_eq!(mul_prob(16384, -65536), -16384);
    assert_eq!(mul_prob(16384, -65539), -16384); // truncated toward zero, not -16385
    assert_eq!(mul_prob(16384, 65539), 16384);
    assert_eq!(mul_prob(-16384, 65536), -16384);
    assert_eq!(mul_prob(65536, i64::MAX), i64::MAX);
    assert_eq!(quarter_one(-3), 0);
    assert_eq!(quarter_one(-5), -1);
    assert_eq!(quarter_one(7), 1);
    assert_eq!(quarter_sum(1, 1, 1, 1), 1);
    assert_eq!(quarter_sum(-1, -1, -1, -1), -1);
    assert_eq!(quarter_sum(i64::MAX, i64::MAX, i64::MAX, i64::MAX), i64::MAX);
}

#[test]
fn rejected_configurations() {
    let zero_rows = GridWorld::new(spec_with(
        Family::RewardGrid,
        Buffering::Synchronous,
        Combination::Expectation,
        false,
        0,
        5,
        vec![],
    ));
    assert_eq!(zero_rows.err(), Some(ConfigError::ZeroDimension));

    let zero_cols = GridWorld::new(spec_with(
        Family::ActionGrid,
        Buffering::InPlace,
        Combination::Greedy,
        true,
        4,
        0,
        vec![],
    ));
    assert_eq!(zero_cols.err(), Some(ConfigError::ZeroDimension));

    let too_many = GridWorld::new(spec_with(
        Family::RewardGrid,
        Buffering::Synchronous,
        Combination::Expectation,
        false,
        usize::MAX,
        2,
        vec![],
    ));
    assert_eq!(too_many.err(), Some(ConfigError::TooManyCells));

    let stray_terminal = GridWorld::new(spec_with(
        Family::ActionGrid,
        Buffering::Synchronous,
        Combination::Expectation,
        false,
        4,
        4,
        vec![Terminal { row: 4, col: 0, value: 0 }],
    ));
    assert_eq!(stray_terminal.err(), Some(ConfigError::TerminalOutOfBounds));

    let fine = GridWorld::new(spec_with(
        Family::ActionGrid,
        Buffering::Synchronous,
        Combination::Expectation,
        false,
        4,
        4,
        vec![Terminal { row: 3, col: 3, value: 0 }],
    ));
    assert!(fine.is_ok());
}

#[test]
fn policy_presets_map_to_modes() {
    assert_eq!(Policy::Iteration.buffering(), Buffering::Synchronous);
    assert_eq!(Policy::Iteration.combination(), Combination::Expectation);
    assert_eq!(Policy::IterationInPlace.buffering(), Buffering::InPlace);
    assert_eq!(Policy::IterationInPlace.combination(), Combination::Expectation);
    assert_eq!(Policy::ValueIteration.buffering(), Buffering::Synchronous);
    assert_eq!(Policy::ValueIteration.combination(), Combination::Greedy);
}

#[test]
fn engine_reports_its_modes() {
    let w = GridWorld::new(spec_with(
        Family::RewardGrid,
        Buffering::InPlace,
        Combination::Greedy,
        true,
        2,
        3,
        vec![],
    ))
    .unwrap();
    assert_eq!(w.family(), Family::RewardGrid);
    assert_eq!(w.buffering(), Buffering::InPlace);
    assert_eq!(w.combination(), Combination::Greedy);
    assert!(w.improves_policy());
    assert_eq!(w.num_rows(), 2);
    assert_eq!(w.num_cols(), 3);
}

#[test]
fn policies_absent_until_refreshed() {
    let mut w = GridWorld::new(spec_with(
        Family::ActionGrid,
        Buffering::Synchronous,
        Combination::Expectation,
        false,
        2,
        2,
        vec![Terminal { row: 0, col: 0, value: 0 }],
    ))
    .unwrap();
    w.step();
    assert!(w.policy_at(1, 1).is_none());
    w.refresh();
    assert!(w.policy_at(1, 1).is_some());
    // The terminal cell never gets a policy.
    assert!(w.policy_at(0, 0).is_none());
}
