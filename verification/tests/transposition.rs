use rust_solver::game::{Direction, State};
use rust_solver::transposition::TranspositionTable;

fn board() -> State {
    State { grid: [[1, 0, 0, 0], [0, 2, 0, 0], [0, 0, 3, 0], [0, 0, 0, 4]] }
}

#[test]
fn test_new_cache_is_empty() {
    let mut cache = TranspositionTable::new();
    assert_eq!(cache.items(), 0);
    assert_eq!(cache.hits(), 0);
    assert_eq!(cache.misses(), 0);
    assert_eq!(cache.get(&board(), 0, 0), None);
    assert_eq!(cache.misses(), 1);
}

#[test]
fn test_entry_serves_no_deeper_search() {
    let mut cache = TranspositionTable::new();
    let value = (Direction::Up, 42.0f32.to_bits());
    cache.insert(board(), 3, 0.01f32.to_bits(), value);
    assert_eq!(cache.get(&board(), 4, 0.01f32.to_bits()), None);
    assert_eq!(cache.get(&board(), 4, 0.001f32.to_bits()), None);
    assert_eq!(cache.get(&board(), 4, 1.0f32.to_bits()), None);
    assert_eq!(cache.get(&board(), 4, 0), None);
    assert_eq!(cache.get(&board(), u16::MAX, 0), None);
    assert_eq!(cache.hits(), 0);
    assert_eq!(cache.misses(), 5);
}

#[test]
fn test_entry_serves_no_larger_probability() {
    let mut cache = TranspositionTable::new();
    let value = (Direction::Up, 42.0f32.to_bits());
    cache.insert(board(), 3, 0.01f32.to_bits(), value);
    assert_eq!(cache.get(&board(), 3, 0.02f32.to_bits()), None);
    assert_eq!(cache.get(&board(), 3, 1.0f32.to_bits()), None);
    assert_eq!(cache.get(&board(), 0, 0.011f32.to_bits()), None);
    assert_eq!(cache.misses(), 3);
}

#[test]
fn test_entry_serves_equal_or_smaller_demands() {
    let mut cache = TranspositionTable::new();
    let value = (Direction::Up, 42.0f32.to_bits());
    cache.insert(board(), 3, 0.01f32.to_bits(), value);
    assert_eq!(cache.get(&board(), 3, 0.01f32.to_bits()), Some(value));
    assert_eq!(cache.get(&board(), 3, 0.001f32.to_bits()), Some(value));
    assert_eq!(cache.get(&board(), 2, 0.01f32.to_bits()), Some(value));
    assert_eq!(cache.get(&board(), 0, 0), Some(value));
    assert_eq!(cache.hits(), 4);
    assert_eq!(cache.misses(), 0);
}

#[test]
fn test_fresh_result_replaces_the_entry() {
    let mut cache = TranspositionTable::new();
    let stale = (Direction::Up, 42.0f32.to_bits());
    let fresh = (Direction::Left, 50.0f32.to_bits());
    cache.insert(board(), 3, 0.01f32.to_bits(), stale);
    assert_eq!(cache.get(&board(), 4, 0.01f32.to_bits()), None);
    cache.insert(board(), 4, 0.01f32.to_bits(), fresh);
    assert_eq!(cache.get(&board(), 4, 0.01f32.to_bits()), Some(fresh));
    assert_eq!(cache.get(&board(), 3, 0.01f32.to_bits()), Some(fresh));
    assert_eq!(cache.items(), 2);
}

#[test]
fn test_entries_are_kept_by_board() {
    let mut cache = TranspositionTable::new();
    let one = (Direction::Up, 1.0f32.to_bits());
    let two = (Direction::Down, 2.0f32.to_bits());
    let other = board().set_cell(3, 3, 5);
    cache.insert(board(), 1, 7, one);
    cache.insert(other, 1, 7, two);
    assert_eq!(cache.get(&board(), 1, 7), Some(one));
    assert_eq!(cache.get(&other, 1, 7), Some(two));
    assert_eq!(cache.get(&board().transpose().set_cell(0, 1, 9), 1, 7), None);
    assert_eq!(cache.items(), 2);
    assert_eq!(cache.hits(), 2);
    assert_eq!(cache.misses(), 1);
}

#[test]
fn test_clear_forgets_everything() {
    let mut cache = TranspositionTable::new();
    let value = (Direction::Up, 42.0f32.to_bits());
    cache.insert(board(), 3, 5, value);
    assert_eq!(cache.get(&board(), 3, 5), Some(value));
    assert_eq!(cache.get(&board(), 9, 5), None);
    cache.clear();
    assert_eq!(cache.items(), 0);
    assert_eq!(cache.hits(), 0);
    assert_eq!(cache.misses(), 0);
    assert_eq!(cache.get(&board(), 3, 5), None);
    assert_eq!(cache.get(&board(), 0, 0), None);
}

#[test]
fn test_probability_keys_order_as_probabilities() {
    let probabilities = [1.0f32, 0.9, 0.5, 0.1, 0.05625, 0.01, 0.001, 1e-10, 1e-38, 0.0];
    for pair in probabilities.windows(2) {
        assert!(pair[0] > pair[1]);
        assert!(pair[0].to_bits() > pair[1].to_bits());
    }
}

#[test]
fn test_board_without_a_code_is_passed_over() {
    let mut cache = TranspositionTable::new();
    let value = (Direction::Up, 42.0f32.to_bits());
    let high = board().set_cell(0, 0, 16);
    let low = board().set_cell(0, 0, 0);
    assert_eq!(high.pack(), low.pack());
    cache.insert(high, 3, 5, value);
    assert_eq!(cache.items(), 0);
    assert_eq!(cache.get(&high, 3, 5), None);
    assert_eq!(cache.get(&low, 3, 5), None);
    cache.insert(low, 3, 5, value);
    assert_eq!(cache.items(), 1);
    assert_eq!(cache.get(&low, 3, 5), Some(value));
    assert_eq!(cache.get(&high, 3, 5), None);
    assert_eq!(cache.hits(), 1);
    assert_eq!(cache.misses(), 3);
}
