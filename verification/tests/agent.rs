use morpion::agent::TableError;
use morpion::fixed::SCALE;
use morpion::fixed::VALUE_LIMIT;
use morpion::Cell;
use morpion::Morpion;
use morpion::Player;
use morpion::SmartMorpion;

#[test]
fn fresh_agent_state_key_is_zero() {
    let mut a = SmartMorpion::default();
    assert_eq!(a.get_self_state(), 0);
}

#[test]
fn loaded_value_steers_greedy_selection_for_player_a() {
    // With PlayerA to move on a board whose cell 0 holds a PlayerB
    // mark, playing cell 1 reaches the state encoded as 5. A table
    // holding only {5: 42.0} must make the greedy choice pick cell 1.
    let mut a = SmartMorpion::new(0, 100_000, 999_000, 100_000, 990_000);
    let mut grid = [Cell::Empty; 9];
    grid[0] = Cell::PlayerB;
    a.game = Morpion::from_cells(grid, Player::PlayerA);
    assert_eq!(a.load_values(&vec![(5, 42_000_000)]), Ok(()));
    a.set_epsilon_zero();
    let best = a.choose_action();
    assert_eq!(best.spot, 1);
    assert_eq!(best.qvalue, 42_000_000);
}

#[test]
fn player_b_greedily_avoids_a_high_value_state() {
    // With PlayerB to move on a board whose cell 1 holds a PlayerA
    // mark, playing cell 0 reaches state 5 valued 42.0; PlayerB
    // minimizes, so the first zero-valued alternative (cell 2) wins.
    let mut a = SmartMorpion::new(0, 100_000, 999_000, 100_000, 990_000);
    let mut grid = [Cell::Empty; 9];
    grid[1] = Cell::PlayerA;
    a.game = Morpion::from_cells(grid, Player::PlayerB);
    assert_eq!(a.load_values(&vec![(5, 42_000_000)]), Ok(()));
    let best = a.choose_action();
    assert_eq!(best.spot, 2);
    assert_eq!(best.qvalue, 0);
}

#[test]
fn exploration_probability_decays_monotonically_to_the_floor() {
    let mut a = SmartMorpion::default();
    let floor = a.min_exploration_proba();
    let mut prev = a.epsilon();
    assert_eq!(prev, SCALE);
    for _ in 0..60 {
        a.main_loop(1);
        let e = a.epsilon();
        assert!(e <= prev);
        assert!(e >= floor);
        prev = e;
    }
}

#[test]
fn exploration_decay_follows_the_fixed_point_schedule() {
    // Starting at 1.0 with factor 0.999: each episode multiplies by the
    // factor and truncates, clamped at the floor 0.1 from below.
    let mut a = SmartMorpion::default();
    a.main_loop(1);
    assert_eq!(a.epsilon(), 999_000);
    a.main_loop(1);
    assert_eq!(a.epsilon(), 998_001);
    a.main_loop(1);
    assert_eq!(a.epsilon(), 997_002);

    let mut b = SmartMorpion::default();
    b.main_loop(3);
    assert_eq!(b.epsilon(), 997_002);
}

#[test]
fn pinned_exploration_stays_zero_through_training() {
    let mut a = SmartMorpion::default();
    a.set_epsilon_zero();
    a.main_loop(5);
    assert_eq!(a.epsilon(), 0);
}

#[test]
fn training_zero_episodes_changes_nothing() {
    let mut a = SmartMorpion::default();
    a.main_loop(0);
    assert_eq!(a.epsilon(), SCALE);
    assert_eq!(a.export_values().len(), 0);
}

#[test]
fn training_fills_the_value_table_with_state_keys() {
    let mut a = SmartMorpion::default();
    a.main_loop(25);
    let table = a.export_values();
    assert!(table.len() > 0);
    for (k, v) in table.iter() {
        assert!(0 <= *k && *k < 19683);
        assert!(-VALUE_LIMIT <= *v && *v <= VALUE_LIMIT);
    }
}

#[test]
fn load_rejects_a_key_outside_the_state_space() {
    let mut a = SmartMorpion::default();
    assert_eq!(a.load_values(&vec![(-1, 0)]), Err(TableError::KeyOutOfRange));
    assert_eq!(a.load_values(&vec![(19683, 0)]), Err(TableError::KeyOutOfRange));
}

#[test]
fn load_rejects_a_value_outside_the_stored_range() {
    let mut a = SmartMorpion::default();
    assert_eq!(
        a.load_values(&vec![(5, VALUE_LIMIT + 1)]),
        Err(TableError::ValueOutOfRange),
    );
    assert_eq!(
        a.load_values(&vec![(5, -VALUE_LIMIT - 1)]),
        Err(TableError::ValueOutOfRange),
    );
}

#[test]
fn failed_load_leaves_the_table_untouched() {
    let mut a = SmartMorpion::default();
    assert_eq!(a.load_values(&vec![(5, 42_000_000)]), Ok(()));
    assert_eq!(
        a.load_values(&vec![(7, 1), (-3, 0)]),
        Err(TableError::KeyOutOfRange),
    );
    assert_eq!(a.export_values(), vec![(5, 42_000_000)]);
}

#[test]
fn load_then_export_round_trips_entries_in_key_order() {
    let mut a = SmartMorpion::default();
    assert_eq!(a.load_values(&vec![(9, -7), (2, 3), (2, 4)]), Ok(()));
    assert_eq!(a.export_values(), vec![(2, 4), (9, -7)]);
}

#[test]
fn greedy_self_play_finishes_every_episode_cleanly() {
    // With exploration pinned to zero the whole run is deterministic
    // apart from the table it builds; the board must come back reset.
    let mut a = SmartMorpion::default();
    a.set_epsilon_zero();
    a.main_loop(3);
    assert_eq!(a.get_self_state(), 0);
    assert!(!a.game.is_finished());
}
