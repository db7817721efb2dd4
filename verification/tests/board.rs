use morpion::Cell;
use morpion::Morpion;
use morpion::Player;

#[test]
fn fresh_board_has_nine_legal_moves() {
    let mut b = Morpion::default();
    let moves = b.get_valid_moves();
    assert_eq!(moves, vec![0, 1, 2, 3, 4, 5, 6, 7, 8]);
    assert!(!b.is_finished());
}

#[test]
fn legal_moves_are_exactly_the_empty_cells() {
    let mut b = Morpion::default();
    assert_eq!(b.make_move(&4), 0);
    let moves = b.get_valid_moves();
    assert_eq!(moves, vec![0, 1, 2, 3, 5, 6, 7, 8]);
    let cells = b.cells();
    for i in 0..9usize {
        assert_eq!(moves.contains(&i), cells[i] == Cell::Empty);
    }
}

#[test]
fn legal_moves_shrink_by_one_per_move() {
    let mut b = Morpion::default();
    let mut expected = 9;
    for cell in [0usize, 2, 1, 3, 5].iter() {
        assert_eq!(b.get_valid_moves().len(), expected);
        b.make_move(cell);
        expected -= 1;
        assert_eq!(b.get_valid_moves().len(), expected);
    }
}

#[test]
fn check_valid_move_tracks_occupancy() {
    let mut b = Morpion::default();
    assert!(b.check_valid_move(&0));
    b.make_move(&0);
    assert!(!b.check_valid_move(&0));
    assert!(b.check_valid_move(&1));
}

#[test]
fn diagonal_win_by_player_a_rewards_plus_100() {
    // PlayerA: 0, 4, 8 (the main diagonal); PlayerB: 1, 2.
    let mut b = Morpion::default();
    assert_eq!(b.make_move(&0), 0);
    assert!(!b.is_finished());
    assert_eq!(b.make_move(&1), 0);
    assert_eq!(b.make_move(&4), 0);
    assert_eq!(b.make_move(&2), 0);
    assert_eq!(b.make_move(&8), 100);
    assert!(b.is_finished());
}

#[test]
fn row_win_by_player_b_rewards_minus_100() {
    // PlayerA: 3, 4, 8 (never a line); PlayerB: 0, 1, 2 (top row).
    let mut b = Morpion::default();
    assert_eq!(b.make_move(&3), 0);
    assert_eq!(b.make_move(&0), 0);
    assert_eq!(b.make_move(&4), 0);
    assert_eq!(b.make_move(&1), 0);
    assert_eq!(b.make_move(&8), 0);
    assert!(!b.is_finished());
    assert_eq!(b.make_move(&2), -100);
    assert!(b.is_finished());
}

#[test]
fn full_board_without_line_is_a_draw() {
    // Final grid: A A B / B B A / A A B, no line for either player.
    let mut b = Morpion::default();
    let order = [0usize, 2, 1, 3, 5, 4, 6, 8, 7];
    for (n, cell) in order.iter().enumerate() {
        let reward = b.make_move(cell);
        assert_eq!(reward, 0);
        if n + 1 < order.len() {
            assert!(!b.is_finished());
        }
    }
    assert!(b.is_finished());
    assert_eq!(b.get_valid_moves().len(), 0);
}

#[test]
fn reset_is_indistinguishable_from_fresh_by_encode() {
    let mut b = Morpion::default();
    b.make_move(&0);
    b.make_move(&4);
    b.reset();
    let fresh = Morpion::default();
    assert_eq!(
        morpion::SmartMorpion::get_state(&b.cells()),
        morpion::SmartMorpion::get_state(&fresh.cells()),
    );
    assert!(!b.is_finished());
    assert_eq!(b.get_valid_moves().len(), 9);
}

#[test]
fn check_win_sees_the_mover_line() {
    // After a winning move the turn does not pass, so the current
    // player is the winner and check_win reports the completed line.
    let mut b = Morpion::default();
    b.make_move(&0);
    b.make_move(&3);
    b.make_move(&1);
    b.make_move(&4);
    assert!(!b.check_win());
    b.make_move(&2);
    assert!(b.check_win());
}

#[test]
fn from_cells_holds_the_given_position() {
    let mut grid = [Cell::Empty; 9];
    grid[0] = Cell::PlayerB;
    let mut b = Morpion::from_cells(grid, Player::PlayerA);
    assert!(!b.is_finished());
    assert_eq!(b.cells()[0], Cell::PlayerB);
    assert_eq!(b.get_valid_moves(), vec![1, 2, 3, 4, 5, 6, 7, 8]);
}
