use morpion::Cell;
use morpion::SmartMorpion;

#[test]
fn empty_grid_encodes_to_zero() {
    assert_eq!(SmartMorpion::get_state(&[Cell::Empty; 9]), 0);
}

#[test]
fn single_marks_encode_to_weighted_powers_of_three() {
    let mut g = [Cell::Empty; 9];
    g[0] = Cell::PlayerA;
    assert_eq!(SmartMorpion::get_state(&g), 1);
    g[0] = Cell::PlayerB;
    assert_eq!(SmartMorpion::get_state(&g), 2);
    let mut h = [Cell::Empty; 9];
    h[8] = Cell::PlayerA;
    assert_eq!(SmartMorpion::get_state(&h), 6561);
    h[8] = Cell::PlayerB;
    assert_eq!(SmartMorpion::get_state(&h), 13122);
}

#[test]
fn mixed_grid_encodes_positionally() {
    // 2 * 3^0 + 1 * 3^1 == 5.
    let mut g = [Cell::Empty; 9];
    g[0] = Cell::PlayerB;
    g[1] = Cell::PlayerA;
    assert_eq!(SmartMorpion::get_state(&g), 5);
}

#[test]
fn full_grid_of_b_marks_encodes_to_the_top_key() {
    // 2 * (3^9 - 1) / 2 == 3^9 - 1 == 19682.
    assert_eq!(SmartMorpion::get_state(&[Cell::PlayerB; 9]), 19682);
}

#[test]
fn encoding_is_referentially_transparent() {
    let mut g = [Cell::Empty; 9];
    g[3] = Cell::PlayerA;
    g[7] = Cell::PlayerB;
    assert_eq!(SmartMorpion::get_state(&g), SmartMorpion::get_state(&g));
}

#[test]
fn distinct_positions_get_distinct_keys() {
    // A spot check of injectivity over every one-mark configuration.
    let mut seen = Vec::new();
    for i in 0..9usize {
        for mark in [Cell::PlayerA, Cell::PlayerB].iter() {
            let mut g = [Cell::Empty; 9];
            g[i] = *mark;
            let key = SmartMorpion::get_state(&g);
            assert!(!seen.contains(&key));
            seen.push(key);
        }
    }
}
