use lights_out::board::Board;

fn idx(n: usize, r: usize, c: usize) -> usize {
    r * n + c
}

#[test]
fn press_center_lights_cross() {
    let mut b = Board::new(5);
    assert!(b.is_solved());
    b.press_button(2, 2);
    let mut expected = vec![false; 25];
    expected[idx(5, 2, 2)] = true;
    expected[idx(5, 1, 2)] = true;
    expected[idx(5, 3, 2)] = true;
    expected[idx(5, 2, 1)] = true;
    expected[idx(5, 2, 3)] = true;
    assert_eq!(b.cells, expected);
    assert!(!b.is_solved());
    b.press_button(2, 2);
    assert_eq!(b.cells, vec![false; 25]);
    assert!(b.is_solved());
}

#[test]
fn press_corner_has_fewer_neighbours() {
    let mut b = Board::new(5);
    b.press_button(0, 0);
    let mut expected = vec![false; 25];
    expected[idx(5, 0, 0)] = true;
    expected[idx(5, 0, 1)] = true;
    expected[idx(5, 1, 0)] = true;
    assert_eq!(b.cells, expected);
    b.press_button(4, 4);
    let mut expected2 = expected.clone();
    expected2[idx(5, 4, 4)] = true;
    expected2[idx(5, 4, 3)] = true;
    expected2[idx(5, 3, 4)] = true;
    assert_eq!(b.cells, expected2);
}

#[test]
fn press_is_self_inverse_on_generated_board() {
    let mut b = Board::new(6);
    b.generate_board();
    let snapshot = b.cells.clone();
    b.press_button(0, 3);
    b.press_button(0, 3);
    assert_eq!(b.cells, snapshot);
    b.press_button(5, 5);
    b.press_button(5, 5);
    assert_eq!(b.cells, snapshot);
}

#[test]
fn solved_iff_every_cell_unlit() {
    let mut b = Board::new(4);
    assert!(b.is_solved());
    b.cells[idx(4, 3, 1)] = true;
    assert!(!b.is_solved());
    b.clear_board();
    assert!(b.is_solved());
    assert_eq!(b.cells, vec![false; 16]);
}

#[test]
fn generator_press_count_in_range() {
    for _ in 0..20 {
        let mut b = Board::new(5);
        let presses = b.generate_board();
        // ceil(0.2 * 25) = 5, floor(0.8 * 25) = 20
        assert!(5 <= presses.len() && presses.len() <= 20);
        for p in presses {
            assert!(p < 25);
        }
    }
}

#[test]
fn generator_replay_returns_to_solved() {
    let mut b = Board::new(5);
    let presses = b.generate_board();
    for p in presses {
        b.press_button(p / 5, p % 5);
    }
    assert!(b.is_solved());
}

#[test]
fn generator_replay_reversed_also_solves() {
    let mut b = Board::new(7);
    let presses = b.generate_board();
    for p in presses.iter().rev() {
        b.press_button(p / 7, p % 7);
    }
    assert!(b.is_solved());
}
