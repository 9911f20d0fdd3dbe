use lights_out::session::GameSession;

fn flat(n: usize, r: usize, c: usize) -> usize {
    r * n + c
}

/// The cells a press at (r, c) flips on an n-wide board, applied to a copy.
fn press_on(cells: &[bool], n: usize, r: usize, c: usize) -> Vec<bool> {
    let mut out = cells.to_vec();
    out[flat(n, r, c)] = !out[flat(n, r, c)];
    if c > 0 {
        out[flat(n, r, c - 1)] = !out[flat(n, r, c - 1)];
    }
    if c < n - 1 {
        out[flat(n, r, c + 1)] = !out[flat(n, r, c + 1)];
    }
    if r > 0 {
        out[flat(n, r - 1, c)] = !out[flat(n, r - 1, c)];
    }
    if r < n - 1 {
        out[flat(n, r + 1, c)] = !out[flat(n, r + 1, c)];
    }
    out
}

#[test]
fn new_session_state() {
    let s = GameSession::new(5, 80, 24);
    assert_eq!(s.moves, 0);
    assert!(!s.has_won);
    assert!(!s.exit);
    assert!(!s.keyboard_mode);
    assert!(s.mouse_released);
    assert!(s.input_buffer.is_empty());
    assert_eq!(s.message, "Welcome!");
    assert_eq!(s.board.n, 5);
    assert_eq!(s.layout.table_x, 18);
}

#[test]
fn mode_switch_rejected_for_27() {
    let mut s = GameSession::new(27, 80, 24);
    let before = s.board.cells.clone();
    s.handle_key_press(0, b'k');
    assert!(!s.keyboard_mode);
    assert_eq!(s.message, "Board size is too large for keyboard mode!");
    assert_eq!(s.board.cells, before);
    assert_eq!(s.moves, 0);
}

#[test]
fn mode_switch_accepted_for_26() {
    let mut s = GameSession::new(26, 80, 24);
    s.handle_key_press(0, b'k');
    assert!(s.keyboard_mode);
    assert_eq!(s.message, "Switched to keyboard mode.");
}

#[test]
fn mode_switch_back_via_colon_command() {
    let mut s = GameSession::new(5, 80, 24);
    s.handle_key_press(0, b'k');
    assert!(s.keyboard_mode);
    s.handle_key_press(0, b':');
    s.handle_key_press(0, b'k');
    assert!(!s.keyboard_mode);
    assert_eq!(s.message, "Switched to mouse mode.");
    assert!(s.input_buffer.is_empty());
}

#[test]
fn keyboard_a1_toggles_origin() {
    let mut s = GameSession::new(5, 80, 24);
    s.handle_key_press(0, b'k');
    let before = s.board.cells.clone();
    s.handle_key_press(0, b'a');
    assert_eq!(s.input_buffer, vec![b'A']);
    assert_eq!(s.moves, 0);
    s.handle_key_press(0, b'1');
    assert!(s.input_buffer.is_empty());
    assert_eq!(s.moves, 1);
    assert_eq!(s.board.cells, press_on(&before, 5, 0, 0));
}

#[test]
fn keyboard_c3_toggles_row2_col2() {
    let mut s = GameSession::new(5, 80, 24);
    s.handle_key_press(0, b'k');
    let before = s.board.cells.clone();
    s.handle_key_press(0, b'c');
    s.handle_key_press(0, b'3');
    assert_eq!(s.moves, 1);
    assert_eq!(s.board.cells, press_on(&before, 5, 2, 2));
}

#[test]
fn keyboard_column_zero_is_kept_not_pressed() {
    let mut s = GameSession::new(5, 80, 24);
    s.handle_key_press(0, b'k');
    let before = s.board.cells.clone();
    s.handle_key_press(0, b'a');
    s.handle_key_press(0, b'0');
    // "A0" denotes no positive column: silently kept, nothing pressed
    assert_eq!(s.input_buffer, vec![b'A', b'0']);
    assert_eq!(s.moves, 0);
    assert_eq!(s.board.cells, before);
    // one more digit makes it "A01", column 1: pressed and cleared
    s.handle_key_press(0, b'1');
    assert!(s.input_buffer.is_empty());
    assert_eq!(s.moves, 1);
    assert_eq!(s.board.cells, press_on(&before, 5, 0, 0));
}

#[test]
fn keyboard_non_letter_first_byte_is_kept() {
    let mut s = GameSession::new(5, 80, 24);
    s.handle_key_press(0, b'k');
    let before = s.board.cells.clone();
    s.handle_key_press(0, b'1');
    s.handle_key_press(0, b'1');
    assert_eq!(s.input_buffer, vec![b'1', b'1']);
    assert_eq!(s.moves, 0);
    assert_eq!(s.board.cells, before);
}

#[test]
fn keyboard_non_digit_column_is_kept() {
    let mut s = GameSession::new(5, 80, 24);
    s.handle_key_press(0, b'k');
    let before = s.board.cells.clone();
    s.handle_key_press(0, b'a');
    s.handle_key_press(0, b'x');
    assert_eq!(s.input_buffer, vec![b'A', b'X']);
    assert_eq!(s.moves, 0);
    assert_eq!(s.board.cells, before);
}

#[test]
fn backspace_removes_last_buffered_byte() {
    let mut s = GameSession::new(5, 80, 24);
    s.handle_key_press(0, b'k');
    s.handle_key_press(0, b':');
    s.handle_key_press(0, b'x');
    assert_eq!(s.input_buffer, vec![b':', b'X']);
    s.handle_key_press(127, 0);
    assert_eq!(s.input_buffer, vec![b':']);
    s.handle_key_press(127, 0);
    assert!(s.input_buffer.is_empty());
    // backspace on an empty buffer is a no-op
    s.handle_key_press(127, 0);
    assert!(s.input_buffer.is_empty());
}

#[test]
fn unrecognized_colon_command_keeps_accumulating() {
    let mut s = GameSession::new(5, 80, 24);
    s.handle_key_press(0, b'k');
    s.handle_key_press(0, b':');
    s.handle_key_press(0, b'x');
    s.handle_key_press(0, b'y');
    assert_eq!(s.input_buffer, vec![b':', b'X', b'Y']);
}

#[test]
fn quit_command_sets_exit() {
    let mut s = GameSession::new(5, 80, 24);
    s.handle_key_press(0, b'q');
    assert!(s.exit);
    let mut s2 = GameSession::new(5, 80, 24);
    s2.handle_key_press(0, b'k');
    s2.handle_key_press(0, b':');
    s2.handle_key_press(0, b'q');
    assert!(s2.exit);
    assert!(s2.input_buffer.is_empty());
}

#[test]
fn reset_zeroes_moves_and_win_flag() {
    let mut s = GameSession::new(5, 80, 24);
    s.handle_key_press(0, b'k');
    s.handle_key_press(0, b'a');
    s.handle_key_press(0, b'1');
    assert_eq!(s.moves, 1);
    s.handle_key_press(0, b':');
    s.handle_key_press(0, b'r');
    assert_eq!(s.moves, 0);
    assert!(!s.has_won);
    assert!(s.input_buffer.is_empty());
    assert_eq!(s.board.n, 5);
}

#[test]
fn click_outside_table_only_closes_latch() {
    let mut s = GameSession::new(5, 80, 24);
    let before = s.board.cells.clone();
    assert!(s.mouse_released);
    s.handle_mouse_left(1, 1);
    assert_eq!(s.board.cells, before);
    assert_eq!(s.moves, 0);
    assert!(!s.mouse_released);
    s.handle_mouse_release();
    assert!(s.mouse_released);
}

#[test]
fn click_inside_toggles_and_debounces() {
    let mut s = GameSession::new(5, 80, 24);
    let before = s.board.cells.clone();
    // cell (1, 1) at design resolution: x = 18 + 9 + 1, y = 1 + 4 + 1
    s.handle_mouse_left(28, 6);
    assert_eq!(s.moves, 1);
    assert_eq!(s.board.cells, press_on(&before, 5, 1, 1));
    // held button: the latch is closed, a second click does not register
    s.handle_mouse_left(28, 6);
    assert_eq!(s.moves, 1);
    s.handle_mouse_release();
    s.handle_mouse_left(28, 6);
    assert_eq!(s.moves, 2);
    assert_eq!(s.board.cells, before);
}

#[test]
fn click_in_keyboard_mode_ignored() {
    let mut s = GameSession::new(5, 80, 24);
    s.handle_key_press(0, b'k');
    let before = s.board.cells.clone();
    s.handle_mouse_left(28, 6);
    assert_eq!(s.board.cells, before);
    assert_eq!(s.moves, 0);
    assert!(!s.mouse_released);
}

#[test]
fn winning_sets_flag_and_blocks_further_toggles() {
    let mut s = GameSession::new(5, 80, 24);
    // put the board one press away from solved
    s.board.cells = press_on(&vec![false; 25], 5, 2, 2);
    s.handle_key_press(0, b'k');
    s.handle_key_press(0, b'c');
    s.handle_key_press(0, b'3');
    assert!(s.has_won);
    assert_eq!(s.moves, 1);
    assert!(s.board.cells.iter().all(|b| !b));
    // with the game won, further coordinates are kept, not pressed
    s.handle_key_press(0, b'a');
    s.handle_key_press(0, b'1');
    assert_eq!(s.moves, 1);
    assert_eq!(s.input_buffer, vec![b'A', b'1']);
}

#[test]
fn resize_recomputes_layout_only() {
    let mut s = GameSession::new(5, 80, 24);
    let before = s.board.cells.clone();
    s.handle_resize(120, 40);
    assert_eq!(s.layout.table_x, 27);
    assert_eq!(s.layout.table_y, 2);
    assert_eq!(s.layout.block_w, 13);
    assert_eq!(s.layout.block_h, 7);
    assert_eq!(s.board.cells, before);
    assert_eq!(s.moves, 0);
}
