//! The game session and its input state machine: move count, win flag,
//! input mode, the keyboard input buffer, and the handlers that drive a
//! session from key presses, mouse clicks and resize events.
//!
//! Input arrives as plain values (the key's ASCII byte, the raw system code,
//! physical click coordinates), so the whole dispatcher is ordinary verified
//! logic; the event loop that polls a terminal for these values lives
//! outside the library.

use vstd::prelude::*;
use crate::board::{
    all_unlit, apply_presses, press_spec, solved_seq, Board, MAX_N,
};
use crate::layout::{compute_layout, layout_spec, point_to_cell, LayoutInfo, MAX_DIM};

verus! {

/// The quit command byte, `Q`.
pub const KEY_QUIT: u8 = 81;

/// The reset command byte, `R`.
pub const KEY_RESET: u8 = 82;

/// The mode-toggle command byte, `K`.
pub const KEY_MODE: u8 = 75;

/// The command prefix byte, `:`.
pub const KEY_COLON: u8 = 58;

/// The uppercased form of an ASCII byte; other bytes pass unchanged.
pub open spec fn upper(b: u8) -> u8 {
    if 97 <= b && b <= 122 {
        (b - 32) as u8
    } else {
        b
    }
}

fn to_upper(b: u8) -> (r: u8)
    ensures
        r == upper(b),
{
    if b >= 97 && b <= 122 {
        b - 32
    } else {
        b
    }
}

/// `cmd` is the single-byte command `ch`.
pub open spec fn is_cmd(cmd: Seq<u8>, ch: u8) -> bool {
    cmd.len() == 1 && cmd[0] == ch
}

/// The commands the session recognizes: quit, reset, mode toggle.
pub open spec fn is_known_command(cmd: Seq<u8>) -> bool {
    ||| is_cmd(cmd, KEY_QUIT)
    ||| is_cmd(cmd, KEY_RESET)
    ||| is_cmd(cmd, KEY_MODE)
}

/// `b` is an ASCII decimal digit.
pub open spec fn is_digit(b: u8) -> bool {
    48 <= b <= 57
}

/// Every byte of `s` is an ASCII decimal digit.
pub open spec fn all_digits(s: Seq<u8>) -> bool {
    forall|i: int| 0 <= i < s.len() ==> is_digit(#[trigger] s[i])
}

/// The number the digit string `s` denotes, most significant digit first.
pub open spec fn digits_val(s: Seq<u8>) -> int
    decreases s.len(),
{
    if s.len() == 0 {
        0
    } else {
        digits_val(s.drop_last()) * 10 + (s.last() - 48)
    }
}

/// The 0-indexed row a coordinate buffer addresses: the alphabetic position
/// of its leading letter.
pub open spec fn coord_row(buf: Seq<u8>) -> int {
    buf[0] - 65
}

/// The 0-indexed column: the buffer's digits read as a positive integer,
/// minus one.
pub open spec fn coord_col(buf: Seq<u8>) -> int {
    digits_val(buf.drop_first()) - 1
}

/// The buffer addresses a real cell of an `n`-dimension board: a capital
/// letter, then at least one digit, denoting a positive column number, both
/// indices on the board.
pub open spec fn coord_valid(buf: Seq<u8>, n: int) -> bool {
    &&& buf.len() >= 2
    &&& 65 <= buf[0] <= 90
    &&& all_digits(buf.drop_first())
    &&& 1 <= digits_val(buf.drop_first())
    &&& coord_row(buf) < n
    &&& coord_col(buf) < n
}

/// A Lights Out session: the board, the derived layout, and the input state
/// machine around them.
pub struct GameSession {
    pub board: Board,
    pub layout: LayoutInfo,
    /// Count of accepted toggles since the last reset.
    pub moves: u64,
    /// True iff the last accepted toggle left every cell unlit.
    pub has_won: bool,
    /// Set by the quit command; the event loop stops on it.
    pub exit: bool,
    /// False: mouse mode; true: keyboard mode.
    pub keyboard_mode: bool,
    /// Debounce latch: a press registers only while this is true.
    pub mouse_released: bool,
    /// Accumulates a typed coordinate or command in keyboard mode.
    pub input_buffer: Vec<u8>,
    /// The user-facing status line.
    pub message: String,
}

/// The board can be reached from the solved board by some finite sequence of
/// in-range presses, and is therefore solvable.
pub open spec fn reachable_from_solved(b: Board) -> bool {
    exists|ps: Seq<usize>|
        (forall|i: int| 0 <= i < ps.len() ==> (#[trigger] ps[i]) < b.n * b.n) && b.cells@
            == apply_presses(solved_seq(b.n as int), b.n as int, ps)
}

/// `post` is `pre` with any other input buffer and nothing else changed.
pub open spec fn unchanged_but_buffer(pre: GameSession, post: GameSession) -> bool {
    post == (GameSession { input_buffer: post.input_buffer, ..pre })
}

/// What a recognized command does to the session, the input buffer aside
/// (the dispatcher, not the command, decides what happens to the buffer):
///   - quit sets the exit flag;
///   - reset re-generates the board (to something solvable of the same
///     dimension) and zeroes the move count and win flag;
///   - the mode toggle flips the input mode and reports it, except that a
///     board with more than 26 rows cannot be addressed by letters, so
///     switching to keyboard mode is then refused with a message and no
///     state change;
///   - anything else changes nothing.
pub open spec fn command_effect(pre: GameSession, cmd: Seq<u8>, post: GameSession) -> bool {
    if is_cmd(cmd, KEY_QUIT) {
        post == (GameSession { exit: true, input_buffer: post.input_buffer, ..pre })
    } else if is_cmd(cmd, KEY_RESET) {
        &&& post == (GameSession {
            board: post.board,
            moves: 0,
            has_won: false,
            input_buffer: post.input_buffer,
            ..pre
        })
        &&& post.board.wf()
        &&& post.board.n == pre.board.n
        &&& reachable_from_solved(post.board)
    } else if is_cmd(cmd, KEY_MODE) {
        if pre.board.n > 26 && !pre.keyboard_mode {
            &&& post == (GameSession {
                message: post.message,
                input_buffer: post.input_buffer,
                ..pre
            })
            &&& post.message@ == "Board size is too large for keyboard mode!"@
        } else {
            &&& post == (GameSession {
                keyboard_mode: !pre.keyboard_mode,
                message: post.message,
                input_buffer: post.input_buffer,
                ..pre
            })
            &&& post.message@ == (if !pre.keyboard_mode {
                "Switched to keyboard mode."@
            } else {
                "Switched to mouse mode."@
            })
        }
    } else {
        unchanged_but_buffer(pre, post)
    }
}

/// A left click at `(x, y)` registers iff the point lies in the table
/// rectangle, inverse-maps to a real cell, the debounce latch is open and
/// the game is not already won.
pub open spec fn click_accepted(pre: GameSession, x: int, y: int) -> bool {
    &&& pre.layout.in_table(x, y)
    &&& pre.layout.point_row(x) < pre.board.n
    &&& pre.layout.point_col(y) < pre.board.n
    &&& pre.mouse_released
    &&& !pre.has_won
}

/// What a left click does to the session, the debounce latch aside: a
/// registered click presses the resolved cell, counts the move and
/// recomputes the win flag; any other click changes nothing.
pub open spec fn click_effect(pre: GameSession, x: int, y: int, post: GameSession) -> bool {
    if click_accepted(pre, x, y) {
        &&& post == (GameSession {
            board: post.board,
            moves: post.moves,
            has_won: post.has_won,
            mouse_released: post.mouse_released,
            ..pre
        })
        &&& post.board.n == pre.board.n
        &&& post.board.cells@ == press_spec(
            pre.board.cells@,
            pre.board.n as int,
            pre.layout.point_row(x),
            pre.layout.point_col(y),
        )
        &&& post.moves == pre.moves + 1
        &&& post.has_won == all_unlit(post.board.cells@)
    } else {
        post == (GameSession { mouse_released: post.mouse_released, ..pre })
    }
}

/// What one key event does to the session.
///
/// In mouse mode the uppercased key is a single-byte command. In keyboard
/// mode a printable key is appended (uppercased) to the buffer; a buffer
/// starting with `:` holds a command, which runs and clears the buffer when
/// recognized and keeps accumulating when not; any other buffer of at least
/// two bytes is tried as a `<letter><digits>` coordinate, which presses the
/// addressed cell and clears the buffer when it is valid and the game not
/// yet won, and is silently kept for further input otherwise. A NUL byte
/// with the configured backspace code removes the last buffered byte.
pub open spec fn key_press_effect(
    pre: GameSession,
    system: u16,
    key: u8,
    post: GameSession,
) -> bool {
    if !pre.keyboard_mode {
        &&& command_effect(pre, seq![upper(key)], post)
        &&& post.input_buffer@ == pre.input_buffer@
    } else if key != 0 {
        let buf1 = pre.input_buffer@.push(upper(key));
        if buf1[0] == KEY_COLON {
            if is_known_command(buf1.drop_first()) {
                &&& command_effect(pre, buf1.drop_first(), post)
                &&& post.input_buffer@ == Seq::<u8>::empty()
            } else {
                &&& unchanged_but_buffer(pre, post)
                &&& post.input_buffer@ == buf1
            }
        } else if coord_valid(buf1, pre.board.n as int) && !pre.has_won {
            &&& post == (GameSession {
                board: post.board,
                moves: post.moves,
                has_won: post.has_won,
                input_buffer: post.input_buffer,
                ..pre
            })
            &&& post.board.n == pre.board.n
            &&& post.board.cells@ == press_spec(
                pre.board.cells@,
                pre.board.n as int,
                coord_row(buf1),
                coord_col(buf1),
            )
            &&& post.moves == pre.moves + 1
            &&& post.has_won == all_unlit(post.board.cells@)
            &&& post.input_buffer@ == Seq::<u8>::empty()
        } else {
            &&& unchanged_but_buffer(pre, post)
            &&& post.input_buffer@ == buf1
        }
    } else if system == 127 {
        &&& unchanged_but_buffer(pre, post)
        &&& post.input_buffer@ == (if pre.input_buffer@.len() > 0 {
            pre.input_buffer@.drop_last()
        } else {
            pre.input_buffer@
        })
    } else {
        post == pre
    }
}

impl GameSession {
    /// A session the handlers can work with: a well-formed board of
    /// dimension at least 2 (the generator's range collapses on a 1-cell
    /// board) and a layout computed for that same dimension.
    pub open spec fn wf(self) -> bool {
        &&& self.board.wf()
        &&& 2 <= self.board.n
        &&& self.layout.wf()
        &&& self.layout.n == self.board.n
    }

    /// A fresh session: a generated (solvable, non-trivial) board of
    /// dimension `n`, a layout for the given terminal size, mouse mode, an
    /// open latch and a welcome message.
    pub fn new(n: usize, w: usize, h: usize) -> (s: GameSession)
        requires
            2 <= n <= MAX_N,
            1 <= w <= MAX_DIM,
            3 <= h <= MAX_DIM,
        ensures
            s.wf(),
            s.board.n == n,
            reachable_from_solved(s.board),
            s.layout == layout_spec(n as int, w as int, h as int),
            s.moves == 0,
            s.has_won == false,
            s.exit == false,
            s.keyboard_mode == false,
            s.mouse_released == true,
            s.input_buffer@ == Seq::<u8>::empty(),
            s.message@ == "Welcome!"@,
    {
        let mut board = Board::new(n);
        let presses = board.generate_board();
        let layout = compute_layout(n, w, h);
        let s = GameSession {
            board,
            layout,
            moves: 0,
            has_won: false,
            exit: false,
            keyboard_mode: false,
            mouse_released: true,
            input_buffer: Vec::new(),
            message: "Welcome!".to_owned(),
        };
        proof {
            assert(s.input_buffer@ =~= Seq::<u8>::empty());
            assert(s.board.cells@ == apply_presses(
                solved_seq(s.board.n as int),
                s.board.n as int,
                presses@,
            ));
        }
        s
    }

    /// Zero the move count and win flag and re-generate the board; the rest
    /// of the session, the input buffer included, stays.
    pub fn reset(&mut self)
        requires
            old(self).wf(),
        ensures
            final(self).wf(),
            *final(self) == (GameSession {
                board: final(self).board,
                moves: 0,
                has_won: false,
                ..*old(self)
            }),
            final(self).board.wf(),
            final(self).board.n == old(self).board.n,
            reachable_from_solved(final(self).board),
    {
        self.has_won = false;
        self.moves = 0;
        let presses = self.board.generate_board();
        proof {
            assert(self.board.cells@ == apply_presses(
                solved_seq(self.board.n as int),
                self.board.n as int,
                presses@,
            ));
        }
    }

    /// Run a command buffer: quit, reset or mode toggle, as `command_effect`
    /// states; returns whether the command was recognized. The input buffer
    /// is never touched here.
    pub fn handle_command(&mut self, cmd: &Vec<u8>) -> (recognized: bool)
        requires
            old(self).wf(),
        ensures
            final(self).wf(),
            recognized == is_known_command(cmd@),
            command_effect(*old(self), cmd@, *final(self)),
            final(self).input_buffer == old(self).input_buffer,
    {
        if cmd.len() == 1 && cmd[0] == KEY_QUIT {
            self.exit = true;
            true
        } else if cmd.len() == 1 && cmd[0] == KEY_RESET {
            self.reset();
            true
        } else if cmd.len() == 1 && cmd[0] == KEY_MODE {
            if self.board.n > 26 && !self.keyboard_mode {
                self.message = "Board size is too large for keyboard mode!".to_owned();
            } else {
                self.keyboard_mode = !self.keyboard_mode;
                self.message = (if self.keyboard_mode {
                    "Switched to keyboard mode."
                } else {
                    "Switched to mouse mode."
                }).to_owned();
            }
            true
        } else {
            false
        }
    }

    /// One key event, as `key_press_effect` states: a command in mouse
    /// mode; buffer accumulation, command dispatch or coordinate entry in
    /// keyboard mode.
    pub fn handle_key_press(&mut self, system: u16, key: u8)
        requires
            old(self).wf(),
            old(self).moves < u64::MAX,
        ensures
            final(self).wf(),
            key_press_effect(*old(self), system, key, *final(self)),
    {
        if !self.keyboard_mode {
            let mut cmd: Vec<u8> = Vec::new();
            cmd.push(to_upper(key));
            proof {
                assert(cmd@ =~= seq![upper(key)]);
            }
            self.handle_command(&cmd);
        } else if key != 0 {
            self.input_buffer.push(to_upper(key));
            let ghost buf1 = self.input_buffer@;
            if self.input_buffer[0] == KEY_COLON {
                let mut cmd: Vec<u8> = Vec::new();
                let len = self.input_buffer.len();
                let mut i: usize = 1;
                while i < len
                    invariant
                        1 <= i <= len,
                        len == self.input_buffer@.len(),
                        cmd@ == self.input_buffer@.subrange(1, i as int),
                    decreases len - i,
                {
                    cmd.push(self.input_buffer[i]);
                    proof {
                        assert(cmd@ =~= self.input_buffer@.subrange(1, i + 1 as int));
                    }
                    i += 1;
                }
                proof {
                    assert(cmd@ =~= buf1.drop_first());
                }
                let recognized = self.handle_command(&cmd);
                if recognized {
                    self.input_buffer = Vec::new();
                    proof {
                        assert(self.input_buffer@ =~= Seq::<u8>::empty());
                    }
                }
            } else {
                if self.input_buffer.len() >= 2 {
                    let b0 = self.input_buffer[0];
                    if b0 >= 65 && b0 <= 90 {
                        let row = (b0 - 65) as usize;
                        match parse_digits(&self.input_buffer) {
                            Option::Some(v) => {
                                if v >= 1 && row < self.board.n && v - 1 < self.board.n
                                    && !self.has_won {
                                    let col = v - 1;
                                    self.board.press_button(row, col);
                                    self.moves = self.moves + 1;
                                    self.has_won = self.board.is_solved();
                                    self.input_buffer = Vec::new();
                                    proof {
                                        assert(self.input_buffer@ =~= Seq::<u8>::empty());
                                        assert(coord_valid(buf1, old(self).board.n as int));
                                    }
                                } else {
                                    proof {
                                        assert(!(coord_valid(buf1, old(self).board.n as int)
                                            && !old(self).has_won));
                                    }
                                }
                            },
                            Option::None => {
                                proof {
                                    if coord_valid(buf1, old(self).board.n as int) {
                                        lemma_digits_val_nonneg(buf1.drop_first());
                                        assert(digits_val(buf1.drop_first()) <= usize::MAX as int);
                                    }
                                }
                            },
                        }
                    }
                }
            }
        } else if system == 127 {
            self.input_buffer.pop();
        }
    }

    /// A left click at physical point `(x, y)`, as `click_effect` states;
    /// the debounce latch itself is the mouse event handler's business, not
    /// this function's.
    pub fn handle_left_click(&mut self, x: usize, y: usize)
        requires
            old(self).wf(),
            old(self).moves < u64::MAX,
        ensures
            final(self).wf(),
            click_effect(*old(self), x as int, y as int, *final(self)),
            final(self).mouse_released == old(self).mouse_released,
    {
        let l = self.layout;
        if x > l.table_x && x <= l.table_x + l.table_w && y > l.table_y && y <= l.table_y
            + l.table_h {
            let (row, col) = point_to_cell(&l, x, y);
            if row < self.board.n && col < self.board.n && self.mouse_released && !self.has_won {
                self.board.press_button(row, col);
                self.moves = self.moves + 1;
                self.has_won = self.board.is_solved();
            }
        }
    }

    /// A left-button mouse event: in mouse mode the click is resolved and
    /// possibly registered; in either mode the debounce latch closes, so a
    /// held button cannot register twice.
    pub fn handle_mouse_left(&mut self, x: usize, y: usize)
        requires
            old(self).wf(),
            old(self).moves < u64::MAX,
        ensures
            final(self).wf(),
            final(self).mouse_released == false,
            old(self).keyboard_mode ==> *final(self) == (GameSession {
                mouse_released: false,
                ..*old(self)
            }),
            !old(self).keyboard_mode ==> click_effect(*old(self), x as int, y as int, *final(self)),
    {
        if !self.keyboard_mode {
            self.handle_left_click(x, y);
        }
        self.mouse_released = false;
    }

    /// A button-release event: the debounce latch opens again.
    pub fn handle_mouse_release(&mut self)
        requires
            old(self).wf(),
        ensures
            final(self).wf(),
            *final(self) == (GameSession { mouse_released: true, ..*old(self) }),
    {
        self.mouse_released = true;
    }

    /// A resize event: recompute the layout for the new terminal size,
    /// wholesale; nothing else changes.
    pub fn handle_resize(&mut self, w: usize, h: usize)
        requires
            old(self).wf(),
            1 <= w <= MAX_DIM,
            3 <= h <= MAX_DIM,
        ensures
            final(self).wf(),
            *final(self) == (GameSession {
                layout: layout_spec(old(self).board.n as int, w as int, h as int),
                ..*old(self)
            }),
    {
        self.layout = compute_layout(self.board.n, w, h);
    }
}

/// Parse the bytes of `buf` past its first as a decimal number. `None` when
/// some byte is not a digit or the value does not fit a `usize` (the number
/// is then far too large to be a column anyway).
fn parse_digits(buf: &Vec<u8>) -> (r: Option<usize>)
    requires
        buf@.len() >= 2,
    ensures
        (match r {
            Option::Some(v) => all_digits(buf@.drop_first()) && v as int == digits_val(
                buf@.drop_first(),
            ),
            Option::None => !(all_digits(buf@.drop_first()) && digits_val(buf@.drop_first())
                <= usize::MAX as int),
        }),
{
    let ghost tail = buf@.drop_first();
    let mut val: usize = 0;
    let len = buf.len();
    let mut i: usize = 1;
    while i < len
        invariant
            1 <= i <= len,
            len == buf@.len(),
            2 <= len,
            tail == buf@.drop_first(),
            all_digits(tail.take(i - 1)),
            val as int == digits_val(tail.take(i - 1)),
        decreases len - i,
    {
        let b = buf[i];
        proof {
            assert(tail[i - 1] == buf@[i as int]);
        }
        if b < 48 || b > 57 {
            proof {
                assert(!is_digit(tail[i - 1]));
            }
            return Option::None;
        }
        let d = (b - 48) as usize;
        if val > (usize::MAX - d) / 10 {
            proof {
                lemma_mul_add_over(val as int, d as int, usize::MAX as int);
                assert(tail.take(i as int).drop_last() =~= tail.take(i - 1));
                assert(digits_val(tail.take(i as int)) == val * 10 + d > usize::MAX as int);
                if all_digits(tail) && digits_val(tail) <= usize::MAX as int {
                    lemma_digits_val_prefix(tail, i as int);
                }
            }
            return Option::None;
        }
        proof {
            lemma_mul_add_over(val as int, d as int, usize::MAX as int);
            assert(tail.take(i as int).drop_last() =~= tail.take(i - 1));
        }
        val = val * 10 + d;
        i += 1;
    }
    proof {
        assert(tail.take(len - 1) =~= tail);
    }
    Option::Some(val)
}

/// A digit string denotes a non-negative number.
pub proof fn lemma_digits_val_nonneg(s: Seq<u8>)
    requires
        all_digits(s),
    ensures
        0 <= digits_val(s),
    decreases s.len(),
{
    if s.len() > 0 {
        assert(all_digits(s.drop_last()));
        lemma_digits_val_nonneg(s.drop_last());
        assert(is_digit(s.last()));
    }
}

/// Reading more digits never makes the denoted number smaller.
pub proof fn lemma_digits_val_prefix(s: Seq<u8>, j: int)
    requires
        all_digits(s),
        0 <= j <= s.len(),
    ensures
        digits_val(s.take(j)) <= digits_val(s),
    decreases s.len(),
{
    if j == s.len() {
        assert(s.take(j) =~= s);
    } else {
        assert(all_digits(s.drop_last()));
        assert(s.drop_last().take(j) =~= s.take(j));
        lemma_digits_val_prefix(s.drop_last(), j);
        lemma_digits_val_nonneg(s.drop_last());
        assert(is_digit(s.last()));
    }
}

/// `a * 10 + d` exceeds `m` exactly when `a` exceeds `(m - d) / 10`.
proof fn lemma_mul_add_over(a: int, d: int, m: int)
    requires
        0 <= a,
        0 <= d <= 9,
        d <= m,
    ensures
        a > (m - d) / 10 ==> a * 10 + d > m,
        a <= (m - d) / 10 ==> a * 10 + d <= m,
{
    let q = (m - d) / 10;
    let r = (m - d) % 10;
    vstd::arithmetic::div_mod::lemma_fundamental_div_mod(m - d, 10);
    vstd::arithmetic::div_mod::lemma_mod_bound(m - d, 10);
    assert(m - d == 10 * q + r);
    assert(a > q ==> a * 10 >= (q + 1) * 10) by (nonlinear_arith)
        requires
            0 <= a,
    ;
    assert((q + 1) * 10 == 10 * q + 10);
    assert(a <= q ==> a * 10 <= q * 10) by (nonlinear_arith)
        requires
            0 <= a,
    ;
    assert(q * 10 == 10 * q);
}

} // verus!
