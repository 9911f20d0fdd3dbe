//! The board model: an N-by-N grid of boolean cells stored as a flat vector,
//! where pressing a cell flips it together with its orthogonal neighbours.

use vstd::prelude::*;
use vstd::arithmetic::div_mod::{
    lemma_fundamental_div_mod, lemma_fundamental_div_mod_converse, lemma_mod_bound,
};
use vstd::arithmetic::mul::lemma_mul_inequality;

verus! {

/// The largest board dimension the library accepts; keeps every index and
/// layout computation comfortably inside `usize` on any platform.
pub const MAX_N: usize = 1000;

/// The cleared board of dimension `n`: all of the `n * n` cells unlit.
pub open spec fn solved_seq(n: int) -> Seq<bool> {
    Seq::new((n * n) as nat, |i: int| false)
}

/// Every cell of `b` is unlit.
pub open spec fn all_unlit(b: Seq<bool>) -> bool {
    forall|i: int| 0 <= i < b.len() ==> !b[i]
}

/// Flat index `i` lies in the plus-shaped neighbourhood of cell `(r, c)` on a
/// grid `n` cells wide: the cell itself or one of its orthogonal neighbours.
pub open spec fn in_cross(n: int, r: int, c: int, i: int) -> bool {
    let ri = i / n;
    let ci = i % n;
    ||| (ri == r && ci == c)
    ||| (ri == r && ci == c - 1)
    ||| (ri == r && ci == c + 1)
    ||| (ri == r - 1 && ci == c)
    ||| (ri == r + 1 && ci == c)
}

/// Pressing cell `(r, c)`: every cell in its cross flips, all others stay.
pub open spec fn press_spec(b: Seq<bool>, n: int, r: int, c: int) -> Seq<bool> {
    Seq::new(b.len(), |i: int| b[i] != in_cross(n, r, c, i))
}

/// Pressing the cell with flat position `p`, that is row `p / n`, column `p % n`.
pub open spec fn press_lin(b: Seq<bool>, n: int, p: int) -> Seq<bool> {
    press_spec(b, n, p / n, p % n)
}

/// Pressing a whole sequence of flat positions, first element first.
pub open spec fn apply_presses(b: Seq<bool>, n: int, ps: Seq<usize>) -> Seq<bool>
    decreases ps.len(),
{
    if ps.len() == 0 {
        b
    } else {
        apply_presses(press_lin(b, n, ps[0] as int), n, ps.drop_first())
    }
}

/// An N-by-N grid of boolean cells. `cells` stores row `r`, column `c` at
/// flat index `r * n + c`.
pub struct Board {
    pub n: usize,
    pub cells: Vec<bool>,
}

impl Board {
    pub open spec fn wf(self) -> bool {
        &&& 1 <= self.n <= MAX_N
        &&& self.cells@.len() == self.n * self.n
    }

    /// The state of the cell at row `r`, column `c`.
    pub open spec fn cell(self, r: int, c: int) -> bool {
        self.cells@[r * self.n + c]
    }

    /// A fresh board of dimension `n`, entirely unlit.
    pub fn new(n: usize) -> (b: Board)
        requires
            1 <= n <= MAX_N,
        ensures
            b.wf(),
            b.n == n,
            b.cells@ == solved_seq(n as int),
    {
        proof {
            lemma_n_sq_bound(n as int);
        }
        let total = n * n;
        let mut cells: Vec<bool> = Vec::new();
        let mut i: usize = 0;
        while i < total
            invariant
                i <= total,
                cells@.len() == i,
                forall|j: int| 0 <= j < i ==> !cells@[j],
            decreases total - i,
        {
            cells.push(false);
            i += 1;
        }
        let b = Board { n, cells };
        proof {
            assert(b.cells@ =~= solved_seq(n as int));
        }
        b
    }

    /// Set every cell unlit.
    pub fn clear_board(&mut self)
        requires
            old(self).wf(),
        ensures
            final(self).wf(),
            final(self).n == old(self).n,
            final(self).cells@ == solved_seq(old(self).n as int),
    {
        let total = self.cells.len();
        let mut i: usize = 0;
        while i < total
            invariant
                i <= total,
                self.n == old(self).n,
                self.cells@.len() == total,
                old(self).wf(),
                total == old(self).n * old(self).n,
                forall|j: int| 0 <= j < i ==> !self.cells@[j],
            decreases total - i,
        {
            self.cells[i] = false;
            i += 1;
        }
        proof {
            assert(self.cells@ =~= solved_seq(old(self).n as int));
        }
    }

    /// True iff every cell is unlit, that is the board equals the cleared board.
    pub fn is_solved(&self) -> (r: bool)
        requires
            self.wf(),
        ensures
            r == all_unlit(self.cells@),
            r == (self.cells@ == solved_seq(self.n as int)),
    {
        let total = self.cells.len();
        let mut i: usize = 0;
        let mut all_off = true;
        while i < total
            invariant
                i <= total,
                self.cells@.len() == total,
                all_off == (forall|j: int| 0 <= j < i ==> !self.cells@[j]),
            decreases total - i,
        {
            if self.cells[i] {
                all_off = false;
            }
            i += 1;
        }
        proof {
            lemma_solved_iff_cleared(self.cells@, self.n as int);
        }
        all_off
    }

    /// Flip cell `(r, c)` and whichever of its up/down/left/right neighbours
    /// exist; edge cells have fewer neighbours and nothing wraps around.
    pub fn press_button(&mut self, r: usize, c: usize)
        requires
            old(self).wf(),
            r < old(self).n,
            c < old(self).n,
        ensures
            final(self).wf(),
            final(self).n == old(self).n,
            final(self).cells@ == press_spec(old(self).cells@, old(self).n as int, r as int, c as int),
    {
        let n = self.n;
        proof {
            lemma_n_sq_bound(n as int);
            lemma_rc_flat(n as int, r as int, c as int);
        }
        let idx = r * n + c;
        self.cells[idx] = !self.cells[idx];
        if c > 0 {
            self.cells[idx - 1] = !self.cells[idx - 1];
        }
        if c < n - 1 {
            proof {
                lemma_rc_flat(n as int, r as int, c as int + 1);
            }
            self.cells[idx + 1] = !self.cells[idx + 1];
        }
        if r > 0 {
            proof {
                lemma_rc_flat(n as int, r as int - 1, c as int);
                assert((r as int - 1) * n + c == r as int * n + c - n) by (nonlinear_arith);
            }
            self.cells[idx - n] = !self.cells[idx - n];
        }
        if r < n - 1 {
            proof {
                lemma_rc_flat(n as int, r as int + 1, c as int);
                assert((r as int + 1) * n + c == r as int * n + c + n) by (nonlinear_arith);
            }
            self.cells[idx + n] = !self.cells[idx + n];
        }
        proof {
            let ni = n as int;
            let ri = r as int;
            let ci = c as int;
            let pre = old(self).cells@;
            assert forall|i: int| 0 <= i < pre.len() implies self.cells@[i] == (pre[i]
                != in_cross(ni, ri, ci, i)) by {
                lemma_flat_rc(ni, i);
                if ci > 0 {
                    lemma_rc_flat(ni, ri, ci - 1);
                }
                if ci < ni - 1 {
                    lemma_rc_flat(ni, ri, ci + 1);
                }
                if ri > 0 {
                    lemma_rc_flat(ni, ri - 1, ci);
                }
                if ri < ni - 1 {
                    lemma_rc_flat(ni, ri + 1, ci);
                }
            }
            assert(self.cells@ =~= press_spec(pre, ni, ri, ci));
        }
    }
}

/// The fewest presses the generator applies to a cleared board of dimension
/// `n`: the ceiling of a fifth of the cell count.
pub open spec fn press_count_min(n: int) -> int {
    (n * n + 4) / 5
}

/// The most presses the generator applies: the floor of four fifths of the
/// cell count.
pub open spec fn press_count_max(n: int) -> int {
    (4 * (n * n)) / 5
}

impl Board {
    /// Clear the board, then press a randomly chosen number of randomly
    /// chosen cells (with replacement), so that the result is reachable from
    /// the solved board and hence always solvable. Returns the flat positions
    /// pressed, in order, so that a caller can replay the exact sequence.
    pub fn generate_board(&mut self) -> (presses: Vec<usize>)
        requires
            old(self).wf(),
            2 <= old(self).n,
        ensures
            final(self).wf(),
            final(self).n == old(self).n,
            forall|k: int|
                0 <= k < presses@.len() ==> (#[trigger] presses@[k]) < old(self).n * old(self).n,
            final(self).cells@ == apply_presses(
                solved_seq(old(self).n as int),
                old(self).n as int,
                presses@,
            ),
            press_count_min(old(self).n as int) <= presses@.len() <= press_count_max(
                old(self).n as int,
            ),
    {
        self.clear_board();
        proof {
            lemma_n_sq_bound(self.n as int);
            lemma_mul_inequality(2, self.n as int, self.n as int);
        }
        let n2 = self.n * self.n;
        let lo = (n2 + 4) / 5;
        let hi = (4 * n2) / 5;
        proof {
            vstd::arithmetic::div_mod::lemma_div_is_ordered(n2 as int + 4, 4 * n2 as int, 5);
        }
        let mut rng = crate::rng::thread_rng_new();
        let k = crate::rng::rng_gen_range(&mut rng, lo, hi);
        let mut presses: Vec<usize> = Vec::new();
        let mut i: usize = 0;
        while i < k
            invariant
                i <= k,
                self.wf(),
                self.n == old(self).n,
                n2 == self.n * self.n,
                4 <= n2,
                presses@.len() == i,
                forall|j: int| 0 <= j < i ==> (#[trigger] presses@[j]) < n2,
                self.cells@ == apply_presses(solved_seq(self.n as int), self.n as int, presses@),
            decreases k - i,
        {
            let p = crate::rng::rng_gen_range(&mut rng, 0, n2 - 1);
            proof {
                lemma_flat_rc(self.n as int, p as int);
            }
            let r = p / self.n;
            let c = p % self.n;
            proof {
                lemma_apply_presses_push(
                    solved_seq(self.n as int),
                    self.n as int,
                    presses@,
                    p,
                );
            }
            self.press_button(r, c);
            presses.push(p);
            i += 1;
        }
        presses
    }
}

/// Appending a press to a sequence presses it after the rest.
pub proof fn lemma_apply_presses_push(b: Seq<bool>, n: int, ps: Seq<usize>, p: usize)
    ensures
        apply_presses(b, n, ps.push(p)) == press_lin(apply_presses(b, n, ps), n, p as int),
    decreases ps.len(),
{
    if ps.len() == 0 {
        assert(ps.push(p).drop_first() =~= Seq::<usize>::empty());
        assert(apply_presses(b, n, ps.push(p)) == apply_presses(
            press_lin(b, n, p as int),
            n,
            Seq::<usize>::empty(),
        ));
        assert(apply_presses(press_lin(b, n, p as int), n, Seq::<usize>::empty()) == press_lin(
            b,
            n,
            p as int,
        ));
    } else {
        assert(ps.push(p).drop_first() =~= ps.drop_first().push(p));
        assert(ps.push(p)[0] == ps[0]);
        assert(apply_presses(b, n, ps.push(p)) == apply_presses(
            press_lin(b, n, ps[0] as int),
            n,
            ps.drop_first().push(p),
        ));
        lemma_apply_presses_push(press_lin(b, n, ps[0] as int), n, ps.drop_first(), p);
        assert(apply_presses(b, n, ps) == apply_presses(
            press_lin(b, n, ps[0] as int),
            n,
            ps.drop_first(),
        ));
    }
}

/// The flat position of cell `(r, c)` decodes back to row `r`, column `c`,
/// and lies inside the grid.
pub proof fn lemma_rc_flat(n: int, r: int, c: int)
    requires
        1 <= n,
        0 <= r < n,
        0 <= c < n,
    ensures
        (r * n + c) / n == r,
        (r * n + c) % n == c,
        0 <= r * n + c < n * n,
{
    lemma_fundamental_div_mod_converse(r * n + c, n, r, c);
    lemma_mul_inequality(r, n - 1, n);
    assert((n - 1) * n == n * n - n) by (nonlinear_arith);
}

/// A flat index of the grid decodes to a row and a column inside the grid,
/// and re-encodes to itself.
pub proof fn lemma_flat_rc(n: int, i: int)
    requires
        1 <= n,
        0 <= i < n * n,
    ensures
        0 <= i / n < n,
        0 <= i % n < n,
        (i / n) * n + (i % n) == i,
{
    let q = i / n;
    let m = i % n;
    lemma_fundamental_div_mod(i, n);
    lemma_mod_bound(i, n);
    assert(0 <= q < n) by (nonlinear_arith)
        requires
            1 <= n,
            i == n * q + m,
            0 <= m < n,
            0 <= i < n * n,
    ;
    assert(q * n == n * q) by (nonlinear_arith);
}

/// For a board dimension within bounds, the cell count fits comfortably in
/// machine arithmetic.
pub proof fn lemma_n_sq_bound(n: int)
    requires
        0 <= n <= MAX_N,
    ensures
        n * n <= MAX_N * MAX_N,
{
    lemma_mul_inequality(n, MAX_N as int, n);
    lemma_mul_inequality(n, MAX_N as int, MAX_N as int);
}

/// A board is entirely unlit exactly when it equals the cleared board of its
/// dimension.
pub proof fn lemma_solved_iff_cleared(b: Seq<bool>, n: int)
    requires
        b.len() == n * n,
    ensures
        all_unlit(b) <==> b == solved_seq(n),
{
    if all_unlit(b) {
        assert(b =~= solved_seq(n));
    }
}

/// Pressing the same cell twice returns any board to its prior state: a
/// press is its own inverse.
pub proof fn lemma_press_self_inverse(b: Seq<bool>, n: int, r: int, c: int)
    ensures
        press_spec(press_spec(b, n, r, c), n, r, c) == b,
{
    assert(press_spec(press_spec(b, n, r, c), n, r, c) =~= b);
}

/// Two presses at any two cells land on the same board in either order.
pub proof fn lemma_press_commute(b: Seq<bool>, n: int, r1: int, c1: int, r2: int, c2: int)
    ensures
        press_spec(press_spec(b, n, r1, c1), n, r2, c2) == press_spec(
            press_spec(b, n, r2, c2),
            n,
            r1,
            c1,
        ),
{
    assert(press_spec(press_spec(b, n, r1, c1), n, r2, c2) =~= press_spec(
        press_spec(b, n, r2, c2),
        n,
        r1,
        c1,
    ));
}

/// A single press commutes past a whole sequence of presses.
pub proof fn lemma_apply_press_comm(b: Seq<bool>, n: int, s: Seq<usize>, p: int)
    ensures
        apply_presses(press_lin(b, n, p), n, s) == press_lin(apply_presses(b, n, s), n, p),
    decreases s.len(),
{
    if s.len() > 0 {
        let p0 = s[0] as int;
        lemma_press_commute(b, n, p / n, p % n, p0 / n, p0 % n);
        lemma_apply_press_comm(press_lin(b, n, p0), n, s.drop_first(), p);
    }
}

/// Replaying a sequence of presses a second time, in the same order, returns
/// any board to where it started: presses commute and each is its own
/// inverse.
pub proof fn lemma_replay_restores(b: Seq<bool>, n: int, ps: Seq<usize>)
    ensures
        apply_presses(apply_presses(b, n, ps), n, ps) == b,
    decreases ps.len(),
{
    if ps.len() > 0 {
        let p0 = ps[0] as int;
        let s = ps.drop_first();
        let b1 = press_lin(b, n, p0);
        lemma_press_self_inverse(b, n, p0 / n, p0 % n);
        lemma_apply_press_comm(b1, n, s, p0);
        assert(press_lin(apply_presses(b1, n, s), n, p0) == apply_presses(b, n, s));
        lemma_replay_restores(b, n, s);
    }
}

/// A board produced by pressing some sequence on the cleared board is
/// solvable: replaying that very sequence presses it back to solved.
pub proof fn lemma_generated_board_solvable(b0: Seq<bool>, n: int, ps: Seq<usize>)
    requires
        b0 == apply_presses(solved_seq(n), n, ps),
    ensures
        apply_presses(b0, n, ps) == solved_seq(n),
{
    lemma_replay_restores(solved_seq(n), n, ps);
}

} // verus!
