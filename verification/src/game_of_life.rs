//! The padded, double-buffered grid and the per-generation transition.
//!
//! A grid with interior `width × height` is stored as two flat buffers of
//! `(width + 2) * (height + 2)` byte cells, each 0 or 1.  The extra ring of
//! border cells is permanently 0 and is never written: every interior cell
//! can then read its eight Moore neighbors without bounds branching.  One
//! buffer is the readable "current" generation, the other is the write
//! target for the next generation; their roles swap in O(1) after each
//! completed generation.

use vstd::prelude::*;
use vstd::arithmetic::div_mod::{
    lemma_fundamental_div_mod, lemma_fundamental_div_mod_converse, lemma_mod_bound,
};
use crate::rule::{conway_born, conway_survive, Rule};

verus! {

/// Flat index of the padded cell at row `r`, column `c`, in a grid of
/// interior width `w` (padded width `w + 2`).
pub open spec fn grid_idx(w: int, r: int, c: int) -> int {
    r * (w + 2) + c
}

/// Number of cells in one padded buffer of a grid with interior `w × h`.
pub open spec fn padded_len(w: int, h: int) -> int {
    (w + 2) * (h + 2)
}

/// `(r, c)` is an interior cell of a grid with interior `w × h`.
pub open spec fn is_interior(w: int, h: int, r: int, c: int) -> bool {
    1 <= r <= h && 1 <= c <= w
}

/// `(r, c)` is any cell of the padded grid, border ring included.
pub open spec fn in_padded(w: int, h: int, r: int, c: int) -> bool {
    0 <= r <= h + 1 && 0 <= c <= w + 1
}

/// A well-formed flat buffer for interior `w × h`: the padded length,
/// every cell 0 or 1, and a zero border ring.
pub open spec fn wf_buffer(g: Seq<u8>, w: int, h: int) -> bool {
    &&& g.len() == padded_len(w, h)
    &&& forall|k: int| 0 <= k < g.len() ==> #[trigger] g[k] <= 1
    &&& forall|r: int, c: int|
        #![trigger grid_idx(w, r, c)]
        in_padded(w, h, r, c) && !is_interior(w, h, r, c) ==> g[grid_idx(w, r, c)] == 0
}

/// The cell at `(r, c)` of the flat buffer `g` with interior width `w`.
pub open spec fn cell_at(g: Seq<u8>, w: int, r: int, c: int) -> u8 {
    g[grid_idx(w, r, c)]
}

/// Sum of the eight Moore neighbors of `(r, c)`, read from `g`.  Border
/// cells contribute 0, so no wraparound and no bounds branching occur.
#[verifier::opaque]
pub open spec fn neighbor_sum(g: Seq<u8>, w: int, r: int, c: int) -> int {
    cell_at(g, w, r - 1, c - 1) + cell_at(g, w, r - 1, c) + cell_at(g, w, r - 1, c + 1)
        + cell_at(g, w, r, c - 1) + cell_at(g, w, r, c + 1) + cell_at(g, w, r + 1, c - 1)
        + cell_at(g, w, r + 1, c) + cell_at(g, w, r + 1, c + 1)
}

/// One life-like transition of the interior cell `(r, c)`: a dead cell is
/// born exactly when its neighbor sum is in the birth set, a live cell
/// survives exactly when its neighbor sum is in the survival set.
#[verifier::opaque]
pub open spec fn step_cell(
    g: Seq<u8>,
    w: int,
    r: int,
    c: int,
    born: Seq<bool>,
    survive: Seq<bool>,
) -> u8 {
    let sum = neighbor_sum(g, w, r, c);
    if cell_at(g, w, r, c) == 1 {
        if survive[sum] {
            1
        } else {
            0
        }
    } else {
        if born[sum] {
            1
        } else {
            0
        }
    }
}

/// The whole next generation of `g`: every interior cell is stepped from
/// the frozen snapshot `g`, every border cell is 0.
pub open spec fn next_gen(
    g: Seq<u8>,
    w: int,
    h: int,
    born: Seq<bool>,
    survive: Seq<bool>,
) -> Seq<u8> {
    Seq::new(
        padded_len(w, h) as nat,
        |k: int|
            {
                let r = k / (w + 2);
                let c = k % (w + 2);
                if is_interior(w, h, r, c) {
                    step_cell(g, w, r, c, born, survive)
                } else {
                    0
                }
            },
    )
}

/// `n` successive generations of `g`.
pub open spec fn gens(
    n: nat,
    g: Seq<u8>,
    w: int,
    h: int,
    born: Seq<bool>,
    survive: Seq<bool>,
) -> Seq<u8>
    decreases n,
{
    if n == 0 {
        g
    } else {
        next_gen(gens((n - 1) as nat, g, w, h, born, survive), w, h, born, survive)
    }
}

/// The deterministic glider seed: interior cell `(r, c)` is live exactly
/// when its offset inside its 5 × 5 tile (tiles start at rows and columns
/// congruent to 1 modulo 5) is one of the five cells of the canonical
/// glider.
pub open spec fn glider_seed_cell(r: int, c: int) -> bool {
    let dr = (r - 1) % 5;
    let dc = (c - 1) % 5;
    ||| (dr == 0 && dc == 1)
    ||| (dr == 1 && dc == 2)
    ||| (dr == 2 && (dc == 0 || dc == 1 || dc == 2))
}

/// The text of the cells of row `r`, columns 1 through `c_end`, each
/// cell rendered as `dead` or `alive`.
pub open spec fn row_text(
    g: Seq<u8>,
    w: int,
    r: int,
    c_end: int,
    dead: Seq<char>,
    alive: Seq<char>,
) -> Seq<char>
    decreases c_end,
{
    if c_end <= 0 {
        Seq::empty()
    } else {
        row_text(g, w, r, c_end - 1, dead, alive) + (if cell_at(g, w, r, c_end) == 0 {
            dead
        } else {
            alive
        })
    }
}

/// The text of rows 1 through `r_end` of the interior, top to bottom,
/// each row followed by a newline.
pub open spec fn grid_text(
    g: Seq<u8>,
    w: int,
    r_end: int,
    dead: Seq<char>,
    alive: Seq<char>,
) -> Seq<char>
    decreases r_end,
{
    if r_end <= 0 {
        Seq::empty()
    } else {
        grid_text(g, w, r_end - 1, dead, alive) + row_text(g, w, r_end, w, dead, alive)
            + seq!['\n']
    }
}

/// Every padded coordinate pair maps to a flat index inside the buffer.
pub proof fn lemma_grid_idx_bounds(w: int, h: int, r: int, c: int)
    requires
        0 <= w,
        0 <= h,
        in_padded(w, h, r, c),
    ensures
        0 <= grid_idx(w, r, c) < padded_len(w, h),
{
    assert(0 <= r * (w + 2) + c < (w + 2) * (h + 2)) by (nonlinear_arith)
        requires
            0 <= r <= h + 1,
            0 <= c <= w + 1,
            0 <= w,
            0 <= h,
    ;
}

/// Division and remainder by the padded width recover the coordinates
/// from a flat index; in particular distinct coordinate pairs have
/// distinct flat indices.
pub proof fn lemma_grid_idx_decompose(w: int, h: int, r: int, c: int)
    requires
        0 <= w,
        0 <= h,
        in_padded(w, h, r, c),
    ensures
        grid_idx(w, r, c) / (w + 2) == r,
        grid_idx(w, r, c) % (w + 2) == c,
{
    lemma_fundamental_div_mod_converse(grid_idx(w, r, c), w + 2, r, c);
}

/// Every flat index of a padded buffer decomposes into a padded
/// coordinate pair.
pub proof fn lemma_idx_to_coords(w: int, h: int, k: int)
    requires
        0 <= w,
        0 <= h,
        0 <= k < padded_len(w, h),
    ensures
        in_padded(w, h, k / (w + 2), k % (w + 2)),
        grid_idx(w, k / (w + 2), k % (w + 2)) == k,
{
    let r = k / (w + 2);
    let c = k % (w + 2);
    lemma_fundamental_div_mod(k, w + 2);
    lemma_mod_bound(k, w + 2);
    assert(0 <= r <= h + 1) by (nonlinear_arith)
        requires
            k == (w + 2) * r + c,
            0 <= c < w + 2,
            0 <= k < (w + 2) * (h + 2),
            0 <= w,
            0 <= h,
    ;
}

/// Padded double-buffered storage for a life-like automaton, together
/// with the sequential per-generation transition.
pub struct BasicGoL {
    width: usize,
    height: usize,
    big_width: usize,
    big_height: usize,
    prev: Vec<u8>,
    next: Vec<u8>,
}

impl BasicGoL {
    /// Interior width.
    pub closed spec fn spec_width(self) -> int {
        self.width as int
    }

    /// Interior height.
    pub closed spec fn spec_height(self) -> int {
        self.height as int
    }

    /// The current (readable) buffer.
    pub closed spec fn cur(self) -> Seq<u8> {
        self.prev@
    }

    /// The next (write-target) buffer.
    pub closed spec fn nxt(self) -> Seq<u8> {
        self.next@
    }

    /// Structural invariant: the padded sizes derive from the interior
    /// sizes and both buffers are well formed.
    pub closed spec fn wf(self) -> bool {
        &&& self.big_width == self.width + 2
        &&& self.big_height == self.height + 2
        &&& padded_len(self.width as int, self.height as int) <= usize::MAX
        &&& wf_buffer(self.prev@, self.width as int, self.height as int)
        &&& wf_buffer(self.next@, self.width as int, self.height as int)
    }

    /// Allocates a grid with two zero-filled padded buffers.
    pub fn new(width: usize, height: usize) -> (g: Self)
        requires
            padded_len(width as int, height as int) <= usize::MAX,
        ensures
            g.wf(),
            g.spec_width() == width,
            g.spec_height() == height,
            g.cur() == Seq::new(padded_len(width as int, height as int) as nat, |k: int| 0u8),
            g.nxt() == Seq::new(padded_len(width as int, height as int) as nat, |k: int| 0u8),
    {
        let ghost w = width as int;
        let ghost h = height as int;
        assert(w + 2 <= (w + 2) * (h + 2) && h + 2 <= (w + 2) * (h + 2)) by (nonlinear_arith)
            requires
                0 <= w,
                0 <= h,
        ;
        let big_width = width + 2;
        let big_height = height + 2;
        let n = big_width * big_height;
        let prev = vec![0u8; n];
        let next = vec![0u8; n];
        let g = BasicGoL { width, height, big_width, big_height, prev, next };
        proof {
            assert(g.prev@ =~= Seq::new(padded_len(w, h) as nat, |k: int| 0u8));
            assert(g.next@ =~= Seq::new(padded_len(w, h) as nat, |k: int| 0u8));
            assert forall|r: int, c: int|
                in_padded(w, h, r, c) && !is_interior(w, h, r, c) implies g.prev@[#[trigger] grid_idx(
                w,
                r,
                c,
            )] == 0 && g.next@[grid_idx(w, r, c)] == 0 by {
                lemma_grid_idx_bounds(w, h, r, c);
            }
        }
        g
    }

    /// Reads the cell at padded coordinates `(row, col)` from the current
    /// buffer.  The padded border guarantees every neighbor offset of an
    /// interior cell stays in range.
    pub fn get(&self, row: usize, col: usize) -> (v: u8)
        requires
            self.wf(),
            in_padded(self.spec_width(), self.spec_height(), row as int, col as int),
        ensures
            v == cell_at(self.cur(), self.spec_width(), row as int, col as int),
            v <= 1,
    {
        proof {
            lemma_grid_idx_bounds(self.spec_width(), self.spec_height(), row as int, col as int);
            assert(row as int * (self.spec_width() + 2) <= grid_idx(
                self.spec_width(),
                row as int,
                col as int,
            ));
        }
        self.prev[row * self.big_width + col]
    }

    /// Writes `val` into the interior cell `(row, col)` of the *next*
    /// buffer, never the current one: a generation is always computed
    /// from one frozen snapshot.
    pub fn set(&mut self, row: usize, col: usize, val: u8)
        requires
            old(self).wf(),
            is_interior(old(self).spec_width(), old(self).spec_height(), row as int, col as int),
            val <= 1,
        ensures
            final(self).wf(),
            final(self).spec_width() == old(self).spec_width(),
            final(self).spec_height() == old(self).spec_height(),
            final(self).cur() == old(self).cur(),
            final(self).nxt() == old(self).nxt().update(
                grid_idx(old(self).spec_width(), row as int, col as int),
                val,
            ),
    {
        let ghost w = self.spec_width();
        let ghost h = self.spec_height();
        proof {
            lemma_grid_idx_bounds(w, h, row as int, col as int);
            assert(row as int * (w + 2) <= grid_idx(w, row as int, col as int));
        }
        let i = row * self.big_width + col;
        self.next[i] = val;
        proof {
            assert forall|r: int, c: int|
                in_padded(w, h, r, c) && !is_interior(w, h, r, c) implies self.next@[#[trigger] grid_idx(
                w,
                r,
                c,
            )] == 0 by {
                if grid_idx(w, r, c) == grid_idx(w, row as int, col as int) {
                    lemma_grid_idx_decompose(w, h, r, c);
                    lemma_grid_idx_decompose(w, h, row as int, col as int);
                } else {
                    lemma_grid_idx_bounds(w, h, r, c);
                }
            }
        }
    }

    /// Writes `val` into the interior cell `(row, col)` of the *current*
    /// buffer; used by the paint interface, which must be visible in the
    /// generation read next, without a buffer swap.
    fn set_current(&mut self, row: usize, col: usize, val: u8)
        requires
            old(self).wf(),
            is_interior(old(self).spec_width(), old(self).spec_height(), row as int, col as int),
            val <= 1,
        ensures
            final(self).wf(),
            final(self).spec_width() == old(self).spec_width(),
            final(self).spec_height() == old(self).spec_height(),
            final(self).nxt() == old(self).nxt(),
            final(self).cur() == old(self).cur().update(
                grid_idx(old(self).spec_width(), row as int, col as int),
                val,
            ),
    {
        let ghost w = self.spec_width();
        let ghost h = self.spec_height();
        proof {
            lemma_grid_idx_bounds(w, h, row as int, col as int);
            assert(row as int * (w + 2) <= grid_idx(w, row as int, col as int));
        }
        let i = row * self.big_width + col;
        self.prev[i] = val;
        proof {
            assert forall|r: int, c: int|
                in_padded(w, h, r, c) && !is_interior(w, h, r, c) implies self.prev@[#[trigger] grid_idx(
                w,
                r,
                c,
            )] == 0 by {
                if grid_idx(w, r, c) == grid_idx(w, row as int, col as int) {
                    lemma_grid_idx_decompose(w, h, r, c);
                    lemma_grid_idx_decompose(w, h, row as int, col as int);
                } else {
                    lemma_grid_idx_bounds(w, h, r, c);
                }
            }
        }
    }

    /// Sums the eight Moore-neighborhood cells of the interior cell
    /// `(row, col)`, read from the current buffer.
    pub fn sum_neighbors(&self, row: usize, col: usize) -> (sum: u8)
        requires
            self.wf(),
            is_interior(self.spec_width(), self.spec_height(), row as int, col as int),
        ensures
            sum as int == neighbor_sum(self.cur(), self.spec_width(), row as int, col as int),
            sum <= 8,
    {
        proof {
            reveal(neighbor_sum);
        }
        self.get(row - 1, col - 1) + self.get(row - 1, col) + self.get(row - 1, col + 1)
            + self.get(row, col - 1) + self.get(row, col + 1) + self.get(row + 1, col - 1)
            + self.get(row + 1, col) + self.get(row + 1, col + 1)
    }

    /// Exchanges the current/next buffer roles in O(1), never copying;
    /// called exactly once per completed generation.
    pub fn swap_buffers(&mut self)
        ensures
            final(self).wf() == old(self).wf(),
            final(self).spec_width() == old(self).spec_width(),
            final(self).spec_height() == old(self).spec_height(),
            final(self).cur() == old(self).nxt(),
            final(self).nxt() == old(self).cur(),
    {
        core::mem::swap(&mut self.prev, &mut self.next);
    }

    /// Computes the next value of one interior cell from the frozen
    /// current buffer — the unit of work that any evaluator, sequential
    /// or parallel, performs per cell.
    pub fn step_cell_at(&self, rule: &Rule, row: usize, col: usize) -> (v: u8)
        requires
            self.wf(),
            rule.wf(),
            is_interior(self.spec_width(), self.spec_height(), row as int, col as int),
        ensures
            v == step_cell(
                self.cur(),
                self.spec_width(),
                row as int,
                col as int,
                rule.born_seq(),
                rule.survive_seq(),
            ),
            v <= 1,
    {
        proof {
            reveal(step_cell);
        }
        let sum = self.sum_neighbors(row, col);
        if self.get(row, col) == 1 {
            if rule.survives(sum) {
                1
            } else {
                0
            }
        } else {
            if rule.is_born(sum) {
                1
            } else {
                0
            }
        }
    }

    /// Advances one generation under `rule`: every interior cell is
    /// stepped from the frozen current buffer into the next buffer, in
    /// row-major order, then the buffer roles swap.  The new current
    /// generation is `next_gen` of the old one — a pure function of the
    /// old buffer and the rule.
    #[verifier::rlimit(50)]
    pub fn tick_rule(&mut self, rule: &Rule)
        requires
            old(self).wf(),
            rule.wf(),
        ensures
            final(self).wf(),
            final(self).spec_width() == old(self).spec_width(),
            final(self).spec_height() == old(self).spec_height(),
            final(self).cur() == next_gen(
                old(self).cur(),
                old(self).spec_width(),
                old(self).spec_height(),
                rule.born_seq(),
                rule.survive_seq(),
            ),
            final(self).nxt() == old(self).cur(),
    {
        let ghost w = self.spec_width();
        let ghost h = self.spec_height();
        let ghost g0 = self.cur();
        let ghost n0 = self.nxt();
        let ghost born = rule.born_seq();
        let ghost survive = rule.survive_seq();
        let width = self.width;
        let height = self.height;
        let mut row: usize = 1;
        while row <= height
            invariant
                self.wf(),
                rule.wf(),
                born == rule.born_seq(),
                survive == rule.survive_seq(),
                self.spec_width() == w,
                self.spec_height() == h,
                width as int == w,
                height as int == h,
                self.cur() == g0,
                1 <= row <= h + 1,
                forall|r: int, c: int|
                    #![trigger grid_idx(w, r, c)]
                    in_padded(w, h, r, c) ==> self.nxt()[grid_idx(w, r, c)] == (
                    if is_interior(w, h, r, c) && r < row {
                        step_cell(g0, w, r, c, born, survive)
                    } else {
                        n0[grid_idx(w, r, c)]
                    }),
            decreases h + 1 - row,
        {
            let mut col: usize = 1;
            while col <= width
                invariant
                    self.wf(),
                    rule.wf(),
                    born == rule.born_seq(),
                    survive == rule.survive_seq(),
                    self.spec_width() == w,
                    self.spec_height() == h,
                    width as int == w,
                    height as int == h,
                    self.cur() == g0,
                    1 <= row <= h,
                    1 <= col <= w + 1,
                    forall|r: int, c: int|
                        #![trigger grid_idx(w, r, c)]
                        in_padded(w, h, r, c) ==> self.nxt()[grid_idx(w, r, c)] == (
                        if is_interior(w, h, r, c) && (r < row || (r == row && c < col)) {
                            step_cell(g0, w, r, c, born, survive)
                        } else {
                            n0[grid_idx(w, r, c)]
                        }),
                decreases w + 1 - col,
            {
                let ghost before = self.nxt();
                let v = self.step_cell_at(rule, row, col);
                self.set(row, col, v);
                proof {
                    assert forall|r: int, c: int|
                        in_padded(w, h, r, c) implies self.nxt()[#[trigger] grid_idx(w, r, c)] == (
                    if is_interior(w, h, r, c) && (r < row || (r == row && c <= col)) {
                        step_cell(g0, w, r, c, born, survive)
                    } else {
                        n0[grid_idx(w, r, c)]
                    }) by {
                        lemma_grid_idx_bounds(w, h, r, c);
                        lemma_grid_idx_bounds(w, h, row as int, col as int);
                        assert(self.nxt() == before.update(
                            grid_idx(w, row as int, col as int),
                            v,
                        ));
                        if grid_idx(w, r, c) == grid_idx(w, row as int, col as int) {
                            lemma_grid_idx_decompose(w, h, r, c);
                            lemma_grid_idx_decompose(w, h, row as int, col as int);
                        }
                    }
                }
                col += 1;
            }
            row += 1;
        }
        self.swap_buffers();
        proof {
            assert forall|k: int| 0 <= k < self.cur().len() implies self.cur()[k] == next_gen(
                g0,
                w,
                h,
                born,
                survive,
            )[k] by {
                lemma_idx_to_coords(w, h, k);
            }
            assert(self.cur() =~= next_gen(g0, w, h, born, survive));
        }
    }

    /// Deterministically stamps the canonical glider across the interior:
    /// every interior cell whose offset inside its 5 × 5 tile is one of
    /// the five glider cells is written live into the next buffer, then
    /// the first swap makes the pattern the readable current generation.
    #[verifier::rlimit(50)]
    pub fn fill_with_gliders(&mut self)
        requires
            old(self).wf(),
        ensures
            final(self).wf(),
            final(self).spec_width() == old(self).spec_width(),
            final(self).spec_height() == old(self).spec_height(),
            forall|r: int, c: int|
                #![trigger grid_idx(old(self).spec_width(), r, c)]
                in_padded(old(self).spec_width(), old(self).spec_height(), r, c) ==> cell_at(
                    final(self).cur(),
                    old(self).spec_width(),
                    r,
                    c,
                ) == (if is_interior(old(self).spec_width(), old(self).spec_height(), r, c)
                    && glider_seed_cell(r, c) {
                    1u8
                } else {
                    cell_at(old(self).nxt(), old(self).spec_width(), r, c)
                }),
            final(self).nxt() == old(self).cur(),
    {
        let ghost w = self.spec_width();
        let ghost h = self.spec_height();
        let ghost g0 = self.cur();
        let ghost n0 = self.nxt();
        let width = self.width;
        let height = self.height;
        let mut row: usize = 1;
        while row <= height
            invariant
                self.wf(),
                self.spec_width() == w,
                self.spec_height() == h,
                width as int == w,
                height as int == h,
                self.cur() == g0,
                1 <= row <= h + 1,
                forall|r: int, c: int|
                    #![trigger grid_idx(w, r, c)]
                    in_padded(w, h, r, c) ==> self.nxt()[grid_idx(w, r, c)] == (
                    if is_interior(w, h, r, c) && glider_seed_cell(r, c) && r < row {
                        1u8
                    } else {
                        n0[grid_idx(w, r, c)]
                    }),
            decreases h + 1 - row,
        {
            let mut col: usize = 1;
            while col <= width
                invariant
                    self.wf(),
                    self.spec_width() == w,
                    self.spec_height() == h,
                    width as int == w,
                    height as int == h,
                    self.cur() == g0,
                    1 <= row <= h,
                    1 <= col <= w + 1,
                    forall|r: int, c: int|
                        #![trigger grid_idx(w, r, c)]
                        in_padded(w, h, r, c) ==> self.nxt()[grid_idx(w, r, c)] == (
                        if is_interior(w, h, r, c) && glider_seed_cell(r, c) && (r < row || (r
                            == row && c < col)) {
                            1u8
                        } else {
                            n0[grid_idx(w, r, c)]
                        }),
                decreases w + 1 - col,
            {
                let dr = (row - 1) % 5;
                let dc = (col - 1) % 5;
                if (dr == 0 && dc == 1) || (dr == 1 && dc == 2) || (dr == 2 && (dc == 0 || dc == 1
                    || dc == 2)) {
                    self.set(row, col, 1);
                }
                proof {
                    assert forall|r: int, c: int|
                        in_padded(w, h, r, c) implies self.nxt()[#[trigger] grid_idx(w, r, c)] == (
                    if is_interior(w, h, r, c) && glider_seed_cell(r, c) && (r < row || (r == row
                        && c <= col)) {
                        1u8
                    } else {
                        n0[grid_idx(w, r, c)]
                    }) by {
                        lemma_grid_idx_bounds(w, h, r, c);
                        lemma_grid_idx_bounds(w, h, row as int, col as int);
                        if grid_idx(w, r, c) == grid_idx(w, row as int, col as int) {
                            lemma_grid_idx_decompose(w, h, r, c);
                            lemma_grid_idx_decompose(w, h, row as int, col as int);
                        }
                    }
                }
                col += 1;
            }
            row += 1;
        }
        self.swap_buffers();
    }

    /// Interior width in cells.
    pub fn width(&self) -> (w: usize)
        ensures
            w as int == self.spec_width(),
    {
        self.width
    }

    /// Interior height in cells.
    pub fn height(&self) -> (h: usize)
        ensures
            h as int == self.spec_height(),
    {
        self.height
    }

    /// Produces the interior of the current generation as `height` rows
    /// of `width` cells each, top to bottom — the read-only view a
    /// renderer consumes between generations.
    pub fn iter(&self) -> (rows: Vec<Vec<u8>>)
        requires
            self.wf(),
        ensures
            rows@.len() == self.spec_height(),
            forall|i: int| 0 <= i < rows@.len() ==> (#[trigger] rows@[i])@.len()
                == self.spec_width(),
            forall|i: int, j: int|
                0 <= i < rows@.len() && 0 <= j < self.spec_width() ==> #[trigger] rows@[i]@[j]
                    == cell_at(self.cur(), self.spec_width(), i + 1, j + 1),
    {
        let mut rows: Vec<Vec<u8>> = Vec::new();
        let mut r: usize = 1;
        while r <= self.height
            invariant
                self.wf(),
                1 <= r <= self.spec_height() + 1,
                rows@.len() == r - 1,
                forall|i: int| 0 <= i < rows@.len() ==> (#[trigger] rows@[i])@.len()
                    == self.spec_width(),
                forall|i: int, j: int|
                    0 <= i < rows@.len() && 0 <= j < self.spec_width() ==> #[trigger] rows@[i]@[j]
                        == cell_at(self.cur(), self.spec_width(), i + 1, j + 1),
            decreases self.spec_height() + 1 - r,
        {
            let mut line: Vec<u8> = Vec::new();
            let mut c: usize = 1;
            while c <= self.width
                invariant
                    self.wf(),
                    1 <= r <= self.spec_height(),
                    1 <= c <= self.spec_width() + 1,
                    line@.len() == c - 1,
                    forall|j: int| 0 <= j < line@.len() ==> #[trigger] line@[j] == cell_at(
                        self.cur(),
                        self.spec_width(),
                        r as int,
                        j + 1,
                    ),
                decreases self.spec_width() + 1 - c,
            {
                line.push(self.get(r, c));
                c += 1;
            }
            rows.push(line);
            r += 1;
        }
        rows
    }

    /// Renders the interior of the current generation as text, row by
    /// row from the top, each cell as `dead` or `alive` and each row
    /// ended by a newline — the compute half of printing a generation.
    pub fn render(&self, dead: &str, alive: &str) -> (out: String)
        requires
            self.wf(),
        ensures
            out@ == grid_text(self.cur(), self.spec_width(), self.spec_height(), dead@, alive@),
    {
        let ghost w = self.spec_width();
        let ghost h = self.spec_height();
        let mut out = String::new();
        let mut r: usize = 1;
        while r <= self.height
            invariant
                self.wf(),
                self.spec_width() == w,
                self.spec_height() == h,
                1 <= r <= h + 1,
                out@ == grid_text(self.cur(), w, r - 1, dead@, alive@),
            decreases h + 1 - r,
        {
            let mut c: usize = 1;
            proof {
                assert(out@ =~= grid_text(self.cur(), w, r - 1, dead@, alive@) + row_text(
                    self.cur(),
                    w,
                    r as int,
                    0,
                    dead@,
                    alive@,
                ));
            }
            while c <= self.width
                invariant
                    self.wf(),
                    self.spec_width() == w,
                    self.spec_height() == h,
                    1 <= r <= h,
                    1 <= c <= w + 1,
                    out@ == grid_text(self.cur(), w, r - 1, dead@, alive@) + row_text(
                        self.cur(),
                        w,
                        r as int,
                        c - 1,
                        dead@,
                        alive@,
                    ),
                decreases w + 1 - c,
            {
                if self.get(r, c) == 0 {
                    out.append(dead);
                } else {
                    out.append(alive);
                }
                proof {
                    assert(out@ =~= grid_text(self.cur(), w, r - 1, dead@, alive@) + row_text(
                        self.cur(),
                        w,
                        r as int,
                        c as int,
                        dead@,
                        alive@,
                    ));
                }
                c += 1;
            }
            out.append("\n");
            proof {
                reveal_strlit("\n");
                assert("\n"@ =~= seq!['\n']);
                assert(out@ =~= grid_text(self.cur(), w, r as int, dead@, alive@));
            }
            r += 1;
        }
        out
    }

    /// Applies a rectangular block write, given in un-padded (visible)
    /// coordinates and mapped internally with a +1 offset, directly to
    /// the current buffer: the painted cells are visible to the renderer
    /// and to the next generation at once, and no buffer swap occurs.
    #[verifier::rlimit(50)]
    pub fn paint(&mut self, x: usize, y: usize, w: usize, h: usize, vals: &Vec<u8>)
        requires
            old(self).wf(),
            x + w <= old(self).spec_width(),
            y + h <= old(self).spec_height(),
            vals@.len() == w * h,
            forall|k: int| 0 <= k < vals@.len() ==> #[trigger] vals@[k] <= 1,
        ensures
            final(self).wf(),
            final(self).spec_width() == old(self).spec_width(),
            final(self).spec_height() == old(self).spec_height(),
            final(self).nxt() == old(self).nxt(),
            forall|r: int, c: int|
                #![trigger grid_idx(old(self).spec_width(), r, c)]
                in_padded(old(self).spec_width(), old(self).spec_height(), r, c) ==> cell_at(
                    final(self).cur(),
                    old(self).spec_width(),
                    r,
                    c,
                ) == (if 1 + y <= r < 1 + y + h && 1 + x <= c < 1 + x + w {
                    vals@[(r - 1 - y) * w + (c - 1 - x)]
                } else {
                    cell_at(old(self).cur(), old(self).spec_width(), r, c)
                }),
    {
        let ghost gw = self.spec_width();
        let ghost gh = self.spec_height();
        let ghost g0 = self.cur();
        let ghost n0 = self.nxt();
        // materialize that the value count, hence w * h, fits in usize
        let _vals_len = vals.len();
        assert(_vals_len == w * h && w * h <= usize::MAX);
        let mut i: usize = 0;
        while i < h
            invariant
                self.wf(),
                self.spec_width() == gw,
                self.spec_height() == gh,
                x + w <= gw,
                y + h <= gh,
                vals@.len() == w * h,
                w * h <= usize::MAX,
                forall|k: int| 0 <= k < vals@.len() ==> #[trigger] vals@[k] <= 1,
                self.nxt() == n0,
                0 <= i <= h,
                forall|r: int, c: int|
                    #![trigger grid_idx(gw, r, c)]
                    in_padded(gw, gh, r, c) ==> self.cur()[grid_idx(gw, r, c)] == (
                    if 1 + y <= r < 1 + y + h && 1 + x <= c < 1 + x + w && r < 1 + y + i {
                        vals@[(r - 1 - y) * w + (c - 1 - x)]
                    } else {
                        g0[grid_idx(gw, r, c)]
                    }),
            decreases h - i,
        {
            let mut j: usize = 0;
            while j < w
                invariant
                    self.wf(),
                    self.spec_width() == gw,
                    self.spec_height() == gh,
                    x + w <= gw,
                    y + h <= gh,
                    vals@.len() == w * h,
                    w * h <= usize::MAX,
                    forall|k: int| 0 <= k < vals@.len() ==> #[trigger] vals@[k] <= 1,
                    self.nxt() == n0,
                    0 <= i < h,
                    0 <= j <= w,
                    forall|r: int, c: int|
                        #![trigger grid_idx(gw, r, c)]
                        in_padded(gw, gh, r, c) ==> self.cur()[grid_idx(gw, r, c)] == (
                        if 1 + y <= r < 1 + y + h && 1 + x <= c < 1 + x + w && (r < 1 + y + i || (r
                            == 1 + y + i && c < 1 + x + j)) {
                            vals@[(r - 1 - y) * w + (c - 1 - x)]
                        } else {
                            g0[grid_idx(gw, r, c)]
                        }),
                decreases w - j,
            {
                assert(i * w + j < w * h && i * w + w <= w * h) by (nonlinear_arith)
                    requires
                        0 <= i < h,
                        0 <= j < w,
                ;
                let row = y + 1 + i;
                let col = x + 1 + j;
                let v = vals[i * w + j];
                self.set_current(row, col, v);
                proof {
                    assert forall|r: int, c: int|
                        in_padded(gw, gh, r, c) implies self.cur()[#[trigger] grid_idx(gw, r, c)]
                        == (if 1 + y <= r < 1 + y + h && 1 + x <= c < 1 + x + w && (r < 1 + y + i
                        || (r == 1 + y + i && c < 1 + x + j + 1)) {
                        vals@[(r - 1 - y) * w + (c - 1 - x)]
                    } else {
                        g0[grid_idx(gw, r, c)]
                    }) by {
                        lemma_grid_idx_bounds(gw, gh, r, c);
                        lemma_grid_idx_bounds(gw, gh, row as int, col as int);
                        if grid_idx(gw, r, c) == grid_idx(gw, row as int, col as int) {
                            lemma_grid_idx_decompose(gw, gh, r, c);
                            lemma_grid_idx_decompose(gw, gh, row as int, col as int);
                            assert(r == row && c == col);
                            assert((r - 1 - y) * w + (c - 1 - x) == i * w + j);
                        }
                    }
                }
                j += 1;
            }
            i += 1;
        }
    }

    /// Runs `n` successive generations under `rule`.  The result is the
    /// `n`-fold transition of the starting generation: repeated runs from
    /// equal seeds land on bit-identical grids.
    pub fn step_many(&mut self, n: usize, rule: &Rule)
        requires
            old(self).wf(),
            rule.wf(),
        ensures
            final(self).wf(),
            final(self).spec_width() == old(self).spec_width(),
            final(self).spec_height() == old(self).spec_height(),
            final(self).cur() == gens(
                n as nat,
                old(self).cur(),
                old(self).spec_width(),
                old(self).spec_height(),
                rule.born_seq(),
                rule.survive_seq(),
            ),
            n == 0 ==> *final(self) == *old(self),
    {
        let ghost w = self.spec_width();
        let ghost h = self.spec_height();
        let ghost g0 = self.cur();
        let ghost born = rule.born_seq();
        let ghost survive = rule.survive_seq();
        let mut i: usize = 0;
        while i < n
            invariant
                self.wf(),
                rule.wf(),
                born == rule.born_seq(),
                survive == rule.survive_seq(),
                self.spec_width() == w,
                self.spec_height() == h,
                0 <= i <= n,
                self.cur() == gens(i as nat, g0, w, h, born, survive),
                i == 0 ==> *self == *old(self),
            decreases n - i,
        {
            self.tick_rule(rule);
            i += 1;
        }
    }

    /// Advances one generation under the classic rule `B3/S23`.
    pub fn tick(&mut self)
        requires
            old(self).wf(),
        ensures
            final(self).wf(),
            final(self).spec_width() == old(self).spec_width(),
            final(self).spec_height() == old(self).spec_height(),
            final(self).cur() == next_gen(
                old(self).cur(),
                old(self).spec_width(),
                old(self).spec_height(),
                conway_born(),
                conway_survive(),
            ),
            final(self).nxt() == old(self).cur(),
    {
        let rule = Rule::conway();
        self.tick_rule(&rule);
    }
}

} // verus!
