//! The laws of the engine, stated over the grid model and proved once for
//! all rules and all grids: determinism of the transition, preservation of
//! the zero border ring, the 2 × 2 block fixed point under `B3/S23`, and
//! the equivalence of any cell-by-cell evaluation with the sequential
//! row-major sweep.

use vstd::prelude::*;
use crate::game_of_life::{
    gens, grid_idx, in_padded, is_interior, lemma_grid_idx_bounds, lemma_grid_idx_decompose,
    lemma_idx_to_coords, neighbor_sum, next_gen, padded_len, step_cell, wf_buffer,
};
use crate::rule::{conway_born, conway_survive};

verus! {

/// Determinism: one generation is a pure function of the frozen current
/// buffer and the rule.  Identical inputs produce bit-identical outputs,
/// in this run and in every other.
pub proof fn lemma_tick_deterministic(
    g1: Seq<u8>,
    g2: Seq<u8>,
    w: int,
    h: int,
    born: Seq<bool>,
    survive: Seq<bool>,
)
    requires
        g1 == g2,
    ensures
        next_gen(g1, w, h, born, survive) == next_gen(g2, w, h, born, survive),
{
}

/// One generation of any buffer is well formed: it has the padded length,
/// every cell is 0 or 1, and the border ring is 0.
pub proof fn lemma_next_gen_wf(g: Seq<u8>, w: int, h: int, born: Seq<bool>, survive: Seq<bool>)
    requires
        0 <= w,
        0 <= h,
    ensures
        wf_buffer(next_gen(g, w, h, born, survive), w, h),
{
    reveal(step_cell);
    let n = next_gen(g, w, h, born, survive);
    assert forall|r: int, c: int|
        in_padded(w, h, r, c) && !is_interior(w, h, r, c) implies n[#[trigger] grid_idx(
        w,
        r,
        c,
    )] == 0 by {
        lemma_grid_idx_bounds(w, h, r, c);
        lemma_grid_idx_decompose(w, h, r, c);
    }
}

/// Border invariant: however many generations pass, the border ring of a
/// well-formed grid stays 0, and the grid stays well formed.
pub proof fn lemma_border_stays_zero(
    g: Seq<u8>,
    w: int,
    h: int,
    born: Seq<bool>,
    survive: Seq<bool>,
    n: nat,
)
    requires
        0 <= w,
        0 <= h,
        wf_buffer(g, w, h),
    ensures
        wf_buffer(gens(n, g, w, h, born, survive), w, h),
        forall|r: int, c: int|
            #![trigger grid_idx(w, r, c)]
            in_padded(w, h, r, c) && !is_interior(w, h, r, c) ==> gens(
                n,
                g,
                w,
                h,
                born,
                survive,
            )[grid_idx(w, r, c)] == 0,
    decreases n,
{
    if n == 0 {
    } else {
        lemma_border_stays_zero(g, w, h, born, survive, (n - 1) as nat);
        lemma_next_gen_wf(gens((n - 1) as nat, g, w, h, born, survive), w, h, born, survive);
    }
}

/// A grid-shaped buffer built from a per-cell rule.
pub open spec fn grid_of(w: int, h: int, f: spec_fn(int, int) -> u8) -> Seq<u8> {
    Seq::new(padded_len(w, h) as nat, |k: int| f(k / (w + 2), k % (w + 2)))
}

/// Reading `grid_of` at a padded coordinate pair gives the per-cell rule.
pub proof fn lemma_grid_of_at(w: int, h: int, f: spec_fn(int, int) -> u8, r: int, c: int)
    requires
        0 <= w,
        0 <= h,
        in_padded(w, h, r, c),
    ensures
        grid_of(w, h, f)[grid_idx(w, r, c)] == f(r, c),
{
    lemma_grid_idx_bounds(w, h, r, c);
    lemma_grid_idx_decompose(w, h, r, c);
}

/// The 2 × 2 block: live exactly on rows `r0`, `r0 + 1` and columns
/// `c0`, `c0 + 1`.
pub open spec fn block_cell(r0: int, c0: int, r: int, c: int) -> u8 {
    if r0 <= r <= r0 + 1 && c0 <= c <= c0 + 1 {
        1
    } else {
        0
    }
}

/// A grid holding exactly one 2 × 2 live block.
pub open spec fn block_grid(w: int, h: int, r0: int, c0: int) -> Seq<u8> {
    grid_of(w, h, |r: int, c: int| block_cell(r0, c0, r, c))
}

/// One generation under `B3/S23` leaves the 2 × 2 block grid unchanged:
/// each block cell is live with exactly three live neighbors, and no
/// dead cell sees more than two.
proof fn lemma_block_step(w: int, h: int, r0: int, c0: int)
    requires
        1 <= r0,
        r0 + 1 <= h,
        1 <= c0,
        c0 + 1 <= w,
    ensures
        next_gen(block_grid(w, h, r0, c0), w, h, conway_born(), conway_survive()) == block_grid(
            w,
            h,
            r0,
            c0,
        ),
{
    reveal(step_cell);
    reveal(neighbor_sum);
    let f = |r: int, c: int| block_cell(r0, c0, r, c);
    let g = block_grid(w, h, r0, c0);
    let n = next_gen(g, w, h, conway_born(), conway_survive());
    assert forall|k: int| 0 <= k < n.len() implies n[k] == g[k] by {
        lemma_idx_to_coords(w, h, k);
        let r = k / (w + 2);
        let c = k % (w + 2);
        lemma_grid_of_at(w, h, f, r, c);
        if is_interior(w, h, r, c) {
            lemma_grid_of_at(w, h, f, r - 1, c - 1);
            lemma_grid_of_at(w, h, f, r - 1, c);
            lemma_grid_of_at(w, h, f, r - 1, c + 1);
            lemma_grid_of_at(w, h, f, r, c - 1);
            lemma_grid_of_at(w, h, f, r, c + 1);
            lemma_grid_of_at(w, h, f, r + 1, c - 1);
            lemma_grid_of_at(w, h, f, r + 1, c);
            lemma_grid_of_at(w, h, f, r + 1, c + 1);
            let sum = neighbor_sum(g, w, r, c);
            if f(r, c) == 1 {
                assert(sum == 3);
                assert(step_cell(g, w, r, c, conway_born(), conway_survive()) == 1);
            } else {
                assert(sum <= 2);
                assert(step_cell(g, w, r, c, conway_born(), conway_survive()) == 0);
            }
        }
    }
    assert(n =~= g);
}

/// Fixed point: a 2 × 2 live block anywhere in the interior is unchanged
/// by any number of generations under `B3/S23`.
pub proof fn lemma_block_fixed_point(w: int, h: int, r0: int, c0: int, n: nat)
    requires
        1 <= r0,
        r0 + 1 <= h,
        1 <= c0,
        c0 + 1 <= w,
    ensures
        gens(n, block_grid(w, h, r0, c0), w, h, conway_born(), conway_survive()) == block_grid(
            w,
            h,
            r0,
            c0,
        ),
    decreases n,
{
    if n > 0 {
        lemma_block_fixed_point(w, h, r0, c0, (n - 1) as nat);
        lemma_block_step(w, h, r0, c0);
    }
}

/// Parallel/sequential equivalence: a buffer whose interior cells were
/// each computed independently from the frozen snapshot `g` — in any
/// order, under any partition — and whose border is 0 is exactly the
/// sequential row-major generation.
pub proof fn lemma_cellwise_evaluation_determines_generation(
    g: Seq<u8>,
    w: int,
    h: int,
    born: Seq<bool>,
    survive: Seq<bool>,
    out: Seq<u8>,
)
    requires
        0 <= w,
        0 <= h,
        out.len() == padded_len(w, h),
        forall|r: int, c: int|
            #![trigger grid_idx(w, r, c)]
            is_interior(w, h, r, c) ==> out[grid_idx(w, r, c)] == step_cell(
                g,
                w,
                r,
                c,
                born,
                survive,
            ),
        forall|r: int, c: int|
            #![trigger grid_idx(w, r, c)]
            in_padded(w, h, r, c) && !is_interior(w, h, r, c) ==> out[grid_idx(w, r, c)] == 0,
    ensures
        out == next_gen(g, w, h, born, survive),
{
    let n = next_gen(g, w, h, born, survive);
    assert forall|k: int| 0 <= k < out.len() implies out[k] == n[k] by {
        lemma_idx_to_coords(w, h, k);
        let r = k / (w + 2);
        let c = k % (w + 2);
        assert(out[grid_idx(w, r, c)] == n[grid_idx(w, r, c)]);
    }
    assert(out =~= n);
}

} // verus!
