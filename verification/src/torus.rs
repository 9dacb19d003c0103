//! Mathematical model of a toroidal cell grid.
//!
//! A grid of height `h` and width `w` is modelled as a flat sequence of
//! [`CellState`] values of length `w * h`, indexed row-major. Coordinates are
//! unbounded integers: a coordinate `(x, y)` names the physical cell at
//! `(x % w, y % h)` (Euclidean remainders), so every integer pair addresses
//! some cell and stepping past an edge re-enters from the opposite one.
//!
//! The module defines what it means for the cached neighbor counts of a grid
//! to be consistent ([`counts_consistent`]) and proves the lemmas that let an
//! implementation maintain that invariant incrementally: flipping one cell's
//! alive flag changes each cell's true live-neighbor count by exactly the
//! number of neighborhood slots through which it sees the flipped cell
//! ([`neighbor_hits`]), a quantity that is symmetric between the two cells.

use vstd::prelude::*;
use vstd::arithmetic::div_mod::{
    lemma_mod_add_multiples_vanish, lemma_mod_sub_multiples_vanish,
    lemma_add_mod_noop, lemma_fundamental_div_mod, lemma_fundamental_div_mod_converse_mod,
    lemma_mod_division_less_than_divisor, lemma_mod_twice,
};

verus! {

/// The mathematical state of one cell: its alive flag and its cached count
/// of live Moore neighbors.
pub struct CellState {
    pub alive: bool,
    pub count: int,
}

/// 1 for a set flag, 0 for a cleared one; used to sum alive flags.
pub open spec fn bit(b: bool) -> int {
    if b {
        1
    } else {
        0
    }
}

/// Row-major index of the physical cell addressed by `(x, y)` on a `w` by
/// `h` torus.
pub open spec fn flat_index(x: int, y: int, w: int, h: int) -> int {
    (y % h) * w + (x % w)
}

/// A sequence models a `w` by `h` grid when it holds exactly one cell per
/// coordinate of the torus.
pub open spec fn grid_ok(g: Seq<CellState>, w: int, h: int) -> bool {
    &&& 0 < w
    &&& 0 < h
    &&& g.len() == w * h
}

/// The cell addressed by `(x, y)`, after wrapping.
pub open spec fn cell_at(g: Seq<CellState>, w: int, h: int, x: int, y: int) -> CellState {
    g[flat_index(x, y, w, h)]
}

/// The alive flag of the cell addressed by `(x, y)`.
pub open spec fn alive_at(g: Seq<CellState>, w: int, h: int, x: int, y: int) -> bool {
    cell_at(g, w, h, x, y).alive
}

/// The true number of live cells among the eight Moore-neighborhood slots of
/// `(x, y)`. Slots are counted, not distinct physical cells: on a torus
/// narrower than three cells several slots wrap to the same cell, and that
/// cell is counted once per slot.
pub open spec fn live_neighbors(g: Seq<CellState>, w: int, h: int, x: int, y: int) -> int {
    bit(alive_at(g, w, h, x - 1, y - 1)) + bit(alive_at(g, w, h, x, y - 1)) + bit(
        alive_at(g, w, h, x + 1, y - 1),
    ) + bit(alive_at(g, w, h, x - 1, y)) + bit(alive_at(g, w, h, x + 1, y)) + bit(
        alive_at(g, w, h, x - 1, y + 1),
    ) + bit(alive_at(g, w, h, x, y + 1)) + bit(alive_at(g, w, h, x + 1, y + 1))
}

/// How many of the eight neighborhood slots of `(x, y)` land on the physical
/// cell with flat index `j`.
pub open spec fn neighbor_hits(x: int, y: int, w: int, h: int, j: int) -> int {
    bit(flat_index(x - 1, y - 1, w, h) == j) + bit(flat_index(x, y - 1, w, h) == j) + bit(
        flat_index(x + 1, y - 1, w, h) == j,
    ) + bit(flat_index(x - 1, y, w, h) == j) + bit(flat_index(x + 1, y, w, h) == j) + bit(
        flat_index(x - 1, y + 1, w, h) == j,
    ) + bit(flat_index(x, y + 1, w, h) == j) + bit(flat_index(x + 1, y + 1, w, h) == j)
}

/// Every cell's cached neighbor count equals its true live-neighbor count.
pub open spec fn counts_consistent(g: Seq<CellState>, w: int, h: int) -> bool {
    forall|x: int, y: int|
        0 <= x < w && 0 <= y < h ==> cell_at(g, w, h, x, y).count == #[trigger] live_neighbors(
            g,
            w,
            h,
            x,
            y,
        )
}

/// Conway's rule: a live cell survives with two or three live neighbors, a
/// dead cell is born with exactly three.
pub open spec fn life_rule(alive: bool, neighbors: int) -> bool {
    if alive {
        2 <= neighbors <= 3
    } else {
        neighbors == 3
    }
}

/// `g2` is `g1` advanced by one synchronous generation: every cell's alive
/// flag is the rule applied to its old flag and old live-neighbor count.
pub open spec fn stepped(g1: Seq<CellState>, g2: Seq<CellState>, w: int, h: int) -> bool {
    forall|x: int, y: int|
        0 <= x < w && 0 <= y < h ==> #[trigger] alive_at(g2, w, h, x, y) == life_rule(
            alive_at(g1, w, h, x, y),
            live_neighbors(g1, w, h, x, y),
        )
}

/// Congruent coordinates address the same cell: shifting either coordinate
/// by any multiple of the matching dimension leaves the remainder unchanged.
pub proof fn lemma_mod_congruent_shift(a: int, b: int, s: int, n: int)
    requires
        0 < n,
        a % n == b % n,
    ensures
        (a + s) % n == (b + s) % n,
{
    lemma_add_mod_noop(a, s, n);
    lemma_add_mod_noop(b, s, n);
}

/// Moving an offset from one side of a congruence to the other: `a + s`
/// addresses column `c` exactly when `c - s` addresses column `a`.
pub proof fn lemma_mod_shift_swap(a: int, c: int, s: int, n: int)
    requires
        0 < n,
    ensures
        ((a + s) % n == c % n) <==> ((c - s) % n == a % n),
{
    if (a + s) % n == c % n {
        lemma_mod_congruent_shift(a + s, c, -s, n);
    }
    if (c - s) % n == a % n {
        lemma_mod_congruent_shift(c - s, a, s, n);
    }
}

/// The remainder one column to the left: decrementing a coordinate moves the
/// wrapped column down by one, wrapping from 0 to `n - 1`.
pub proof fn lemma_mod_dec(a: int, n: int)
    requires
        0 < n,
    ensures
        (a - 1) % n == if a % n == 0 {
            n - 1
        } else {
            a % n - 1
        },
{
    lemma_fundamental_div_mod(a, n);
    lemma_mod_division_less_than_divisor(a, n);
    let q = a / n;
    let r = a % n;
    if r == 0 {
        assert(a - 1 == (q - 1) * n + (n - 1)) by (nonlinear_arith)
            requires
                a == n * q + r,
                r == 0,
        ;
        lemma_fundamental_div_mod_converse_mod(a - 1, n, q - 1, n - 1);
    } else {
        assert(a - 1 == q * n + (r - 1)) by (nonlinear_arith)
            requires
                a == n * q + r,
        ;
        lemma_fundamental_div_mod_converse_mod(a - 1, n, q, r - 1);
    }
}

/// The remainder one column to the right: incrementing a coordinate moves
/// the wrapped column up by one, wrapping from `n - 1` to 0.
pub proof fn lemma_mod_inc(a: int, n: int)
    requires
        0 < n,
    ensures
        (a + 1) % n == if a % n == n - 1 {
            0
        } else {
            a % n + 1
        },
{
    lemma_fundamental_div_mod(a, n);
    lemma_mod_division_less_than_divisor(a, n);
    let q = a / n;
    let r = a % n;
    if r == n - 1 {
        assert(a + 1 == (q + 1) * n + 0) by (nonlinear_arith)
            requires
                a == n * q + r,
                r == n - 1,
        ;
        lemma_fundamental_div_mod_converse_mod(a + 1, n, q + 1, 0);
    } else {
        assert(a + 1 == q * n + (r + 1)) by (nonlinear_arith)
            requires
                a == n * q + r,
        ;
        lemma_fundamental_div_mod_converse_mod(a + 1, n, q, r + 1);
    }
}

/// A coordinate already on the grid is its own remainder.
pub proof fn lemma_mod_identity(a: int, n: int)
    requires
        0 <= a < n,
    ensures
        a % n == a,
{
    lemma_fundamental_div_mod_converse_mod(a, n, 0, a);
}

/// Shifting a coordinate by less than a full turn moves it to a different
/// column or row.
pub proof fn lemma_mod_shift_distinct(a: int, s: int, n: int)
    requires
        0 < s < n,
    ensures
        (a + s) % n != a % n,
{
    if (a + s) % n == a % n {
        lemma_mod_congruent_shift(a + s, a, -a, n);
        lemma_mod_identity(s, n);
        lemma_mod_identity(0, n);
    }
}

/// Flat indices stay within the grid.
pub proof fn lemma_flat_index_bounds(x: int, y: int, w: int, h: int)
    requires
        0 < w,
        0 < h,
    ensures
        0 <= flat_index(x, y, w, h) < w * h,
{
    lemma_mod_division_less_than_divisor(x, w);
    lemma_mod_division_less_than_divisor(y, h);
    assert((y % h) * w + (x % w) < w * h) by (nonlinear_arith)
        requires
            0 <= x % w < w,
            0 <= y % h < h,
    ;
    assert(0 <= (y % h) * w + (x % w)) by (nonlinear_arith)
        requires
            0 <= x % w,
            0 <= y % h,
            0 < w,
    ;
}

/// Two coordinate pairs address the same cell exactly when both axes agree
/// modulo the matching dimension.
pub proof fn lemma_flat_index_eq(x1: int, y1: int, x2: int, y2: int, w: int, h: int)
    requires
        0 < w,
        0 < h,
    ensures
        (flat_index(x1, y1, w, h) == flat_index(x2, y2, w, h)) <==> (x1 % w == x2 % w && y1 % h
            == y2 % h),
{
    lemma_mod_division_less_than_divisor(x1, w);
    lemma_mod_division_less_than_divisor(x2, w);
    lemma_mod_division_less_than_divisor(y1, h);
    lemma_mod_division_less_than_divisor(y2, h);
    if flat_index(x1, y1, w, h) == flat_index(x2, y2, w, h) {
        assert(x1 % w == x2 % w && y1 % h == y2 % h) by (nonlinear_arith)
            requires
                (y1 % h) * w + (x1 % w) == (y2 % h) * w + (x2 % w),
                0 <= x1 % w < w,
                0 <= x2 % w < w,
                0 <= y1 % h < h,
                0 <= y2 % h < h,
        ;
    }
}

/// Distinct in-range coordinate pairs address distinct cells.
pub proof fn lemma_flat_index_injective(x1: int, y1: int, x2: int, y2: int, w: int, h: int)
    requires
        0 <= x1 < w,
        0 <= y1 < h,
        0 <= x2 < w,
        0 <= y2 < h,
    ensures
        (flat_index(x1, y1, w, h) == flat_index(x2, y2, w, h)) <==> (x1 == x2 && y1 == y2),
{
    lemma_mod_identity(x1, w);
    lemma_mod_identity(x2, w);
    lemma_mod_identity(y1, h);
    lemma_mod_identity(y2, h);
    lemma_flat_index_eq(x1, y1, x2, y2, w, h);
}

/// A full turn around either axis of the torus comes back to the same
/// column or row.
pub proof fn lemma_edge_wrap(x: int, n: int)
    requires
        0 < n,
    ensures
        (x + n) % n == x % n,
        (x - n) % n == x % n,
{
    lemma_mod_add_multiples_vanish(x, n);
    lemma_mod_sub_multiples_vanish(x, n);
}

/// Congruent coordinate pairs shifted by the same offset still address the
/// same cell.
proof fn lemma_offset_congruent(
    x: int,
    y: int,
    x2: int,
    y2: int,
    ex: int,
    ey: int,
    w: int,
    h: int,
)
    requires
        0 < w,
        0 < h,
        x % w == x2 % w,
        y % h == y2 % h,
    ensures
        flat_index(x + ex, y + ey, w, h) == flat_index(x2 + ex, y2 + ey, w, h),
{
    lemma_mod_congruent_shift(x, x2, ex, w);
    lemma_mod_congruent_shift(y, y2, ey, h);
}

/// Congruent coordinates address the same flat index, and their
/// neighborhood slots land on the same physical cells.
pub proof fn lemma_congruent_indices(x: int, y: int, x2: int, y2: int, w: int, h: int)
    requires
        0 < w,
        0 < h,
        x % w == x2 % w,
        y % h == y2 % h,
    ensures
        flat_index(x, y, w, h) == flat_index(x2, y2, w, h),
        forall|j: int| neighbor_hits(x, y, w, h, j) == neighbor_hits(x2, y2, w, h, j),
{
    lemma_offset_congruent(x, y, x2, y2, -1, -1, w, h);
    lemma_offset_congruent(x, y, x2, y2, 0, -1, w, h);
    lemma_offset_congruent(x, y, x2, y2, 1, -1, w, h);
    lemma_offset_congruent(x, y, x2, y2, -1, 0, w, h);
    lemma_offset_congruent(x, y, x2, y2, 0, 0, w, h);
    lemma_offset_congruent(x, y, x2, y2, 1, 0, w, h);
    lemma_offset_congruent(x, y, x2, y2, -1, 1, w, h);
    lemma_offset_congruent(x, y, x2, y2, 0, 1, w, h);
    lemma_offset_congruent(x, y, x2, y2, 1, 1, w, h);
}

/// Congruent coordinates are interchangeable on any grid: they address the
/// same cell and see the same live neighbors.
pub proof fn lemma_congruent_coordinates(
    g: Seq<CellState>,
    w: int,
    h: int,
    x: int,
    y: int,
    x2: int,
    y2: int,
)
    requires
        0 < w,
        0 < h,
        x % w == x2 % w,
        y % h == y2 % h,
    ensures
        flat_index(x, y, w, h) == flat_index(x2, y2, w, h),
        cell_at(g, w, h, x, y) == cell_at(g, w, h, x2, y2),
        live_neighbors(g, w, h, x, y) == live_neighbors(g, w, h, x2, y2),
        forall|j: int| neighbor_hits(x, y, w, h, j) == neighbor_hits(x2, y2, w, h, j),
{
    lemma_offset_congruent(x, y, x2, y2, -1, -1, w, h);
    lemma_offset_congruent(x, y, x2, y2, 0, -1, w, h);
    lemma_offset_congruent(x, y, x2, y2, 1, -1, w, h);
    lemma_offset_congruent(x, y, x2, y2, -1, 0, w, h);
    lemma_offset_congruent(x, y, x2, y2, 0, 0, w, h);
    lemma_offset_congruent(x, y, x2, y2, 1, 0, w, h);
    lemma_offset_congruent(x, y, x2, y2, -1, 1, w, h);
    lemma_offset_congruent(x, y, x2, y2, 0, 1, w, h);
    lemma_offset_congruent(x, y, x2, y2, 1, 1, w, h);
}

/// The wrap invariant: stepping a full width past either vertical edge, or a
/// full height past either horizontal edge, names the same physical cell and
/// the same neighborhood. In particular column `-1` is column `w - 1` and
/// row `-1` is row `h - 1`, so the contracts of spawning and killing, which
/// speak only through [`flat_index`] and [`neighbor_hits`], cannot tell
/// congruent coordinates apart.
pub proof fn lemma_wrap_invariant(x: int, y: int, w: int, h: int)
    requires
        0 < w,
        0 < h,
    ensures
        flat_index(x - w, y, w, h) == flat_index(x, y, w, h),
        flat_index(x + w, y, w, h) == flat_index(x, y, w, h),
        flat_index(x, y - h, w, h) == flat_index(x, y, w, h),
        flat_index(x, y + h, w, h) == flat_index(x, y, w, h),
        forall|j: int| neighbor_hits(x - w, y, w, h, j) == neighbor_hits(x, y, w, h, j),
        forall|j: int| neighbor_hits(x + w, y, w, h, j) == neighbor_hits(x, y, w, h, j),
        forall|j: int| neighbor_hits(x, y - h, w, h, j) == neighbor_hits(x, y, w, h, j),
        forall|j: int| neighbor_hits(x, y + h, w, h, j) == neighbor_hits(x, y, w, h, j),
{
    lemma_edge_wrap(x, w);
    lemma_edge_wrap(y, h);
    lemma_congruent_indices(x - w, y, x, y, w, h);
    lemma_congruent_indices(x + w, y, x, y, w, h);
    lemma_congruent_indices(x, y - h, x, y, w, h);
    lemma_congruent_indices(x, y + h, x, y, w, h);
}

/// One slot of the pairing behind [`lemma_hits_symmetric`]: slot `(ex, ey)`
/// of `(tx, ty)` lands on `(cx, cy)` exactly when slot `(-ex, -ey)` of
/// `(cx, cy)` lands on `(tx, ty)`.
proof fn lemma_offset_swap(
    tx: int,
    ty: int,
    cx: int,
    cy: int,
    ex: int,
    ey: int,
    w: int,
    h: int,
)
    requires
        0 < w,
        0 < h,
    ensures
        (flat_index(tx + ex, ty + ey, w, h) == flat_index(cx, cy, w, h)) <==> (flat_index(
            cx - ex,
            cy - ey,
            w,
            h,
        ) == flat_index(tx, ty, w, h)),
{
    lemma_flat_index_eq(tx + ex, ty + ey, cx, cy, w, h);
    lemma_flat_index_eq(cx - ex, cy - ey, tx, ty, w, h);
    lemma_mod_shift_swap(tx, cx, ex, w);
    lemma_mod_shift_swap(ty, cy, ey, h);
}

/// Hit counts are symmetric: `(tx, ty)` sees the cell at `(cx, cy)` through
/// exactly as many neighborhood slots as `(cx, cy)` sees the cell at
/// `(tx, ty)`. The Moore offsets are closed under negation, so the slots
/// pair up one to one.
pub proof fn lemma_hits_symmetric(tx: int, ty: int, cx: int, cy: int, w: int, h: int)
    requires
        0 < w,
        0 < h,
    ensures
        neighbor_hits(tx, ty, w, h, flat_index(cx, cy, w, h)) == neighbor_hits(
            cx,
            cy,
            w,
            h,
            flat_index(tx, ty, w, h),
        ),
{
    lemma_offset_swap(tx, ty, cx, cy, -1, -1, w, h);
    lemma_offset_swap(tx, ty, cx, cy, 0, -1, w, h);
    lemma_offset_swap(tx, ty, cx, cy, 1, -1, w, h);
    lemma_offset_swap(tx, ty, cx, cy, -1, 0, w, h);
    lemma_offset_swap(tx, ty, cx, cy, 1, 0, w, h);
    lemma_offset_swap(tx, ty, cx, cy, -1, 1, w, h);
    lemma_offset_swap(tx, ty, cx, cy, 0, 1, w, h);
    lemma_offset_swap(tx, ty, cx, cy, 1, 1, w, h);
}

/// Setting the alive flag of the dead cell at `(tx, ty)` raises the true
/// live-neighbor count of `(cx, cy)` by exactly the number of its slots that
/// land on that cell.
proof fn lemma_spawn_flip_neighbors(
    g1: Seq<CellState>,
    g2: Seq<CellState>,
    w: int,
    h: int,
    tx: int,
    ty: int,
    cx: int,
    cy: int,
)
    requires
        grid_ok(g1, w, h),
        g2.len() == g1.len(),
        forall|j: int|
            0 <= j < g1.len() && j != flat_index(tx, ty, w, h) ==> (#[trigger] g2[j]).alive
                == g1[j].alive,
        g2[flat_index(tx, ty, w, h)].alive == true,
        g1[flat_index(tx, ty, w, h)].alive == false,
    ensures
        live_neighbors(g2, w, h, cx, cy) == live_neighbors(g1, w, h, cx, cy) + neighbor_hits(
            cx,
            cy,
            w,
            h,
            flat_index(tx, ty, w, h),
        ),
{
    lemma_flat_index_bounds(cx - 1, cy - 1, w, h);
    lemma_flat_index_bounds(cx, cy - 1, w, h);
    lemma_flat_index_bounds(cx + 1, cy - 1, w, h);
    lemma_flat_index_bounds(cx - 1, cy, w, h);
    lemma_flat_index_bounds(cx + 1, cy, w, h);
    lemma_flat_index_bounds(cx - 1, cy + 1, w, h);
    lemma_flat_index_bounds(cx, cy + 1, w, h);
    lemma_flat_index_bounds(cx + 1, cy + 1, w, h);
}

/// Clearing the alive flag of the live cell at `(tx, ty)` lowers the true
/// live-neighbor count of `(cx, cy)` by exactly the number of its slots that
/// land on that cell.
proof fn lemma_kill_flip_neighbors(
    g1: Seq<CellState>,
    g2: Seq<CellState>,
    w: int,
    h: int,
    tx: int,
    ty: int,
    cx: int,
    cy: int,
)
    requires
        grid_ok(g1, w, h),
        g2.len() == g1.len(),
        forall|j: int|
            0 <= j < g1.len() && j != flat_index(tx, ty, w, h) ==> (#[trigger] g2[j]).alive
                == g1[j].alive,
        g2[flat_index(tx, ty, w, h)].alive == false,
        g1[flat_index(tx, ty, w, h)].alive == true,
    ensures
        live_neighbors(g2, w, h, cx, cy) == live_neighbors(g1, w, h, cx, cy) - neighbor_hits(
            cx,
            cy,
            w,
            h,
            flat_index(tx, ty, w, h),
        ),
{
    lemma_flat_index_bounds(cx - 1, cy - 1, w, h);
    lemma_flat_index_bounds(cx, cy - 1, w, h);
    lemma_flat_index_bounds(cx + 1, cy - 1, w, h);
    lemma_flat_index_bounds(cx - 1, cy, w, h);
    lemma_flat_index_bounds(cx + 1, cy, w, h);
    lemma_flat_index_bounds(cx - 1, cy + 1, w, h);
    lemma_flat_index_bounds(cx, cy + 1, w, h);
    lemma_flat_index_bounds(cx + 1, cy + 1, w, h);
}

/// In a consistent grid, a cell next to a dead target has room for as many
/// increments as it has slots on the target: the target occupies that many
/// slots of its neighborhood, all dead.
pub proof fn lemma_dead_target_room(
    g: Seq<CellState>,
    w: int,
    h: int,
    tx: int,
    ty: int,
    cx: int,
    cy: int,
)
    requires
        grid_ok(g, w, h),
        counts_consistent(g, w, h),
        !alive_at(g, w, h, tx, ty),
        0 <= cx < w,
        0 <= cy < h,
    ensures
        cell_at(g, w, h, cx, cy).count + neighbor_hits(cx, cy, w, h, flat_index(tx, ty, w, h))
            <= 8,
{
    let t = flat_index(tx, ty, w, h);
    assert(cell_at(g, w, h, cx, cy).count == live_neighbors(g, w, h, cx, cy));
    assert(flat_index(cx - 1, cy - 1, w, h) == t ==> !alive_at(g, w, h, cx - 1, cy - 1));
    assert(flat_index(cx, cy - 1, w, h) == t ==> !alive_at(g, w, h, cx, cy - 1));
    assert(flat_index(cx + 1, cy - 1, w, h) == t ==> !alive_at(g, w, h, cx + 1, cy - 1));
    assert(flat_index(cx - 1, cy, w, h) == t ==> !alive_at(g, w, h, cx - 1, cy));
    assert(flat_index(cx + 1, cy, w, h) == t ==> !alive_at(g, w, h, cx + 1, cy));
    assert(flat_index(cx - 1, cy + 1, w, h) == t ==> !alive_at(g, w, h, cx - 1, cy + 1));
    assert(flat_index(cx, cy + 1, w, h) == t ==> !alive_at(g, w, h, cx, cy + 1));
    assert(flat_index(cx + 1, cy + 1, w, h) == t ==> !alive_at(g, w, h, cx + 1, cy + 1));
}

/// In a consistent grid, a cell next to a live target has at least as many
/// counted neighbors as it has slots on the target.
pub proof fn lemma_live_target_occupancy(
    g: Seq<CellState>,
    w: int,
    h: int,
    tx: int,
    ty: int,
    cx: int,
    cy: int,
)
    requires
        grid_ok(g, w, h),
        counts_consistent(g, w, h),
        alive_at(g, w, h, tx, ty),
        0 <= cx < w,
        0 <= cy < h,
    ensures
        cell_at(g, w, h, cx, cy).count >= neighbor_hits(cx, cy, w, h, flat_index(tx, ty, w, h)),
{
    let t = flat_index(tx, ty, w, h);
    assert(cell_at(g, w, h, cx, cy).count == live_neighbors(g, w, h, cx, cy));
    assert(flat_index(cx - 1, cy - 1, w, h) == t ==> alive_at(g, w, h, cx - 1, cy - 1));
    assert(flat_index(cx, cy - 1, w, h) == t ==> alive_at(g, w, h, cx, cy - 1));
    assert(flat_index(cx + 1, cy - 1, w, h) == t ==> alive_at(g, w, h, cx + 1, cy - 1));
    assert(flat_index(cx - 1, cy, w, h) == t ==> alive_at(g, w, h, cx - 1, cy));
    assert(flat_index(cx + 1, cy, w, h) == t ==> alive_at(g, w, h, cx + 1, cy));
    assert(flat_index(cx - 1, cy + 1, w, h) == t ==> alive_at(g, w, h, cx - 1, cy + 1));
    assert(flat_index(cx, cy + 1, w, h) == t ==> alive_at(g, w, h, cx, cy + 1));
    assert(flat_index(cx + 1, cy + 1, w, h) == t ==> alive_at(g, w, h, cx + 1, cy + 1));
}

/// Spawning preserves consistency: if a dead target's alive flag is set and
/// every cell's cached count is raised by its hit count on the target, the
/// cached counts again equal the true live-neighbor counts.
pub proof fn lemma_spawn_consistent(
    g1: Seq<CellState>,
    g2: Seq<CellState>,
    w: int,
    h: int,
    tx: int,
    ty: int,
)
    requires
        grid_ok(g1, w, h),
        counts_consistent(g1, w, h),
        !alive_at(g1, w, h, tx, ty),
        g2.len() == g1.len(),
        forall|j: int|
            0 <= j < g1.len() ==> (#[trigger] g2[j]).alive == (g1[j].alive || j == flat_index(
                tx,
                ty,
                w,
                h,
            )),
        forall|j: int|
            0 <= j < g1.len() ==> (#[trigger] g2[j]).count == g1[j].count + neighbor_hits(
                tx,
                ty,
                w,
                h,
                j,
            ),
    ensures
        grid_ok(g2, w, h),
        counts_consistent(g2, w, h),
{
    let t = flat_index(tx, ty, w, h);
    lemma_flat_index_bounds(tx, ty, w, h);
    assert forall|cx: int, cy: int| 0 <= cx < w && 0 <= cy < h implies (#[trigger] cell_at(
        g2,
        w,
        h,
        cx,
        cy,
    )).count == live_neighbors(g2, w, h, cx, cy) by {
        let j = flat_index(cx, cy, w, h);
        lemma_flat_index_bounds(cx, cy, w, h);
        lemma_hits_symmetric(tx, ty, cx, cy, w, h);
        lemma_spawn_flip_neighbors(g1, g2, w, h, tx, ty, cx, cy);
        assert(cell_at(g1, w, h, cx, cy).count == live_neighbors(g1, w, h, cx, cy));
    }
}

/// Killing preserves consistency: if a live target's alive flag is cleared
/// and every cell's cached count is lowered by its hit count on the target,
/// the cached counts again equal the true live-neighbor counts.
pub proof fn lemma_kill_consistent(
    g1: Seq<CellState>,
    g2: Seq<CellState>,
    w: int,
    h: int,
    tx: int,
    ty: int,
)
    requires
        grid_ok(g1, w, h),
        counts_consistent(g1, w, h),
        alive_at(g1, w, h, tx, ty),
        g2.len() == g1.len(),
        forall|j: int|
            0 <= j < g1.len() ==> (#[trigger] g2[j]).alive == (g1[j].alive && j != flat_index(
                tx,
                ty,
                w,
                h,
            )),
        forall|j: int|
            0 <= j < g1.len() ==> (#[trigger] g2[j]).count == g1[j].count - neighbor_hits(
                tx,
                ty,
                w,
                h,
                j,
            ),
    ensures
        grid_ok(g2, w, h),
        counts_consistent(g2, w, h),
{
    let t = flat_index(tx, ty, w, h);
    lemma_flat_index_bounds(tx, ty, w, h);
    assert forall|cx: int, cy: int| 0 <= cx < w && 0 <= cy < h implies (#[trigger] cell_at(
        g2,
        w,
        h,
        cx,
        cy,
    )).count == live_neighbors(g2, w, h, cx, cy) by {
        let j = flat_index(cx, cy, w, h);
        lemma_flat_index_bounds(cx, cy, w, h);
        lemma_hits_symmetric(tx, ty, cx, cy, w, h);
        lemma_kill_flip_neighbors(g1, g2, w, h, tx, ty, cx, cy);
        assert(cell_at(g1, w, h, cx, cy).count == live_neighbors(g1, w, h, cx, cy));
    }
}

/// A grid of dead cells with zeroed counts is consistent.
pub proof fn lemma_blank_grid_consistent(g: Seq<CellState>, w: int, h: int)
    requires
        grid_ok(g, w, h),
        forall|j: int|
            0 <= j < g.len() ==> #[trigger] g[j] == (CellState { alive: false, count: 0 }),
    ensures
        counts_consistent(g, w, h),
{
    assert forall|cx: int, cy: int| 0 <= cx < w && 0 <= cy < h implies (#[trigger] cell_at(
        g,
        w,
        h,
        cx,
        cy,
    )).count == live_neighbors(g, w, h, cx, cy) by {
        lemma_flat_index_bounds(cx, cy, w, h);
        lemma_flat_index_bounds(cx - 1, cy - 1, w, h);
        lemma_flat_index_bounds(cx, cy - 1, w, h);
        lemma_flat_index_bounds(cx + 1, cy - 1, w, h);
        lemma_flat_index_bounds(cx - 1, cy, w, h);
        lemma_flat_index_bounds(cx + 1, cy, w, h);
        lemma_flat_index_bounds(cx - 1, cy + 1, w, h);
        lemma_flat_index_bounds(cx, cy + 1, w, h);
        lemma_flat_index_bounds(cx + 1, cy + 1, w, h);
    }
}

/// The coordinate one step to the left or above, with the two's-complement
/// wrap the signed coordinate space itself has at its far end.
pub open spec fn pred_wrap(v: isize) -> isize {
    if v == isize::MIN {
        isize::MAX
    } else {
        (v - 1) as isize
    }
}

/// The coordinate one step to the right or below, with the two's-complement
/// wrap the signed coordinate space itself has at its far end.
pub open spec fn succ_wrap(v: isize) -> isize {
    if v == isize::MAX {
        isize::MIN
    } else {
        (v + 1) as isize
    }
}

/// Wraps a signed coordinate onto `[0, n)`, the Euclidean remainder modulo
/// `n`. Negative and oversized coordinates re-enter from the opposite edge.
pub fn wrap_index(i: isize, n: usize) -> (r: usize)
    requires
        0 < n,
    ensures
        r as int == (i as int) % (n as int),
{
    if i >= 0 {
        (i as usize) % n
    } else {
        let a = (-(i + 1)) as usize;
        let m = a % n;
        proof {
            let ii = i as int;
            let ni = n as int;
            lemma_fundamental_div_mod(a as int, ni);
            lemma_mod_division_less_than_divisor(a as int, ni);
            let q = (a as int) / ni;
            assert(ii == ni * (-q - 1) + (ni - 1 - (m as int))) by (nonlinear_arith)
                requires
                    a as int == ni * q + (m as int),
                    ii == -(a as int) - 1,
            ;
            lemma_fundamental_div_mod_converse_mod(ii, ni, -q - 1, ni - 1 - (m as int));
        }
        n - 1 - m
    }
}

/// [`lemma_dead_target_room`] at an arbitrary coordinate pair, wrapped or
/// not.
pub proof fn lemma_room_at(g: Seq<CellState>, w: int, h: int, tx: int, ty: int, a: int, b: int)
    requires
        grid_ok(g, w, h),
        counts_consistent(g, w, h),
        !alive_at(g, w, h, tx, ty),
    ensures
        cell_at(g, w, h, a, b).count + neighbor_hits(a, b, w, h, flat_index(tx, ty, w, h)) <= 8,
{
    lemma_mod_division_less_than_divisor(a, w);
    lemma_mod_division_less_than_divisor(b, h);
    lemma_mod_twice(a, w);
    lemma_mod_twice(b, h);
    lemma_congruent_coordinates(g, w, h, a, b, a % w, b % h);
    lemma_dead_target_room(g, w, h, tx, ty, a % w, b % h);
}

/// [`lemma_live_target_occupancy`] at an arbitrary coordinate pair, wrapped
/// or not.
pub proof fn lemma_occupancy_at(
    g: Seq<CellState>,
    w: int,
    h: int,
    tx: int,
    ty: int,
    a: int,
    b: int,
)
    requires
        grid_ok(g, w, h),
        counts_consistent(g, w, h),
        alive_at(g, w, h, tx, ty),
    ensures
        cell_at(g, w, h, a, b).count >= neighbor_hits(a, b, w, h, flat_index(tx, ty, w, h)),
{
    lemma_mod_division_less_than_divisor(a, w);
    lemma_mod_division_less_than_divisor(b, h);
    lemma_mod_twice(a, w);
    lemma_mod_twice(b, h);
    lemma_congruent_coordinates(g, w, h, a, b, a % w, b % h);
    lemma_live_target_occupancy(g, w, h, tx, ty, a % w, b % h);
}

/// Whether `i1` through `i8` are the flat indices of the eight neighborhood
/// slots of `(tx, ty)`, in row-major slot order.
pub open spec fn slot_indices(
    tx: int,
    ty: int,
    w: int,
    h: int,
    i1: int,
    i2: int,
    i3: int,
    i4: int,
    i5: int,
    i6: int,
    i7: int,
    i8: int,
) -> bool {
    &&& i1 == flat_index(tx - 1, ty - 1, w, h)
    &&& i2 == flat_index(tx, ty - 1, w, h)
    &&& i3 == flat_index(tx + 1, ty - 1, w, h)
    &&& i4 == flat_index(tx - 1, ty, w, h)
    &&& i5 == flat_index(tx + 1, ty, w, h)
    &&& i6 == flat_index(tx - 1, ty + 1, w, h)
    &&& i7 == flat_index(tx, ty + 1, w, h)
    &&& i8 == flat_index(tx + 1, ty + 1, w, h)
}

/// How many of the first `k` indices in `s` equal `j`.
pub open spec fn hits_upto(s: Seq<usize>, k: int, j: int) -> int
    decreases k,
{
    if k <= 0 {
        0
    } else {
        hits_upto(s, k - 1, j) + bit(s[k - 1] as int == j)
    }
}

/// Prefix hit counts only grow.
pub proof fn lemma_hits_upto_mono(s: Seq<usize>, k: int, m: int, j: int)
    requires
        0 <= k <= m,
    ensures
        hits_upto(s, k, j) <= hits_upto(s, m, j),
    decreases m - k,
{
    if k < m {
        lemma_hits_upto_mono(s, k, m - 1, j);
    }
}

/// The hit count over all eight indices, written out.
pub proof fn lemma_hits_upto_eight(s: Seq<usize>, j: int)
    requires
        s.len() == 8,
    ensures
        hits_upto(s, 8, j) == bit(s[0] as int == j) + bit(s[1] as int == j) + bit(
            s[2] as int == j,
        ) + bit(s[3] as int == j) + bit(s[4] as int == j) + bit(s[5] as int == j) + bit(
            s[6] as int == j,
        ) + bit(s[7] as int == j),
{
    assert(hits_upto(s, 0, j) == 0);
    assert(hits_upto(s, 1, j) == hits_upto(s, 0, j) + bit(s[0] as int == j));
    assert(hits_upto(s, 2, j) == hits_upto(s, 1, j) + bit(s[1] as int == j));
    assert(hits_upto(s, 3, j) == hits_upto(s, 2, j) + bit(s[2] as int == j));
    assert(hits_upto(s, 4, j) == hits_upto(s, 3, j) + bit(s[3] as int == j));
    assert(hits_upto(s, 5, j) == hits_upto(s, 4, j) + bit(s[4] as int == j));
    assert(hits_upto(s, 6, j) == hits_upto(s, 5, j) + bit(s[5] as int == j));
    assert(hits_upto(s, 7, j) == hits_upto(s, 6, j) + bit(s[6] as int == j));
    assert(hits_upto(s, 8, j) == hits_upto(s, 7, j) + bit(s[7] as int == j));
}

/// Whether `s` lists the flat indices of the eight neighborhood slots of
/// `(tx, ty)`, in row-major slot order.
pub open spec fn slot_index_seq(tx: int, ty: int, w: int, h: int, s: Seq<usize>) -> bool {
    &&& s.len() == 8
    &&& slot_indices(
        tx,
        ty,
        w,
        h,
        s[0] as int,
        s[1] as int,
        s[2] as int,
        s[3] as int,
        s[4] as int,
        s[5] as int,
        s[6] as int,
        s[7] as int,
    )
}

/// Room bounds along the slot list of a dead target: the cell behind each
/// slot can absorb one increment per slot that lands on it, duplicates
/// included.
#[verifier::rlimit(100)]
#[verifier::spinoff_prover]
pub proof fn lemma_spawn_room_seq(
    g: Seq<CellState>,
    w: int,
    h: int,
    tx: int,
    ty: int,
    s: Seq<usize>,
)
    requires
        grid_ok(g, w, h),
        counts_consistent(g, w, h),
        !alive_at(g, w, h, tx, ty),
        slot_index_seq(tx, ty, w, h, s),
    ensures
        forall|l: int|
            0 <= l < 8 ==> g[(#[trigger] s[l]) as int].count + hits_upto(s, 8, s[l] as int) <= 8,
{
    assert forall|l: int| 0 <= l < 8 implies g[(#[trigger] s[l]) as int].count + hits_upto(
        s,
        8,
        s[l] as int,
    ) <= 8 by {
        lemma_hits_upto_eight(s, s[l] as int);
        if l == 0 {
            lemma_room_at(g, w, h, tx, ty, tx - 1, ty - 1);
            lemma_hits_symmetric(tx, ty, tx - 1, ty - 1, w, h);
        } else if l == 1 {
            lemma_room_at(g, w, h, tx, ty, tx, ty - 1);
            lemma_hits_symmetric(tx, ty, tx, ty - 1, w, h);
        } else if l == 2 {
            lemma_room_at(g, w, h, tx, ty, tx + 1, ty - 1);
            lemma_hits_symmetric(tx, ty, tx + 1, ty - 1, w, h);
        } else if l == 3 {
            lemma_room_at(g, w, h, tx, ty, tx - 1, ty);
            lemma_hits_symmetric(tx, ty, tx - 1, ty, w, h);
        } else if l == 4 {
            lemma_room_at(g, w, h, tx, ty, tx + 1, ty);
            lemma_hits_symmetric(tx, ty, tx + 1, ty, w, h);
        } else if l == 5 {
            lemma_room_at(g, w, h, tx, ty, tx - 1, ty + 1);
            lemma_hits_symmetric(tx, ty, tx - 1, ty + 1, w, h);
        } else if l == 6 {
            lemma_room_at(g, w, h, tx, ty, tx, ty + 1);
            lemma_hits_symmetric(tx, ty, tx, ty + 1, w, h);
        } else {
            lemma_room_at(g, w, h, tx, ty, tx + 1, ty + 1);
            lemma_hits_symmetric(tx, ty, tx + 1, ty + 1, w, h);
        }
    }
}

/// Occupancy bounds along the slot list of a live target: the cell behind
/// each slot has one counted neighbor per slot that lands on it, duplicates
/// included.
#[verifier::rlimit(100)]
#[verifier::spinoff_prover]
pub proof fn lemma_kill_occupancy_seq(
    g: Seq<CellState>,
    w: int,
    h: int,
    tx: int,
    ty: int,
    s: Seq<usize>,
)
    requires
        grid_ok(g, w, h),
        counts_consistent(g, w, h),
        alive_at(g, w, h, tx, ty),
        slot_index_seq(tx, ty, w, h, s),
    ensures
        forall|l: int|
            0 <= l < 8 ==> g[(#[trigger] s[l]) as int].count >= hits_upto(s, 8, s[l] as int),
{
    assert forall|l: int| 0 <= l < 8 implies g[(#[trigger] s[l]) as int].count >= hits_upto(
        s,
        8,
        s[l] as int,
    ) by {
        lemma_hits_upto_eight(s, s[l] as int);
        if l == 0 {
            lemma_occupancy_at(g, w, h, tx, ty, tx - 1, ty - 1);
            lemma_hits_symmetric(tx, ty, tx - 1, ty - 1, w, h);
        } else if l == 1 {
            lemma_occupancy_at(g, w, h, tx, ty, tx, ty - 1);
            lemma_hits_symmetric(tx, ty, tx, ty - 1, w, h);
        } else if l == 2 {
            lemma_occupancy_at(g, w, h, tx, ty, tx + 1, ty - 1);
            lemma_hits_symmetric(tx, ty, tx + 1, ty - 1, w, h);
        } else if l == 3 {
            lemma_occupancy_at(g, w, h, tx, ty, tx - 1, ty);
            lemma_hits_symmetric(tx, ty, tx - 1, ty, w, h);
        } else if l == 4 {
            lemma_occupancy_at(g, w, h, tx, ty, tx + 1, ty);
            lemma_hits_symmetric(tx, ty, tx + 1, ty, w, h);
        } else if l == 5 {
            lemma_occupancy_at(g, w, h, tx, ty, tx - 1, ty + 1);
            lemma_hits_symmetric(tx, ty, tx - 1, ty + 1, w, h);
        } else if l == 6 {
            lemma_occupancy_at(g, w, h, tx, ty, tx, ty + 1);
            lemma_hits_symmetric(tx, ty, tx, ty + 1, w, h);
        } else {
            lemma_occupancy_at(g, w, h, tx, ty, tx + 1, ty + 1);
            lemma_hits_symmetric(tx, ty, tx + 1, ty + 1, w, h);
        }
    }
}

/// [`lemma_spawn_consistent`], with the count change folded over the slot
/// list; also restates the change through [`neighbor_hits`].
#[verifier::rlimit(100)]
#[verifier::spinoff_prover]
pub proof fn lemma_spawn_consistent_seq(
    g1: Seq<CellState>,
    g2: Seq<CellState>,
    w: int,
    h: int,
    tx: int,
    ty: int,
    s: Seq<usize>,
)
    requires
        grid_ok(g1, w, h),
        counts_consistent(g1, w, h),
        !alive_at(g1, w, h, tx, ty),
        slot_index_seq(tx, ty, w, h, s),
        g2.len() == g1.len(),
        forall|j: int|
            0 <= j < g1.len() ==> (#[trigger] g2[j]).alive == (g1[j].alive || j == flat_index(
                tx,
                ty,
                w,
                h,
            )),
        forall|j: int|
            0 <= j < g1.len() ==> (#[trigger] g2[j]).count == g1[j].count + hits_upto(s, 8, j),
    ensures
        grid_ok(g2, w, h),
        counts_consistent(g2, w, h),
        forall|j: int|
            0 <= j < g1.len() ==> (#[trigger] g2[j]).count == g1[j].count + neighbor_hits(
                tx,
                ty,
                w,
                h,
                j,
            ),
{
    assert forall|j: int| #[trigger] neighbor_hits(tx, ty, w, h, j) == hits_upto(s, 8, j) by {
        lemma_hits_upto_eight(s, j);
    }
    lemma_spawn_consistent(g1, g2, w, h, tx, ty);
}

/// [`lemma_kill_consistent`], with the count change folded over the slot
/// list; also restates the change through [`neighbor_hits`].
#[verifier::rlimit(100)]
#[verifier::spinoff_prover]
pub proof fn lemma_kill_consistent_seq(
    g1: Seq<CellState>,
    g2: Seq<CellState>,
    w: int,
    h: int,
    tx: int,
    ty: int,
    s: Seq<usize>,
)
    requires
        grid_ok(g1, w, h),
        counts_consistent(g1, w, h),
        alive_at(g1, w, h, tx, ty),
        slot_index_seq(tx, ty, w, h, s),
        g2.len() == g1.len(),
        forall|j: int|
            0 <= j < g1.len() ==> (#[trigger] g2[j]).alive == (g1[j].alive && j != flat_index(
                tx,
                ty,
                w,
                h,
            )),
        forall|j: int|
            0 <= j < g1.len() ==> (#[trigger] g2[j]).count == g1[j].count - hits_upto(s, 8, j),
    ensures
        grid_ok(g2, w, h),
        counts_consistent(g2, w, h),
        forall|j: int|
            0 <= j < g1.len() ==> (#[trigger] g2[j]).count == g1[j].count - neighbor_hits(
                tx,
                ty,
                w,
                h,
                j,
            ),
{
    assert forall|j: int| #[trigger] neighbor_hits(tx, ty, w, h, j) == hits_upto(s, 8, j) by {
        lemma_hits_upto_eight(s, j);
    }
    lemma_kill_consistent(g1, g2, w, h, tx, ty);
}

/// The count invariant, read at any coordinate: in a consistent grid the
/// cached neighbor count of every cell — addressed through any coordinate
/// pair, wrapped or not — equals the count a brute-force scan of its eight
/// neighborhood slots would find.
pub proof fn lemma_cached_count_is_true_count(
    g: Seq<CellState>,
    w: int,
    h: int,
    x: int,
    y: int,
)
    requires
        grid_ok(g, w, h),
        counts_consistent(g, w, h),
    ensures
        cell_at(g, w, h, x, y).count == live_neighbors(g, w, h, x, y),
{
    lemma_mod_division_less_than_divisor(x, w);
    lemma_mod_division_less_than_divisor(y, h);
    lemma_mod_twice(x, w);
    lemma_mod_twice(y, h);
    lemma_congruent_coordinates(g, w, h, x, y, x % w, y % h);
    assert(cell_at(g, w, h, x % w, y % h).count == live_neighbors(g, w, h, x % w, y % h));
}

} // verus!
