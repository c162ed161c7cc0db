//! Partition of a viewport into a grid of tiles, each with its own pixel
//! resolution.

use vstd::prelude::*;
use vstd::arithmetic::div_mod::{
    lemma_div_is_ordered, lemma_div_plus_one, lemma_fundamental_div_mod_converse,
    lemma_div_multiples_vanish, lemma_div_pos_is_pos,
};
use vstd::arithmetic::mul::{lemma_mul_inequality, lemma_mul_is_distributive_add};

use crate::models::{Point, Range, Resolution};

verus! {

/// A rectangle of the complex plane with the pixel resolution to compute it at.
#[derive(Debug, Clone, Copy, PartialEq, Eq, Structural)]
pub struct Tile {
    pub range: Range,
    pub resolution: Resolution,
}

/// Bound on the magnitude of every viewport coordinate.
pub const COORD_LIMIT: i64 = 1_000_000_000_000_000_000;

/// Whether a canvas of `width × height` pixels can be cut `tiles` times per axis.
pub open spec fn valid_grid(width: int, height: int, tiles: int) -> bool {
    1 <= tiles <= width <= u16::MAX && tiles <= height <= u16::MAX
}

/// Whether a range lies within the coordinate bounds.
pub open spec fn bounded(r: Range) -> bool {
    r.wf() && -COORD_LIMIT <= r.min.x && r.max.x <= COORD_LIMIT && -COORD_LIMIT <= r.min.y
        && r.max.y <= COORD_LIMIT
}

/// The `i`-th of the `t + 1` cut lines that split `[lo, lo + ext]` into `t`
/// equal parts.
pub open spec fn cut(lo: int, ext: int, i: int, t: int) -> int {
    lo + ext * i / t
}

/// Pixels given to part `i` of `t` of a span of `total` pixels: the quotient,
/// and the residue on top of it for the last part.
pub open spec fn share(total: int, t: int, i: int) -> int {
    if i == t - 1 {
        total - (t - 1) * (total / t)
    } else {
        total / t
    }
}

/// Tile `k` of the row-major grid of `t × t` tiles over `view`, starting at
/// the corner `view.min`.
pub open spec fn planned_tile(view: Range, width: int, height: int, t: int, k: int) -> Tile {
    let row = k / t;
    let col = k % t;
    let ex = view.max.x - view.min.x;
    let ey = view.max.y - view.min.y;
    Tile {
        range: Range {
            min: Point {
                x: cut(view.min.x as int, ex, col, t) as i64,
                y: cut(view.min.y as int, ey, row, t) as i64,
            },
            max: Point {
                x: cut(view.min.x as int, ex, col + 1, t) as i64,
                y: cut(view.min.y as int, ey, row + 1, t) as i64,
            },
        },
        resolution: Resolution { nx: share(width, t, col) as u16, ny: share(height, t, row) as u16 },
    }
}

/// The whole grid of tiles, in dispatch order.
pub open spec fn planned_tiles(view: Range, width: int, height: int, t: int) -> Seq<Tile> {
    Seq::new((t * t) as nat, |k: int| planned_tile(view, width, height, t, k))
}

/// Sum of the pixel areas of a sequence of tiles.
pub open spec fn total_area(s: Seq<Tile>) -> int
    decreases s.len(),
{
    if s.len() == 0 {
        0
    } else {
        total_area(s.drop_last()) + s.last().resolution.nx * s.last().resolution.ny
    }
}

proof fn lemma_cut_bounds(lo: int, ext: int, i: int, t: int)
    requires
        0 <= ext,
        1 <= t,
        0 <= i <= t,
    ensures
        lo <= cut(lo, ext, i, t) <= lo + ext,
        i < t ==> cut(lo, ext, i, t) <= cut(lo, ext, i + 1, t),
        i < t && ext >= t ==> cut(lo, ext, i, t) < cut(lo, ext, i + 1, t),
        cut(lo, ext, 0, t) == lo,
        cut(lo, ext, t, t) == lo + ext,
{
    lemma_mul_inequality(i, t, ext);
    assert(ext * i <= ext * t) by (nonlinear_arith)
        requires
            i <= t,
            0 <= ext,
    ;
    assert(0 <= ext * i) by (nonlinear_arith)
        requires
            0 <= i,
            0 <= ext,
    ;
    lemma_div_pos_is_pos(ext * i, t);
    lemma_div_is_ordered(ext * i, ext * t, t);
    lemma_div_multiples_vanish(ext, t);
    assert(ext * t == t * ext) by (nonlinear_arith);
    assert(ext * 0 == 0);
    if i < t {
        lemma_mul_is_distributive_add(ext, i, 1);
        lemma_div_is_ordered(ext * i, ext * (i + 1), t);
        if ext >= t {
            lemma_div_is_ordered(ext * i + t, ext * (i + 1), t);
            lemma_div_plus_one(ext * i, t);
        }
    }
}

proof fn lemma_share_bounds(total: int, t: int, i: int)
    requires
        1 <= t <= total,
        0 <= i < t,
    ensures
        1 <= share(total, t, i) <= total,
{
    let q = total / t;
    let r = total % t;
    vstd::arithmetic::div_mod::lemma_fundamental_div_mod(total, t);
    vstd::arithmetic::div_mod::lemma_mod_pos_bound(total, t);
    assert(q >= 1) by {
        lemma_div_is_ordered(t, total, t);
        lemma_div_multiples_vanish(1, t);
    }
    assert(total == (t - 1) * q + q + r) by (nonlinear_arith)
        requires
            total == t * q + r,
    ;
    assert((t - 1) * q >= 0) by (nonlinear_arith)
        requires
            q >= 1,
            t >= 1,
    ;
}

/// The `i`-th cut line, computed without overflow.
fn cut_at(lo: i64, hi: i64, i: u16, t: u16) -> (r: i64)
    requires
        lo <= hi,
        -COORD_LIMIT <= lo,
        hi <= COORD_LIMIT,
        1 <= t,
        i <= t,
    ensures
        r == cut(lo as int, hi - lo, i as int, t as int),
{
    proof {
        lemma_cut_bounds(lo as int, hi - lo, i as int, t as int);
    }
    let ext: u128 = (hi - lo) as u128;
    assert(ext * (i as u128) <= 2_000_000_000_000_000_000 * 65535) by (nonlinear_arith)
        requires
            ext <= 2_000_000_000_000_000_000,
            i <= 65535,
    ;
    let q: u128 = ext * (i as u128) / (t as u128);
    (lo as i128 + q as i128) as i64
}

/// Pixels given to part `i` of `t` of a span of `total` pixels.
fn share_at(total: u16, t: u16, i: u16) -> (r: u16)
    requires
        1 <= t <= total,
        i < t,
    ensures
        r == share(total as int, t as int, i as int),
{
    proof {
        lemma_share_bounds(total as int, t as int, i as int);
    }
    let q: u16 = total / t;
    if i == t - 1 {
        let used: u32 = (t as u32 - 1) * (q as u32);
        (total as u32 - used) as u16
    } else {
        q
    }
}

proof fn lemma_grid_index(t: int, row: int, col: int)
    requires
        1 <= t,
        0 <= row,
        0 <= col < t,
    ensures
        (row * t + col) / t == row,
        (row * t + col) % t == col,
{
    lemma_fundamental_div_mod_converse(row * t + col, t, row, col);
}

/// Cuts `view` into `tiles × tiles` tiles in row-major order from the corner
/// `view.min`. The cut lines split each axis into equal parts; each tile gets
/// `width / tiles` by `height / tiles` pixels, and the tiles of the last column
/// and of the last row also take the residual pixels.
pub fn plan_tiles(view: &Range, width: u16, height: u16, tiles: u16) -> (r: Vec<Tile>)
    requires
        bounded(*view),
        valid_grid(width as int, height as int, tiles as int),
    ensures
        r@ == planned_tiles(*view, width as int, height as int, tiles as int),
{
    let t = tiles;
    let ghost tt = t as int;
    let mut out: Vec<Tile> = Vec::new();
    let mut row: u16 = 0;
    while row < t
        invariant
            bounded(*view),
            valid_grid(width as int, height as int, tt),
            t == tiles,
            tt == t as int,
            row <= t,
            out@.len() == row * tt,
            forall|k: int|
                0 <= k < out@.len() ==> #[trigger] out@[k] == planned_tile(
                    *view,
                    width as int,
                    height as int,
                    tt,
                    k,
                ),
        decreases t - row,
    {
        let y0 = cut_at(view.min.y, view.max.y, row, t);
        let y1 = cut_at(view.min.y, view.max.y, row + 1, t);
        let ny = share_at(height, t, row);
        let mut col: u16 = 0;
        while col < t
            invariant
                bounded(*view),
                valid_grid(width as int, height as int, tt),
                t == tiles,
                tt == t as int,
                row < t,
                col <= t,
                y0 == cut(view.min.y as int, view.max.y - view.min.y, row as int, tt),
                y1 == cut(view.min.y as int, view.max.y - view.min.y, row + 1, tt),
                ny == share(height as int, tt, row as int),
                out@.len() == row * tt + col,
                forall|k: int|
                    0 <= k < out@.len() ==> #[trigger] out@[k] == planned_tile(
                        *view,
                        width as int,
                        height as int,
                        tt,
                        k,
                    ),
            decreases t - col,
        {
            let x0 = cut_at(view.min.x, view.max.x, col, t);
            let x1 = cut_at(view.min.x, view.max.x, col + 1, t);
            let nx = share_at(width, t, col);
            let tile = Tile {
                range: Range { min: Point { x: x0, y: y0 }, max: Point { x: x1, y: y1 } },
                resolution: Resolution { nx, ny },
            };
            proof {
                lemma_grid_index(tt, row as int, col as int);
            }
            out.push(tile);
            col = col + 1;
        }
        assert(out@.len() == (row + 1) * tt) by (nonlinear_arith)
            requires
                out@.len() == row * tt + tt,
        ;
        row = row + 1;
    }
    assert(out@ =~= planned_tiles(*view, width as int, height as int, tt));
    out
}


/// Sum of the shares of the first `c` parts.
pub open spec fn share_sum(total: int, t: int, c: int) -> int
    decreases c,
{
    if c <= 0 {
        0
    } else {
        share_sum(total, t, c - 1) + share(total, t, c - 1)
    }
}

proof fn lemma_share_sum(total: int, t: int, c: int)
    requires
        1 <= t <= total,
        0 <= c <= t,
    ensures
        c < t ==> share_sum(total, t, c) == c * (total / t),
        c == t ==> share_sum(total, t, c) == total,
    decreases c,
{
    if c > 0 {
        lemma_share_sum(total, t, c - 1);
        assert((c - 1) * (total / t) + total / t == c * (total / t)) by (nonlinear_arith);
    } else {
        assert(0 * (total / t) == 0);
    }
}

proof fn lemma_cut_strict(lo: int, ext: int, i: int, j: int, t: int)
    requires
        t <= ext,
        1 <= t,
        0 <= i < j <= t,
    ensures
        cut(lo, ext, i, t) < cut(lo, ext, j, t),
    decreases j - i,
{
    lemma_cut_bounds(lo, ext, i, t);
    if i + 1 < j {
        lemma_cut_strict(lo, ext, i + 1, j, t);
    }
}

proof fn lemma_find_slot(lo: int, ext: int, t: int, x: int, i: int) -> (j: int)
    requires
        0 <= ext,
        1 <= t,
        0 <= i < t,
        cut(lo, ext, i, t) <= x <= lo + ext,
    ensures
        i <= j < t,
        cut(lo, ext, j, t) <= x <= cut(lo, ext, j + 1, t),
    decreases t - i,
{
    lemma_cut_bounds(lo, ext, i + 1, t);
    lemma_cut_bounds(lo, ext, t, t);
    if x <= cut(lo, ext, i + 1, t) {
        i
    } else {
        lemma_find_slot(lo, ext, t, x, i + 1)
    }
}

proof fn lemma_area_prefix(view: Range, w: int, h: int, t: int, r: int, c: int)
    requires
        bounded(view),
        valid_grid(w, h, t),
        0 <= r < t,
        0 <= c <= t,
    ensures
        total_area(planned_tiles(view, w, h, t).take(r * t + c)) == w * share_sum(h, t, r) + share(
            h,
            t,
            r,
        ) * share_sum(w, t, c),
    decreases r, c,
{
    let ps = planned_tiles(view, w, h, t);
    lemma_share_sum(w, t, t);
    if c == 0 {
        if r == 0 {
            assert(ps.take(0).len() == 0);
            assert(w * 0 == 0 && share(h, t, r) * 0 == 0 && 0 * t == 0);
            assert(total_area(ps.take(r * t + c)) == 0);
        } else {
            assert(share(h, t, r) * 0 == 0);
            lemma_area_prefix(view, w, h, t, r - 1, t);
            assert((r - 1) * t + t == r * t + 0) by (nonlinear_arith);
            assert(w * share_sum(h, t, r - 1) + share(h, t, r - 1) * w == w * share_sum(h, t, r))
                by (nonlinear_arith)
                requires
                    share_sum(h, t, r) == share_sum(h, t, r - 1) + share(h, t, r - 1),
            ;
        }
    } else {
        lemma_area_prefix(view, w, h, t, r, c - 1);
        let n = r * t + c - 1;
        lemma_mul_inequality(r, t - 1, t);
        assert(n < t * t) by (nonlinear_arith)
            requires
                r * t <= (t - 1) * t,
                c <= t,
                n == r * t + c - 1,
        ;
        assert(r * t + c == n + 1);
        assert(ps.take(n + 1).drop_last() =~= ps.take(n));
        lemma_grid_index(t, r, c - 1);
        lemma_share_bounds(w, t, c - 1);
        lemma_share_bounds(h, t, r);
        let last = ps.take(n + 1).last();
        assert(last == planned_tile(view, w, h, t, n));
        assert(last.resolution.nx == share(w, t, c - 1));
        assert(last.resolution.ny == share(h, t, r));
        assert(total_area(ps.take(n + 1)) == total_area(ps.take(n)) + last.resolution.nx
            * last.resolution.ny);
        assert(share(h, t, r) * share_sum(w, t, c - 1) + share(w, t, c - 1) * share(h, t, r)
            == share(h, t, r) * share_sum(w, t, c)) by (nonlinear_arith)
            requires
                share_sum(w, t, c) == share_sum(w, t, c - 1) + share(w, t, c - 1),
        ;
    }
}

/// The grid of tiles partitions the viewport: every tile lies inside it,
/// every point of it lies in some tile, and the pixel areas of the tiles add up
/// to the canvas.
pub proof fn lemma_plan_partitions(view: Range, width: int, height: int, t: int)
    requires
        bounded(view),
        valid_grid(width, height, t),
    ensures
        planned_tiles(view, width, height, t).len() == t * t,
        forall|k: int|
            0 <= k < t * t ==> view.encloses(#[trigger] planned_tile(view, width, height, t, k).range),
        forall|p: Point|
            view.contains(p) ==> exists|k: int|
                0 <= k < t * t && #[trigger] planned_tile(view, width, height, t, k).range.contains(p),
        total_area(planned_tiles(view, width, height, t)) == width * height,
{
    let ex = view.max.x - view.min.x;
    let ey = view.max.y - view.min.y;
    assert forall|k: int|
        0 <= k < t * t implies view.encloses(
        #[trigger] planned_tile(view, width, height, t, k).range,
    ) by {
        vstd::arithmetic::div_mod::lemma_fundamental_div_mod(k, t);
        vstd::arithmetic::div_mod::lemma_mod_pos_bound(k, t);
        lemma_div_pos_is_pos(k, t);
        assert(k / t < t) by {
            vstd::arithmetic::div_mod::lemma_div_is_ordered(k, t * t - 1, t);
            assert(t * t - 1 == (t - 1) * t + (t - 1)) by (nonlinear_arith);
            lemma_fundamental_div_mod_converse(t * t - 1, t, t - 1, t - 1);
        }
        lemma_cut_bounds(view.min.x as int, ex, k % t, t);
        lemma_cut_bounds(view.min.x as int, ex, k % t + 1, t);
        lemma_cut_bounds(view.min.y as int, ey, k / t, t);
        lemma_cut_bounds(view.min.y as int, ey, k / t + 1, t);
    }
    assert forall|p: Point| view.contains(p) implies exists|k: int|
        0 <= k < t * t && #[trigger] planned_tile(view, width, height, t, k).range.contains(p) by {
        lemma_cut_bounds(view.min.x as int, ex, 0, t);
        lemma_cut_bounds(view.min.y as int, ey, 0, t);
        let col = lemma_find_slot(view.min.x as int, ex, t, p.x as int, 0);
        let row = lemma_find_slot(view.min.y as int, ey, t, p.y as int, 0);
        let k = row * t + col;
        lemma_grid_index(t, row, col);
        lemma_mul_inequality(row, t - 1, t);
        assert(k < t * t) by (nonlinear_arith)
            requires
                row * t <= (t - 1) * t,
                col < t,
                k == row * t + col,
        ;
        assert(0 <= k) by (nonlinear_arith)
            requires
                0 <= row,
                0 <= col,
                k == row * t + col,
                0 < t,
        ;
        lemma_cut_bounds(view.min.x as int, ex, col, t);
        lemma_cut_bounds(view.min.x as int, ex, col + 1, t);
        lemma_cut_bounds(view.min.y as int, ey, row, t);
        lemma_cut_bounds(view.min.y as int, ey, row + 1, t);
        assert(planned_tile(view, width, height, t, k).range.contains(p));
    }
    lemma_area_prefix(view, width, height, t, t - 1, t);
    lemma_share_sum(height, t, t);
    lemma_share_sum(width, t, t);
    assert((t - 1) * t + t == t * t) by (nonlinear_arith);
    let ps = planned_tiles(view, width, height, t);
    assert(ps.take(t * t) =~= ps);
    assert(width * share_sum(height, t, t - 1) + share(height, t, t - 1) * width == width * height)
        by (nonlinear_arith)
        requires
            share_sum(height, t, t) == share_sum(height, t, t - 1) + share(height, t, t - 1),
            share_sum(height, t, t) == height,
    ;
}

/// Every tile of the grid has at least one pixel on each axis.
pub proof fn lemma_tile_resolution(view: Range, w: int, h: int, t: int, k: int)
    requires
        valid_grid(w, h, t),
        0 <= k < t * t,
    ensures
        planned_tile(view, w, h, t, k).resolution.nx >= 1,
        planned_tile(view, w, h, t, k).resolution.ny >= 1,
{
    vstd::arithmetic::div_mod::lemma_mod_pos_bound(k, t);
    lemma_div_pos_is_pos(k, t);
    assert(k / t < t) by {
        vstd::arithmetic::div_mod::lemma_div_is_ordered(k, t * t - 1, t);
        assert(t * t - 1 == (t - 1) * t + (t - 1)) by (nonlinear_arith);
        lemma_fundamental_div_mod_converse(t * t - 1, t, t - 1, t - 1);
    }
    lemma_share_bounds(w, t, k % t);
    lemma_share_bounds(h, t, k / t);
}

/// Where each axis of the viewport spans at least one unit per tile, the tiles
/// of the grid are pairwise distinct.
pub proof fn lemma_plan_distinct(view: Range, width: int, height: int, t: int)
    requires
        bounded(view),
        valid_grid(width, height, t),
        view.max.x - view.min.x >= t,
        view.max.y - view.min.y >= t,
    ensures
        planned_tiles(view, width, height, t).no_duplicates(),
{
    let ps = planned_tiles(view, width, height, t);
    let ex = view.max.x - view.min.x;
    let ey = view.max.y - view.min.y;
    assert forall|i: int, j: int| 0 <= i < ps.len() && 0 <= j < ps.len() && i != j implies ps[i]
        != ps[j] by {
        vstd::arithmetic::div_mod::lemma_fundamental_div_mod(i, t);
        vstd::arithmetic::div_mod::lemma_fundamental_div_mod(j, t);
        vstd::arithmetic::div_mod::lemma_mod_pos_bound(i, t);
        vstd::arithmetic::div_mod::lemma_mod_pos_bound(j, t);
        lemma_div_pos_is_pos(i, t);
        lemma_div_pos_is_pos(j, t);
        assert(i / t < t && j / t < t) by {
            vstd::arithmetic::div_mod::lemma_div_is_ordered(i, t * t - 1, t);
            vstd::arithmetic::div_mod::lemma_div_is_ordered(j, t * t - 1, t);
            assert(t * t - 1 == (t - 1) * t + (t - 1)) by (nonlinear_arith);
            lemma_fundamental_div_mod_converse(t * t - 1, t, t - 1, t - 1);
        }
        if i % t != j % t {
            let (a, b) = if i % t < j % t { (i % t, j % t) } else { (j % t, i % t) };
            lemma_cut_strict(view.min.x as int, ex, a, b, t);
            lemma_cut_bounds(view.min.x as int, ex, a, t);
            lemma_cut_bounds(view.min.x as int, ex, b, t);
        } else {
            assert(i / t != j / t);
            let (a, b) = if i / t < j / t { (i / t, j / t) } else { (j / t, i / t) };
            lemma_cut_strict(view.min.y as int, ey, a, b, t);
            lemma_cut_bounds(view.min.y as int, ey, a, t);
            lemma_cut_bounds(view.min.y as int, ey, b, t);
        }
    }
}

} // verus!
