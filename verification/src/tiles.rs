//! TileAdjacencyAnalyzer: partitions the image into 8x8 tiles, records
//! which palette slots occur in each tile, and counts, for every unordered
//! pair of foreground slots, how many tiles contain both.
//!
//! Tiles are numbered row-major: pixel `i` of a `w`-wide image belongs to
//! tile `(i / w / 8) * (w / 8) + (i % w) / 8`.  The per-tile slot table is
//! a flat boolean vector with 13 flags per tile, and the adjacency graph a
//! flat 13x13 count matrix; a missing pair simply counts zero.

use vstd::prelude::*;

use vstd::arithmetic::div_mod::{
    lemma_fundamental_div_mod, lemma_multiply_divide_lt,
};
use vstd::arithmetic::mul::{lemma_mul_inequality, lemma_mul_upper_bound};

verus! {

/// Tile number of pixel `i` in a `w`-wide image.
pub open spec fn tile_of_pixel(i: int, w: int) -> int {
    (i / w / 8) * (w / 8) + (i % w) / 8
}

/// Whether some pixel among the first `n` lies in tile `t` and carries
/// palette slot `c`.
pub open spec fn tile_has_color_upto(assign: Seq<u8>, w: int, t: int, c: int, n: int) -> bool {
    exists|i: int| 0 <= i < n && tile_of_pixel(i, w) == t && assign[i] == c
}

/// Whether any pixel of tile `t` carries palette slot `c`.
pub open spec fn tile_has_color(assign: Seq<u8>, w: int, t: int, c: int) -> bool {
    tile_has_color_upto(assign, w, t, c, assign.len() as int)
}

/// Number of tiles among the first `t` that contain both slot `a` and
/// slot `b`; `sets` is the flat per-tile slot table.
pub open spec fn pair_count_upto(sets: Seq<bool>, a: int, b: int, t: int) -> int
    decreases t,
{
    if t <= 0 {
        0
    } else {
        pair_count_upto(sets, a, b, t - 1) + if sets[(t - 1) * 13 + a] && sets[(t - 1) * 13 + b] {
            1int
        } else {
            0int
        }
    }
}

/// The tile grid fits and every tile is whole.
pub open spec fn grid_wf(w: int, h: int) -> bool {
    &&& w >= 8
    &&& h >= 8
    &&& w % 8 == 0
    &&& h % 8 == 0
}

/// Tile numbers of in-bounds pixels are in bounds.
pub proof fn lemma_tile_bounds(i: int, w: int, h: int)
    requires
        grid_wf(w, h),
        0 <= i < w * h,
    ensures
        0 <= tile_of_pixel(i, w) < (w / 8) * (h / 8),
{
    let y = i / w;
    let x = i % w;
    let yt = y / 8;
    let xt = x / 8;
    let tx = w / 8;
    let ty = h / 8;
    lemma_multiply_divide_lt(i, w, h);
    lemma_fundamental_div_mod(h, 8);
    lemma_fundamental_div_mod(w, 8);
    assert(y < 8 * ty);
    lemma_multiply_divide_lt(y, 8, ty);
    assert(x < 8 * tx);
    lemma_multiply_divide_lt(x, 8, tx);
    lemma_mul_inequality(yt, ty - 1, tx);
    assert(yt * tx >= 0) by (nonlinear_arith)
        requires
            yt >= 0,
            tx >= 0,
    ;
    assert((ty - 1) * tx == ty * tx - tx) by (nonlinear_arith);
    assert(ty * tx == tx * ty) by (nonlinear_arith);
}

/// The whole grid is no larger than the image.
pub proof fn lemma_grid_le(w: int, h: int)
    requires
        grid_wf(w, h),
    ensures
        0 < (w / 8) * (h / 8) <= w * h,
{
    lemma_fundamental_div_mod(w, 8);
    lemma_fundamental_div_mod(h, 8);
    lemma_mul_upper_bound(w / 8, w, h / 8, h);
    assert(0 < (w / 8) * (h / 8)) by (nonlinear_arith)
        requires
            w / 8 >= 1,
            h / 8 >= 1,
    ;
}

proof fn lemma_flat_index_injective(t1: int, c1: int, t2: int, c2: int)
    requires
        0 <= c1 < 13,
        0 <= c2 < 13,
        t1 * 13 + c1 == t2 * 13 + c2,
    ensures
        t1 == t2 && c1 == c2,
{
    assert(t1 == t2 && c1 == c2) by (nonlinear_arith)
        requires
            0 <= c1 < 13,
            0 <= c2 < 13,
            t1 * 13 + c1 == t2 * 13 + c2,
    ;
}

/// Computes, for every tile, the set of palette slots appearing among its
/// 64 pixels, as a flat table of 13 flags per tile.
pub fn build_tile_sets(assign: &Vec<u8>, w: usize, h: usize) -> (sets: Vec<bool>)
    requires
        grid_wf(w as int, h as int),
        assign@.len() == w * h,
        13 * (w * h) <= usize::MAX,
        forall|i: int| 0 <= i < assign@.len() ==> (#[trigger] assign@[i]) < 13,
    ensures
        sets@.len() == ((w / 8) * (h / 8)) * 13,
        forall|t: int, c: int|
            0 <= t < (w as int / 8) * (h as int / 8) && 0 <= c < 13 ==> ((#[trigger] sets@[t * 13
                + c]) <==> tile_has_color(assign@, w as int, t, c)),
{
    proof {
        lemma_grid_le(w as int, h as int);
    }
    let tx = w / 8;
    let ty = h / 8;
    let n_tiles = tx * ty;
    let mut sets: Vec<bool> = Vec::new();
    let mut k: usize = 0;
    proof {
        assert(n_tiles * 13 <= w * h * 13) by (nonlinear_arith)
            requires
                n_tiles <= w * h,
                n_tiles >= 0,
        ;
    }
    while k < n_tiles * 13
        invariant
            sets@.len() == k,
            k <= n_tiles * 13,
            n_tiles * 13 <= usize::MAX,
            forall|j: int| 0 <= j < k ==> !(#[trigger] sets@[j]),
        decreases n_tiles * 13 - k,
    {
        sets.push(false);
        k += 1;
    }
    let mut i: usize = 0;
    while i < assign.len()
        invariant
            i <= assign@.len(),
            assign@.len() == w * h,
            grid_wf(w as int, h as int),
            tx == w / 8,
            ty == h / 8,
            n_tiles == tx * ty,
            n_tiles * 13 <= usize::MAX,
            forall|p: int| 0 <= p < assign@.len() ==> (#[trigger] assign@[p]) < 13,
            sets@.len() == n_tiles * 13,
            forall|t: int, c: int|
                0 <= t < n_tiles && 0 <= c < 13 ==> ((#[trigger] sets@[t * 13 + c])
                    <==> tile_has_color_upto(assign@, w as int, t, c, i as int)),
        decreases assign@.len() - i,
    {
        proof {
            lemma_tile_bounds(i as int, w as int, h as int);
        }
        let y = i / w;
        let x = i % w;
        let t = (y / 8) * tx + x / 8;
        let c = assign[i] as usize;
        proof {
            assert(t * 13 + c < n_tiles * 13) by (nonlinear_arith)
                requires
                    0 <= t,
                    t < n_tiles,
                    0 <= c < 13,
            ;
        }
        let ghost old_sets = sets@;
        sets[t * 13 + c] = true;
        proof {
            assert forall|t2: int, c2: int|
                0 <= t2 < n_tiles && 0 <= c2 < 13 implies ((#[trigger] sets@[t2 * 13 + c2])
                <==> tile_has_color_upto(assign@, w as int, t2, c2, i + 1)) by {
                assert(0 <= t2 * 13 + c2 < n_tiles * 13) by (nonlinear_arith)
                    requires
                        0 <= t2 < n_tiles,
                        0 <= c2 < 13,
                        n_tiles >= 0,
                ;
                if t2 * 13 + c2 == t * 13 + c {
                    lemma_flat_index_injective(t2, c2, t as int, c as int);
                    assert(tile_of_pixel(i as int, w as int) == t2 && assign@[i as int] == c2);
                    assert(tile_has_color_upto(assign@, w as int, t2, c2, i + 1));
                } else {
                    assert(sets@[t2 * 13 + c2] == old_sets[t2 * 13 + c2]);
                    if sets@[t2 * 13 + c2] {
                        assert(tile_has_color_upto(assign@, w as int, t2, c2, i as int));
                        assert(tile_has_color_upto(assign@, w as int, t2, c2, i + 1));
                    }
                    if tile_has_color_upto(assign@, w as int, t2, c2, i + 1) {
                        let p = choose|p: int|
                            0 <= p < i + 1 && tile_of_pixel(p, w as int) == t2 && assign@[p] == c2;
                        if p == i {
                            assert(t2 == t && c2 == c);
                        } else {
                            assert(tile_has_color_upto(assign@, w as int, t2, c2, i as int));
                        }
                    }
                }
            };
        }
        i += 1;
    }
    sets
}

/// Number of tiles containing both `a` and `b`.
fn count_pair(sets: &Vec<bool>, n_tiles: usize, a: usize, b: usize) -> (cnt: u64)
    requires
        sets@.len() == n_tiles * 13,
        a < 13,
        b < 13,
        n_tiles <= u64::MAX,
    ensures
        cnt == pair_count_upto(sets@, a as int, b as int, n_tiles as int),
{
    let total = sets.len();
    let mut cnt: u64 = 0;
    let mut t: usize = 0;
    while t < n_tiles
        invariant
            t <= n_tiles,
            total == n_tiles * 13,
            sets@.len() == n_tiles * 13,
            a < 13,
            b < 13,
            n_tiles <= u64::MAX,
            cnt <= t,
            cnt == pair_count_upto(sets@, a as int, b as int, t as int),
        decreases n_tiles - t,
    {
        proof {
            assert(t * 13 + 12 < n_tiles * 13) by (nonlinear_arith)
                requires
                    0 <= t,
                    t < n_tiles,
            ;
            assert(t * 13 >= 0) by (nonlinear_arith)
                requires
                    t >= 0,
            ;
        }
        if sets[t * 13 + a] && sets[t * 13 + b] {
            cnt += 1;
        }
        t += 1;
    }
    cnt
}

/// What the adjacency matrix holds at row `a`, column `b`: the
/// co-occurrence count for distinct foreground slots, zero elsewhere
/// (the diagonal and the background row and column are unused).
pub open spec fn adj_entry_spec(sets: Seq<bool>, n_tiles: int, a: int, b: int) -> int {
    if 1 <= a < 13 && 1 <= b < 13 && a != b {
        pair_count_upto(sets, a, b, n_tiles)
    } else {
        0
    }
}

/// Builds the flat 13x13 co-occurrence matrix over the foreground slots.
pub fn build_adjacency(sets: &Vec<bool>, n_tiles: usize) -> (adj: Vec<u64>)
    requires
        sets@.len() == n_tiles * 13,
        n_tiles <= u64::MAX,
    ensures
        adj@.len() == 169,
        forall|a: int, b: int|
            0 <= a < 13 && 0 <= b < 13 ==> (#[trigger] adj@[a * 13 + b]) == adj_entry_spec(
                sets@,
                n_tiles as int,
                a,
                b,
            ),
{
    let mut adj: Vec<u64> = Vec::new();
    let mut a: usize = 0;
    while a < 13
        invariant
            a <= 13,
            sets@.len() == n_tiles * 13,
            n_tiles <= u64::MAX,
            adj@.len() == a * 13,
            forall|a2: int, b2: int|
                0 <= a2 < a && 0 <= b2 < 13 ==> (#[trigger] adj@[a2 * 13 + b2]) == adj_entry_spec(
                    sets@,
                    n_tiles as int,
                    a2,
                    b2,
                ),
        decreases 13 - a,
    {
        let mut b: usize = 0;
        while b < 13
            invariant
                a < 13,
                b <= 13,
                sets@.len() == n_tiles * 13,
                n_tiles <= u64::MAX,
                adj@.len() == a * 13 + b,
                forall|a2: int, b2: int|
                    0 <= a2 < a && 0 <= b2 < 13 ==> (#[trigger] adj@[a2 * 13 + b2])
                        == adj_entry_spec(sets@, n_tiles as int, a2, b2),
                forall|b2: int|
                    0 <= b2 < b ==> (#[trigger] adj@[a as int * 13 + b2]) == adj_entry_spec(
                        sets@,
                        n_tiles as int,
                        a as int,
                        b2,
                    ),
            decreases 13 - b,
        {
            let v: u64 = if a >= 1 && b >= 1 && a != b {
                count_pair(sets, n_tiles, a, b)
            } else {
                0
            };
            let ghost old_adj = adj@;
            adj.push(v);
            proof {
                assert forall|a2: int, b2: int|
                    0 <= a2 < a && 0 <= b2 < 13 implies (#[trigger] adj@[a2 * 13 + b2])
                    == adj_entry_spec(sets@, n_tiles as int, a2, b2) by {
                    assert(a2 * 13 + b2 < a * 13) by (nonlinear_arith)
                        requires
                            0 <= a2 < a,
                            0 <= b2 < 13,
                    ;
                    assert(a2 * 13 + b2 >= 0) by (nonlinear_arith)
                        requires
                            a2 >= 0,
                            b2 >= 0,
                    ;
                    assert(adj@[a2 * 13 + b2] == old_adj[a2 * 13 + b2]);
                };
            }
            b += 1;
        }
        a += 1;
    }
    adj
}

/// Co-occurrence is symmetric: the matrix records the same count for
/// `(a, b)` and `(b, a)`.
pub proof fn lemma_pair_count_symmetric(sets: Seq<bool>, a: int, b: int, t: int)
    ensures
        pair_count_upto(sets, a, b, t) == pair_count_upto(sets, b, a, t),
    decreases t,
{
    if t > 0 {
        lemma_pair_count_symmetric(sets, a, b, t - 1);
    }
}

} // verus!
