//! Color types and the perceptual color space.
//!
//! Colors enter the pipeline as gamma-encoded 8-bit RGB triples and are
//! converted once to a perceptually uniform, Lab-like space in which all
//! clustering and nearest-color searches happen.  The whole space is fixed
//! point: a channel is an `i32` holding the Lab value scaled by 100, so the
//! conversion and the distance function are exact integer functions and the
//! distance satisfies symmetry and the small-is-similar ordering the
//! pipeline needs (it is a squared Euclidean distance, not a strict metric).

use vstd::prelude::*;

verus! {

/// A gamma-encoded 8-bit RGB triple.
#[derive(Clone, Copy, Debug, PartialEq, Eq, Structural, Hash)]
pub struct Rgb8 {
    pub r: u8,
    pub g: u8,
    pub b: u8,
}

/// A color in the perceptual space: Lab-like channels scaled by 100.
#[derive(Clone, Copy, Debug, PartialEq, Eq, Structural, Hash)]
pub struct PColor {
    pub l: i32,
    pub a: i32,
    pub b: i32,
}

/// Every channel a conversion or an average can produce stays inside this
/// bound; it is what keeps all distance arithmetic inside `u64`.
pub const PC_BOUND: i32 = 50000;

/// Largest value `dist_spec` can take on two well-formed colors:
/// `3 * (2 * PC_BOUND)^2`.
pub const PC_DIST_MAX: u64 = 30_000_000_000;

/// Well-formedness of a perceptual color: channels within `PC_BOUND`.
pub open spec fn pc_wf(c: PColor) -> bool {
    &&& -(PC_BOUND as int) <= c.l <= PC_BOUND as int
    &&& -(PC_BOUND as int) <= c.a <= PC_BOUND as int
    &&& -(PC_BOUND as int) <= c.b <= PC_BOUND as int
}

pub open spec fn all_wf(s: Seq<PColor>) -> bool {
    forall|i: int| 0 <= i < s.len() ==> pc_wf(s[i])
}

/// Squared Euclidean distance between two perceptual colors.
pub open spec fn dist_spec(x: PColor, y: PColor) -> int {
    (x.l - y.l) * (x.l - y.l) + (x.a - y.a) * (x.a - y.a) + (x.b - y.b) * (x.b - y.b)
}

/// The perceptual distance is symmetric.
pub proof fn lemma_dist_symmetric(x: PColor, y: PColor)
    ensures
        dist_spec(x, y) == dist_spec(y, x),
{
    assert((x.l - y.l) * (x.l - y.l) == (y.l - x.l) * (y.l - x.l)) by (nonlinear_arith);
    assert((x.a - y.a) * (x.a - y.a) == (y.a - x.a) * (y.a - x.a)) by (nonlinear_arith);
    assert((x.b - y.b) * (x.b - y.b) == (y.b - x.b) * (y.b - x.b)) by (nonlinear_arith);
}

/// The perceptual distance is non-negative, zero exactly on equal colors,
/// and bounded on well-formed colors.
pub proof fn lemma_dist_bounds(x: PColor, y: PColor)
    requires
        pc_wf(x),
        pc_wf(y),
    ensures
        0 <= dist_spec(x, y) <= PC_DIST_MAX,
        dist_spec(x, y) == 0 <==> x == y,
{
    lemma_sq_bound(x.l - y.l, 100000);
    lemma_sq_bound(x.a - y.a, 100000);
    lemma_sq_bound(x.b - y.b, 100000);
    if dist_spec(x, y) == 0 {
        assert(x.l == y.l && x.a == y.a && x.b == y.b);
    }
}

proof fn lemma_sq_bound(d: int, m: int)
    requires
        -m <= d <= m,
        0 <= m,
    ensures
        0 <= d * d <= m * m,
        d * d == 0 <==> d == 0,
{
    assert(0 <= d * d <= m * m && (d * d == 0 <==> d == 0)) by (nonlinear_arith)
        requires
            -m <= d <= m,
            0 <= m,
    ;
}

/// Executable form of `dist_spec`.
pub fn perc_dist(x: &PColor, y: &PColor) -> (d: u64)
    requires
        pc_wf(*x),
        pc_wf(*y),
    ensures
        d == dist_spec(*x, *y),
        d <= PC_DIST_MAX,
{
    proof {
        lemma_dist_bounds(*x, *y);
    }
    let dl: i64 = x.l as i64 - y.l as i64;
    let da: i64 = x.a as i64 - y.a as i64;
    let db: i64 = x.b as i64 - y.b as i64;
    proof {
        lemma_sq_bound(dl as int, 100000);
        lemma_sq_bound(da as int, 100000);
        lemma_sq_bound(db as int, 100000);
    }
    (dl * dl + da * da + db * db) as u64
}

/// Cube of an integer, the shape the fixed-point cube root is specified in.
pub open spec fn lab_cube(r: int) -> int {
    r * r * r
}

/// Largest `r` in `0..=k` with `r^3 * 2^20 <= q * 4096^3`, i.e. the
/// fixed-point cube root of the ratio `q / 2^20`, scaled by 4096.
pub open spec fn cbrt_q_max(q: int, k: int) -> int
    decreases k,
{
    if k <= 0 {
        0
    } else if lab_cube(k) * 1048576 <= q * 68719476736 {
        k
    } else {
        cbrt_q_max(q, k - 1)
    }
}

/// The Lab channel nonlinearity on a ratio scaled by 2^20, returning a
/// value scaled by 4096: a cube root above the usual Lab threshold and the
/// linear segment `841/108 * q + 4/29` below it.
pub open spec fn lab_f_q(q: int) -> int {
    if q > 9287 {
        cbrt_q_max(q, 4096)
    } else {
        q * 3444736 / 113246208 + 564
    }
}

/// Gamma expansion of an 8-bit channel, approximated by squaring.
pub open spec fn lin_of(c: int) -> int {
    c * c
}

/// The full conversion from gamma-encoded RGB to the fixed-point perceptual
/// space: gamma expansion, a D65 RGB-to-XYZ matrix scaled by 10000,
/// white-point normalization to a 2^20-scaled ratio, the Lab nonlinearity,
/// and the L/a/b combinations scaled by 100.
pub open spec fn perc_of_rgb_spec(c: Rgb8) -> PColor {
    let lr = lin_of(c.r as int);
    let lg = lin_of(c.g as int);
    let lb = lin_of(c.b as int);
    let xq = (4124 * lr + 3576 * lg + 1805 * lb) * 1048576 / 618062625;
    let yq = (2126 * lr + 7152 * lg + 722 * lb) * 1048576 / 650250000;
    let zq = (193 * lr + 1192 * lg + 9505 * lb) * 1048576 / 708122250;
    let fx = lab_f_q(xq);
    let fy = lab_f_q(yq);
    let fz = lab_f_q(zq);
    PColor {
        l: (fy * 11600 / 4096 - 1600) as i32,
        a: (fx * 50000 / 4096 - fy * 50000 / 4096) as i32,
        b: (fy * 20000 / 4096 - fz * 20000 / 4096) as i32,
    }
}

proof fn lemma_cube_mono(a: int, b: int)
    requires
        0 <= a <= b,
    ensures
        lab_cube(a) <= lab_cube(b),
{
    assert(a * a * a <= b * b * b) by (nonlinear_arith)
        requires
            0 <= a <= b,
    ;
}

proof fn lemma_cbrt_q_max_eq(q: int, r: int, k: int)
    requires
        0 <= r <= k,
        lab_cube(r) * 1048576 <= q * 68719476736,
        forall|j: int| r < j <= k ==> lab_cube(j) * 1048576 > q * 68719476736,
    ensures
        cbrt_q_max(q, k) == r,
    decreases k,
{
    if k == r {
        if k == 0 {
        } else {
        }
    } else {
        assert(lab_cube(k) * 1048576 > q * 68719476736);
        lemma_cbrt_q_max_eq(q, r, k - 1);
    }
}

proof fn lemma_cbrt_from_bracket(q: int, r: int)
    requires
        0 <= q,
        0 <= r <= 4096,
        lab_cube(r) * 1048576 <= q * 68719476736,
        lab_cube(r + 1) * 1048576 > q * 68719476736,
    ensures
        cbrt_q_max(q, 4096) == r,
{
    assert forall|j: int| r < j <= 4096 implies lab_cube(j) * 1048576 > q * 68719476736 by {
        lemma_cube_mono(r + 1, j);
        assert(lab_cube(r + 1) * 1048576 <= lab_cube(j) * 1048576);
    };
    lemma_cbrt_q_max_eq(q, r, 4096);
}

/// Binary search for the fixed-point cube root.
fn cbrt_fixed(q: u64) -> (r: u64)
    requires
        q <= 1048576,
    ensures
        r <= 4096,
        r == cbrt_q_max(q as int, 4096),
{
    let mut lo: u64 = 0;
    let mut hi: u64 = 4096;
    proof {
        assert(lab_cube(4097) == 4097 * 4097 * 4097) by (nonlinear_arith);
        assert(lab_cube(4097) * 1048576 > 1048576 * 68719476736);
    }
    while lo < hi
        invariant
            lo <= hi <= 4096,
            q <= 1048576,
            lab_cube(lo as int) * 1048576 <= q * 68719476736,
            lab_cube(hi as int + 1) * 1048576 > q * 68719476736,
        decreases hi - lo,
    {
        let mid = (lo + hi + 1) / 2;
        proof {
            assert(mid * mid <= 4096 * 4096 && mid * mid * mid <= 4096 * 4096 * 4096)
                by (nonlinear_arith)
                requires
                    mid <= 4096,
            ;
            assert(0 <= mid * mid * mid) by (nonlinear_arith);
        }
        let cb = mid * mid * mid;
        assert(cb == lab_cube(mid as int));
        if cb * 1048576 <= q * 68719476736 {
            lo = mid;
        } else {
            hi = mid - 1;
        }
    }
    proof {
        lemma_cbrt_from_bracket(q as int, lo as int);
    }
    lo
}

/// The Lab nonlinearity, executable form of `lab_f_q`.
fn lab_f_fixed(q: u64) -> (f: u64)
    requires
        q <= 1048576,
    ensures
        f == lab_f_q(q as int),
        f <= 4096,
{
    if q > 9287 {
        cbrt_fixed(q)
    } else {
        proof {
            vstd::arithmetic::div_mod::lemma_div_is_ordered(
                q as int * 3444736,
                9287int * 3444736,
                113246208,
            );
            assert(9287 * 3444736 / 113246208 == 282);
        }
        q * 3444736 / 113246208 + 564
    }
}

/// Converts a gamma-encoded RGB triple to the perceptual space.
pub fn rgb_to_perceptual(c: Rgb8) -> (p: PColor)
    ensures
        p == perc_of_rgb_spec(c),
        pc_wf(p),
{
    proof {
        assert((c.r as int) * (c.r as int) <= 65025) by (nonlinear_arith)
            requires
                c.r <= 255,
        ;
        assert((c.g as int) * (c.g as int) <= 65025) by (nonlinear_arith)
            requires
                c.g <= 255,
        ;
        assert((c.b as int) * (c.b as int) <= 65025) by (nonlinear_arith)
            requires
                c.b <= 255,
        ;
        assert(0 <= (c.r as int) * (c.r as int)) by (nonlinear_arith);
        assert(0 <= (c.g as int) * (c.g as int)) by (nonlinear_arith);
        assert(0 <= (c.b as int) * (c.b as int)) by (nonlinear_arith);
    }
    let lr: u64 = (c.r as u64) * (c.r as u64);
    let lg: u64 = (c.g as u64) * (c.g as u64);
    let lb: u64 = (c.b as u64) * (c.b as u64);
    let xw: u64 = 4124 * lr + 3576 * lg + 1805 * lb;
    let yw: u64 = 2126 * lr + 7152 * lg + 722 * lb;
    let zw: u64 = 193 * lr + 1192 * lg + 9505 * lb;
    proof {
        vstd::arithmetic::div_mod::lemma_div_is_ordered(
            xw as int * 1048576,
            618062625int * 1048576,
            618062625,
        );
        vstd::arithmetic::div_mod::lemma_div_multiples_vanish(1048576, 618062625);
        vstd::arithmetic::div_mod::lemma_div_is_ordered(
            yw as int * 1048576,
            650250000int * 1048576,
            650250000,
        );
        vstd::arithmetic::div_mod::lemma_div_multiples_vanish(1048576, 650250000);
        vstd::arithmetic::div_mod::lemma_div_is_ordered(
            zw as int * 1048576,
            708122250int * 1048576,
            708122250,
        );
        vstd::arithmetic::div_mod::lemma_div_multiples_vanish(1048576, 708122250);
    }
    let xq: u64 = xw * 1048576 / 618062625;
    let yq: u64 = yw * 1048576 / 650250000;
    let zq: u64 = zw * 1048576 / 708122250;
    let fx = lab_f_fixed(xq);
    let fy = lab_f_fixed(yq);
    let fz = lab_f_fixed(zq);
    let l64: i64 = (fy * 11600 / 4096) as i64 - 1600;
    let a64: i64 = (fx * 50000 / 4096) as i64 - (fy * 50000 / 4096) as i64;
    let b64: i64 = (fy * 20000 / 4096) as i64 - (fz * 20000 / 4096) as i64;
    PColor { l: l64 as i32, a: a64 as i32, b: b64 as i32 }
}

/// Whether slot `k` holds a nearest color to `x` among `cands`, with ties
/// broken by the lowest index.
pub open spec fn is_nearest(cands: Seq<PColor>, x: PColor, k: int) -> bool {
    &&& 0 <= k < cands.len()
    &&& forall|j: int| 0 <= j < cands.len() ==> dist_spec(x, cands[k]) <= dist_spec(x, cands[j])
    &&& forall|j: int| 0 <= j < k ==> dist_spec(x, cands[j]) > dist_spec(x, cands[k])
}

/// Largest `s` in `0..=k` with `s^2 <= lin`: the integer square root used
/// to undo the gamma approximation.
pub open spec fn sqrt_max(lin: int, k: int) -> int
    decreases k,
{
    if k <= 0 {
        0
    } else if k * k <= lin {
        k
    } else {
        sqrt_max(lin, k - 1)
    }
}

/// Inverse of the Lab nonlinearity: ratio (scaled by 2^20) from a channel
/// value scaled by 4096.
pub open spec fn lab_f_inv_q(f: int) -> int {
    if f > 847 {
        f * f * f * 1048576 / 68719476736
    } else {
        let d = if f >= 564 {
            f - 564
        } else {
            0
        };
        d * 113246208 / 3444736
    }
}

/// Clamps a channel value into the working range of the nonlinearity.
pub open spec fn clamp_f(v: int) -> int {
    if v < 0 {
        0
    } else if v > 4096 {
        4096
    } else {
        v
    }
}

/// Undoes the inverse-matrix scaling and clamps to the linear range.
pub open spec fn clamp_lin(v: int) -> int {
    if v <= 0 {
        0
    } else if v / 100000000 > 65025 {
        65025
    } else {
        v / 100000000
    }
}

/// The conversion back from the perceptual space to a gamma-encoded RGB
/// triple: undo the L/a/b combinations, the nonlinearity, the white-point
/// normalization and the XYZ matrix, clamp to the displayable range, and
/// take the square root for gamma.  The round trip is close but not
/// required to be exact.
pub open spec fn rgb_of_perc_spec(p: PColor) -> Rgb8 {
    let fy = if p.l + 1600 <= 0 {
        0
    } else {
        clamp_f((p.l + 1600) * 4096 / 11600)
    };
    let adelta = (p.a + 50000) * 4096 / 50000 - 4096;
    let bdelta = (p.b + 50000) * 4096 / 20000 - 10240;
    let fx = clamp_f(fy + adelta);
    let fz = clamp_f(fy - bdelta);
    let xq = lab_f_inv_q(fx);
    let yq = lab_f_inv_q(fy);
    let zq = lab_f_inv_q(fz);
    let xw = xq * 618062625 / 1048576;
    let yw = yq * 650250000 / 1048576;
    let zw = zq * 708122250 / 1048576;
    let lr = clamp_lin(32406 * xw - 15372 * yw - 4986 * zw);
    let lg = clamp_lin(-9689 * xw + 18758 * yw + 415 * zw);
    let lb = clamp_lin(557 * xw - 2040 * yw + 10570 * zw);
    Rgb8 {
        r: sqrt_max(lr, 255) as u8,
        g: sqrt_max(lg, 255) as u8,
        b: sqrt_max(lb, 255) as u8,
    }
}

proof fn lemma_lab_f_inv_bound(f: int)
    requires
        0 <= f <= 4096,
    ensures
        0 <= lab_f_inv_q(f) <= 1048576,
{
    if f > 847 {
        assert(0 <= f * f * f <= 68719476736) by (nonlinear_arith)
            requires
                0 <= f <= 4096,
        ;
        vstd::arithmetic::div_mod::lemma_multiply_divide_le(
            f * f * f * 1048576,
            68719476736,
            1048576,
        );
        vstd::arithmetic::div_mod::lemma_div_pos_is_pos(f * f * f * 1048576, 68719476736);
    } else {
        let d = if f >= 564 {
            f - 564
        } else {
            0
        };
        vstd::arithmetic::div_mod::lemma_multiply_divide_le(d * 113246208, 3444736, 1048576);
        vstd::arithmetic::div_mod::lemma_div_pos_is_pos(d * 113246208, 3444736);
    }
}

/// Square of a small value.
fn small_square(s: u64) -> (r: u64)
    requires
        s <= 255,
    ensures
        r == s * s,
{
    proof {
        assert(s * s <= 65025) by (nonlinear_arith)
            requires
                s <= 255,
        ;
    }
    s * s
}

/// Integer square root by downward scan, the executable `sqrt_max`.
fn sqrt_fixed(lin: u64) -> (s: u64)
    requires
        lin <= 65025,
    ensures
        s <= 255,
        s == sqrt_max(lin as int, 255),
{
    let mut s: u64 = 255;
    while s > 0 && small_square(s) > lin
        invariant
            s <= 255,
            sqrt_max(lin as int, 255) == sqrt_max(lin as int, s as int),
        decreases s,
    {
        s -= 1;
    }
    s
}

/// Converts a perceptual color back to gamma-encoded RGB.
#[verifier::rlimit(80)]
pub fn perceptual_to_rgb(p: PColor) -> (c: Rgb8)
    requires
        pc_wf(p),
    ensures
        c == rgb_of_perc_spec(p),
{
    let fy64: i64 = if p.l as i64 + 1600 <= 0 {
        0
    } else {
        let v = (p.l as i64 + 1600) * 4096 / 11600;
        if v > 4096 {
            4096
        } else {
            v
        }
    };
    let adelta: i64 = (p.a as i64 + 50000) * 4096 / 50000 - 4096;
    let bdelta: i64 = (p.b as i64 + 50000) * 4096 / 20000 - 10240;
    let fx64: i64 = {
        let v = fy64 + adelta;
        if v < 0 {
            0
        } else if v > 4096 {
            4096
        } else {
            v
        }
    };
    let fz64: i64 = {
        let v = fy64 - bdelta;
        if v < 0 {
            0
        } else if v > 4096 {
            4096
        } else {
            v
        }
    };
    proof {
        lemma_lab_f_inv_bound(fx64 as int);
        lemma_lab_f_inv_bound(fy64 as int);
        lemma_lab_f_inv_bound(fz64 as int);
    }
    let xq = lab_f_inv_fixed(fx64 as u64);
    let yq = lab_f_inv_fixed(fy64 as u64);
    let zq = lab_f_inv_fixed(fz64 as u64);
    let xw: i64 = (xq * 618062625 / 1048576) as i64;
    let yw: i64 = (yq * 650250000 / 1048576) as i64;
    let zw: i64 = (zq * 708122250 / 1048576) as i64;
    proof {
        vstd::arithmetic::div_mod::lemma_div_is_ordered(
            xq as int * 618062625,
            1048576int * 618062625,
            1048576,
        );
        vstd::arithmetic::div_mod::lemma_div_multiples_vanish(618062625, 1048576);
        vstd::arithmetic::div_mod::lemma_div_is_ordered(
            yq as int * 650250000,
            1048576int * 650250000,
            1048576,
        );
        vstd::arithmetic::div_mod::lemma_div_multiples_vanish(650250000, 1048576);
        vstd::arithmetic::div_mod::lemma_div_is_ordered(
            zq as int * 708122250,
            1048576int * 708122250,
            1048576,
        );
        vstd::arithmetic::div_mod::lemma_div_multiples_vanish(708122250, 1048576);
    }
    let lr = clamp_lin_fixed(32406 * xw - 15372 * yw - 4986 * zw);
    let lg = clamp_lin_fixed(-9689 * xw + 18758 * yw + 415 * zw);
    let lb = clamp_lin_fixed(557 * xw - 2040 * yw + 10570 * zw);
    Rgb8 {
        r: sqrt_fixed(lr) as u8,
        g: sqrt_fixed(lg) as u8,
        b: sqrt_fixed(lb) as u8,
    }
}

/// Executable inverse nonlinearity.
fn lab_f_inv_fixed(f: u64) -> (q: u64)
    requires
        f <= 4096,
    ensures
        q == lab_f_inv_q(f as int),
        q <= 1048576,
{
    proof {
        lemma_lab_f_inv_bound(f as int);
        assert(0 <= f * f * f <= 68719476736) by (nonlinear_arith)
            requires
                0 <= f <= 4096,
        ;
        assert(f * f <= 4096 * 4096) by (nonlinear_arith)
            requires
                f <= 4096,
        ;
    }
    if f > 847 {
        f * f * f * 1048576 / 68719476736
    } else {
        let d = if f >= 564 {
            f - 564
        } else {
            0
        };
        d * 113246208 / 3444736
    }
}

/// Executable `clamp_lin`.
fn clamp_lin_fixed(v: i64) -> (r: u64)
    ensures
        r == clamp_lin(v as int),
        r <= 65025,
{
    if v <= 0 {
        0
    } else {
        let d = v as u64 / 100000000;
        if d > 65025 {
            65025
        } else {
            d
        }
    }
}

/// Index of the nearest color to `x` among the first `n` candidates, with
/// ties broken by the lowest index.
pub open spec fn nearest_idx_upto(cands: Seq<PColor>, x: PColor, n: int) -> int
    decreases n,
{
    if n <= 1 {
        0
    } else {
        let p = nearest_idx_upto(cands, x, n - 1);
        if dist_spec(x, cands[n - 1]) < dist_spec(x, cands[p]) {
            n - 1
        } else {
            p
        }
    }
}

/// Index of the nearest color to `x` among all candidates.
pub open spec fn nearest_idx(cands: Seq<PColor>, x: PColor) -> int {
    nearest_idx_upto(cands, x, cands.len() as int)
}

proof fn lemma_nearest_idx_upto_props(cands: Seq<PColor>, x: PColor, n: int)
    requires
        1 <= n <= cands.len(),
    ensures
        0 <= nearest_idx_upto(cands, x, n) < n,
        forall|j: int|
            0 <= j < n ==> dist_spec(x, cands[nearest_idx_upto(cands, x, n)]) <= #[trigger] dist_spec(
                x,
                cands[j],
            ),
        forall|j: int|
            0 <= j < nearest_idx_upto(cands, x, n) ==> #[trigger] dist_spec(x, cands[j]) > dist_spec(
                x,
                cands[nearest_idx_upto(cands, x, n)],
            ),
    decreases n,
{
    if n > 1 {
        lemma_nearest_idx_upto_props(cands, x, n - 1);
    }
}

/// The deterministic nearest index really is a nearest candidate.
pub proof fn lemma_nearest_idx_is_nearest(cands: Seq<PColor>, x: PColor)
    requires
        cands.len() >= 1,
    ensures
        is_nearest(cands, x, nearest_idx(cands, x)),
{
    lemma_nearest_idx_upto_props(cands, x, cands.len() as int);
}

/// Linear scan for the nearest candidate; ties go to the lowest index.
pub fn nearest_color(cands: &Vec<PColor>, x: &PColor) -> (res: (usize, u64))
    requires
        cands@.len() >= 1,
        all_wf(cands@),
        pc_wf(*x),
    ensures
        res.0 as int == nearest_idx(cands@, *x),
        is_nearest(cands@, *x, res.0 as int),
        res.1 == dist_spec(*x, cands@[res.0 as int]),
{
    let mut best: usize = 0;
    let mut best_d: u64 = perc_dist(x, &cands[0]);
    let mut i: usize = 1;
    while i < cands.len()
        invariant
            1 <= i <= cands@.len(),
            best < i,
            all_wf(cands@),
            pc_wf(*x),
            best as int == nearest_idx_upto(cands@, *x, i as int),
            best_d == dist_spec(*x, cands@[best as int]),
            forall|j: int| 0 <= j < i ==> dist_spec(*x, cands@[best as int]) <= dist_spec(*x, cands@[j]),
            forall|j: int| 0 <= j < best ==> dist_spec(*x, cands@[j]) > dist_spec(*x, cands@[best as int]),
        decreases cands@.len() - i,
    {
        let d = perc_dist(x, &cands[i]);
        if d < best_d {
            best = i;
            best_d = d;
        }
        i += 1;
    }
    (best, best_d)
}

} // verus!
