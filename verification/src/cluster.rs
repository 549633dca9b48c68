//! ColorReducer: clusters all source pixels in perceptual space into 13
//! representative colors via repeated seeded clustering attempts, keeping
//! the attempt with the lowest fit score.
//!
//! Each attempt is a plain iterative refinement: seed 13 centroids from the
//! pixel data, then alternate nearest-centroid assignment and centroid
//! averaging for a bounded number of rounds.  The attempt's score is the sum
//! of the distances from every pixel to its nearest final centroid, so the
//! "keep lowest score" reduction is deterministic given the attempts.

use vstd::prelude::*;

use crate::color::{
    all_wf, dist_spec, nearest_color, nearest_idx, pc_wf, PColor, PC_BOUND, PC_DIST_MAX,
};

verus! {

/// The reduction target is always exactly 13 colors.
pub const CLUSTER_COUNT: usize = 13;

/// Number of independent clustering attempts.
pub const ATTEMPT_COUNT: usize = 5;

/// Iteration budget of a single attempt.
pub const MAX_ITERATIONS: usize = 10;

/// A deterministic pseudo-random sequence from a seed (a 64-bit mixer).
/// The clustering is seeded, not required to be deterministic across runs:
/// the caller picks the seed.
pub struct SeededRng {
    pub state: u64,
}

/// State advance: add the mixing increment modulo 2^64.
pub open spec fn rng_advance(s: u64) -> u64 {
    ((s as int + 0x9E3779B97F4A7C15) % 0x10000000000000000) as u64
}

/// Output derived from the advanced state by two xor-shift-multiply rounds.
pub open spec fn rng_output(s: u64) -> u64 {
    let s1 = rng_advance(s);
    let z1 = (((s1 ^ (s1 >> 30)) as int * 0xBF58476D1CE4E5B9) % 0x10000000000000000) as u64;
    let z2 = (((z1 ^ (z1 >> 27)) as int * 0x94D049BB133111EB) % 0x10000000000000000) as u64;
    z2 ^ (z2 >> 31)
}

impl SeededRng {
    pub fn new(seed: u64) -> (r: Self)
        ensures
            r.state == seed,
    {
        SeededRng { state: seed }
    }

    /// Draws the next 64-bit value.
    pub fn next(&mut self) -> (r: u64)
        ensures
            final(self).state == rng_advance(old(self).state),
            r == rng_output(old(self).state),
    {
        let s1: u64 = ((self.state as u128 + 0x9E3779B97F4A7C15u128)
            % 0x10000000000000000u128) as u64;
        self.state = s1;
        let x1: u64 = s1 ^ (s1 >> 30);
        let z1: u64 = ((x1 as u128 * 0xBF58476D1CE4E5B9u128) % 0x10000000000000000u128) as u64;
        let x2: u64 = z1 ^ (z1 >> 27);
        let z2: u64 = ((x2 as u128 * 0x94D049BB133111EBu128) % 0x10000000000000000u128) as u64;
        z2 ^ (z2 >> 31)
    }

    /// Draws a value below `m`.
    pub fn next_below(&mut self, m: usize) -> (r: usize)
        requires
            m >= 1,
        ensures
            final(self).state == rng_advance(old(self).state),
            r == rng_output(old(self).state) as int % m as int,
            r < m,
    {
        let v = self.next();
        (v % m as u64) as usize
    }
}

/// One clustering outcome: 13 centroids, the nearest-centroid assignment of
/// every pixel, and the fit score (sum of pixel-to-centroid distances).
pub struct Clustering {
    pub centroids: Vec<PColor>,
    pub assignment: Vec<u8>,
    pub score: u128,
}

/// Fit score of a centroid set on a pixel sequence: the sum over all pixels
/// of the distance to the nearest centroid.
pub open spec fn score_spec(pixels: Seq<PColor>, cents: Seq<PColor>) -> int
    decreases pixels.len(),
{
    if pixels.len() == 0 {
        0
    } else {
        score_spec(pixels.drop_last(), cents) + dist_spec(
            pixels.last(),
            cents[nearest_idx(cents, pixels.last())],
        )
    }
}

/// A well-formed clustering of `pixels`: exactly 13 in-range centroids,
/// every pixel assigned to its nearest centroid (ties to the lowest index),
/// and the score equal to the summed assignment distances.
pub open spec fn clustering_wf(c: Clustering, pixels: Seq<PColor>) -> bool {
    &&& c.centroids@.len() == CLUSTER_COUNT
    &&& all_wf(c.centroids@)
    &&& c.assignment@.len() == pixels.len()
    &&& forall|i: int|
        0 <= i < pixels.len() ==> (#[trigger] c.assignment@[i]) < CLUSTER_COUNT as u8
    &&& forall|i: int|
        0 <= i < pixels.len() ==> (#[trigger] c.assignment@[i]) as int == nearest_idx(
            c.centroids@,
            pixels[i],
        )
    &&& c.score == score_spec(pixels, c.centroids@)
}

/// Whether `c` occurs in `chosen`.
fn contains_color(chosen: &Vec<PColor>, c: &PColor) -> (r: bool)
    ensures
        r <==> exists|i: int| 0 <= i < chosen@.len() && chosen@[i] == *c,
{
    let mut i: usize = 0;
    while i < chosen.len()
        invariant
            i <= chosen@.len(),
            forall|j: int| 0 <= j < i ==> chosen@[j] != *c,
        decreases chosen@.len() - i,
    {
        if chosen[i] == *c {
            return true;
        }
        i += 1;
    }
    false
}

/// Seeds 13 starting centroids: scanning the pixels from a random start,
/// take the first 13 distinct colors; if the image has fewer distinct
/// colors, pad with the first one found (duplicate centroids are the
/// documented degenerate case, tolerated downstream).
fn init_centroids(pixels: &Vec<PColor>, rng: &mut SeededRng) -> (cents: Vec<PColor>)
    requires
        pixels@.len() >= 1,
        all_wf(pixels@),
    ensures
        cents@.len() == CLUSTER_COUNT,
        all_wf(cents@),
{
    let n = pixels.len();
    let start = rng.next_below(n);
    let mut chosen: Vec<PColor> = Vec::new();
    let mut j: usize = 0;
    while j < n && chosen.len() < CLUSTER_COUNT
        invariant
            pixels@.len() == n,
            all_wf(pixels@),
            start < n,
            j <= n,
            chosen@.len() <= CLUSTER_COUNT,
            all_wf(chosen@),
            j >= 1 ==> chosen@.len() >= 1,
        decreases n - j,
    {
        let idx = if j >= n - start {
            j - (n - start)
        } else {
            start + j
        };
        let c = pixels[idx];
        if !contains_color(&chosen, &c) {
            chosen.push(c);
        }
        j += 1;
    }
    let pad = chosen[0];
    while chosen.len() < CLUSTER_COUNT
        invariant
            chosen@.len() <= CLUSTER_COUNT,
            all_wf(chosen@),
            chosen@.len() >= 1,
            pc_wf(pad),
        decreases CLUSTER_COUNT - chosen@.len(),
    {
        chosen.push(pad);
    }
    chosen
}

proof fn lemma_score_step(pixels: Seq<PColor>, cents: Seq<PColor>, i: int)
    requires
        0 <= i < pixels.len(),
    ensures
        score_spec(pixels.take(i + 1), cents) == score_spec(pixels.take(i), cents) + dist_spec(
            pixels[i],
            cents[nearest_idx(cents, pixels[i])],
        ),
{
    assert(pixels.take(i + 1).drop_last() =~= pixels.take(i));
    assert(pixels.take(i + 1).last() == pixels[i]);
}

/// Assigns every pixel to its nearest centroid and totals the score.
pub fn assign_pixels(pixels: &Vec<PColor>, cents: &Vec<PColor>) -> (res: (Vec<u8>, u128))
    requires
        all_wf(pixels@),
        all_wf(cents@),
        1 <= cents@.len() <= CLUSTER_COUNT,
    ensures
        res.0@.len() == pixels@.len(),
        forall|i: int|
            0 <= i < pixels@.len() ==> (#[trigger] res.0@[i]) as int == nearest_idx(
                cents@,
                pixels@[i],
            ),
        forall|i: int| 0 <= i < pixels@.len() ==> (#[trigger] res.0@[i]) < cents@.len() as u8,
        res.1 == score_spec(pixels@, cents@),
{
    let mut assign: Vec<u8> = Vec::new();
    let mut score: u128 = 0;
    let mut i: usize = 0;
    while i < pixels.len()
        invariant
            i <= pixels@.len(),
            all_wf(pixels@),
            all_wf(cents@),
            1 <= cents@.len() <= CLUSTER_COUNT,
            assign@.len() == i,
            forall|j: int|
                0 <= j < i ==> (#[trigger] assign@[j]) as int == nearest_idx(cents@, pixels@[j]),
            forall|j: int| 0 <= j < i ==> (#[trigger] assign@[j]) < cents@.len() as u8,
            score == score_spec(pixels@.take(i as int), cents@),
            score <= i * PC_DIST_MAX,
        decreases pixels@.len() - i,
    {
        let p = pixels[i];
        let (k, d) = nearest_color(cents, &p);
        proof {
            lemma_score_step(pixels@, cents@, i as int);
            crate::color::lemma_dist_bounds(p, cents@[k as int]);
        }
        assign.push(k as u8);
        score = score + d as u128;
        i += 1;
    }
    proof {
        assert(pixels@.take(pixels@.len() as int) =~= pixels@);
    }
    (assign, score)
}

/// Averages each cluster's member pixels into its new centroid; a cluster
/// with no members keeps its old centroid.
fn update_centroids(pixels: &Vec<PColor>, assign: &Vec<u8>, old_cents: &Vec<PColor>) -> (cents:
    Vec<PColor>)
    requires
        all_wf(pixels@),
        all_wf(old_cents@),
        old_cents@.len() == CLUSTER_COUNT,
        assign@.len() == pixels@.len(),
        forall|i: int| 0 <= i < assign@.len() ==> (#[trigger] assign@[i]) < CLUSTER_COUNT as u8,
    ensures
        cents@.len() == CLUSTER_COUNT,
        all_wf(cents@),
{
    // Channel sums are shifted by PC_BOUND so they stay non-negative.
    let mut sums: Vec<(u128, u128, u128)> = Vec::new();
    let mut counts: Vec<usize> = Vec::new();
    let mut k: usize = 0;
    while k < CLUSTER_COUNT
        invariant
            k <= CLUSTER_COUNT,
            sums@.len() == k,
            counts@.len() == k,
            forall|t: int| 0 <= t < k ==> sums@[t] == (0u128, 0u128, 0u128),
            forall|t: int| 0 <= t < k ==> counts@[t] == 0usize,
        decreases CLUSTER_COUNT - k,
    {
        sums.push((0, 0, 0));
        counts.push(0);
        k += 1;
    }
    let mut i: usize = 0;
    while i < pixels.len()
        invariant
            i <= pixels@.len(),
            all_wf(pixels@),
            assign@.len() == pixels@.len(),
            forall|t: int| 0 <= t < assign@.len() ==> (#[trigger] assign@[t]) < CLUSTER_COUNT as u8,
            sums@.len() == CLUSTER_COUNT,
            counts@.len() == CLUSTER_COUNT,
            forall|t: int| 0 <= t < CLUSTER_COUNT ==> (#[trigger] counts@[t]) <= i,
            forall|t: int|
                0 <= t < CLUSTER_COUNT ==> (#[trigger] sums@[t]).0 <= counts@[t] * 100000
                    && sums@[t].1 <= counts@[t] * 100000 && sums@[t].2 <= counts@[t] * 100000,
        decreases pixels@.len() - i,
    {
        let p = pixels[i];
        let c = assign[i] as usize;
        let s = sums[c];
        let cnt = counts[c];
        sums[c] = (
            s.0 + (p.l + PC_BOUND) as u128,
            s.1 + (p.a + PC_BOUND) as u128,
            s.2 + (p.b + PC_BOUND) as u128,
        );
        counts[c] = cnt + 1;
        i += 1;
    }
    let mut cents: Vec<PColor> = Vec::new();
    let mut k: usize = 0;
    while k < CLUSTER_COUNT
        invariant
            k <= CLUSTER_COUNT,
            cents@.len() == k,
            all_wf(cents@),
            all_wf(old_cents@),
            old_cents@.len() == CLUSTER_COUNT,
            sums@.len() == CLUSTER_COUNT,
            counts@.len() == CLUSTER_COUNT,
            forall|t: int|
                0 <= t < CLUSTER_COUNT ==> (#[trigger] sums@[t]).0 <= counts@[t] * 100000
                    && sums@[t].1 <= counts@[t] * 100000 && sums@[t].2 <= counts@[t] * 100000,
        decreases CLUSTER_COUNT - k,
    {
        let cnt = counts[k];
        if cnt == 0 {
            cents.push(old_cents[k]);
        } else {
            let s = sums[k];
            proof {
                lemma_shifted_avg_in_range(s.0 as int, cnt as int);
                lemma_shifted_avg_in_range(s.1 as int, cnt as int);
                lemma_shifted_avg_in_range(s.2 as int, cnt as int);
            }
            let l = (s.0 / cnt as u128) as i64 - PC_BOUND as i64;
            let a = (s.1 / cnt as u128) as i64 - PC_BOUND as i64;
            let b = (s.2 / cnt as u128) as i64 - PC_BOUND as i64;
            cents.push(PColor { l: l as i32, a: a as i32, b: b as i32 });
        }
        k += 1;
    }
    cents
}

proof fn lemma_shifted_avg_in_range(s: int, cnt: int)
    requires
        1 <= cnt,
        0 <= s <= cnt * 100000,
    ensures
        0 <= s / cnt <= 100000,
{
    vstd::arithmetic::div_mod::lemma_div_is_ordered(s, cnt * 100000, cnt);
    vstd::arithmetic::div_mod::lemma_div_multiples_vanish(100000, cnt);
    vstd::arithmetic::div_mod::lemma_div_pos_is_pos(s, cnt);
}

/// Runs one seeded clustering attempt to completion.
pub fn run_attempt(pixels: &Vec<PColor>, seed: u64) -> (c: Clustering)
    requires
        pixels@.len() >= 1,
        all_wf(pixels@),
    ensures
        clustering_wf(c, pixels@),
{
    let mut rng = SeededRng::new(seed);
    let mut cents = init_centroids(pixels, &mut rng);
    let (mut assign, mut score) = assign_pixels(pixels, &cents);
    let mut it: usize = 0;
    while it < MAX_ITERATIONS
        invariant
            pixels@.len() >= 1,
            all_wf(pixels@),
            cents@.len() == CLUSTER_COUNT,
            all_wf(cents@),
            assign@.len() == pixels@.len(),
            forall|i: int|
                0 <= i < pixels@.len() ==> (#[trigger] assign@[i]) as int == nearest_idx(
                    cents@,
                    pixels@[i],
                ),
            forall|i: int| 0 <= i < pixels@.len() ==> (#[trigger] assign@[i]) < CLUSTER_COUNT as u8,
            score == score_spec(pixels@, cents@),
        decreases MAX_ITERATIONS - it,
    {
        let new_cents = update_centroids(pixels, &assign, &cents);
        let (new_assign, new_score) = assign_pixels(pixels, &new_cents);
        let converged = new_assign == assign;
        cents = new_cents;
        assign = new_assign;
        score = new_score;
        if converged {
            break;
        }
        it += 1;
    }
    Clustering { centroids: cents, assignment: assign, score }
}

/// Keeps the attempt with the lowest score; ties go to the earliest
/// attempt.  This is the best-of-N reduction: the index it returns carries
/// a score no greater than the score of every attempt in the list.
pub fn pick_best(attempts: &Vec<Clustering>) -> (best: usize)
    requires
        attempts@.len() >= 1,
    ensures
        best < attempts@.len(),
        forall|k: int|
            0 <= k < attempts@.len() ==> attempts@[best as int].score <= (#[trigger] attempts@[k]).score,
        forall|k: int| 0 <= k < best ==> (#[trigger] attempts@[k]).score > attempts@[best as int].score,
{
    let mut best: usize = 0;
    let mut i: usize = 1;
    while i < attempts.len()
        invariant
            1 <= i <= attempts@.len(),
            best < i,
            forall|k: int|
                0 <= k < i ==> attempts@[best as int].score <= (#[trigger] attempts@[k]).score,
            forall|k: int|
                0 <= k < best ==> (#[trigger] attempts@[k]).score > attempts@[best as int].score,
        decreases attempts@.len() - i,
    {
        if attempts[i].score < attempts[best].score {
            best = i;
        }
        i += 1;
    }
    best
}

/// Runs the fixed number of independent seeded attempts and keeps the one
/// with the lowest score.
pub fn reduce_colors(pixels: &Vec<PColor>, seed: u64) -> (c: Clustering)
    requires
        pixels@.len() >= 1,
        all_wf(pixels@),
    ensures
        clustering_wf(c, pixels@),
{
    let mut rng = SeededRng::new(seed);
    let mut attempts: Vec<Clustering> = Vec::new();
    let mut a: usize = 0;
    while a < ATTEMPT_COUNT
        invariant
            a <= ATTEMPT_COUNT,
            pixels@.len() >= 1,
            all_wf(pixels@),
            attempts@.len() == a,
            forall|k: int| 0 <= k < a ==> clustering_wf(#[trigger] attempts@[k], pixels@),
        decreases ATTEMPT_COUNT - a,
    {
        let s = rng.next();
        let att = run_attempt(pixels, s);
        attempts.push(att);
        a += 1;
    }
    let bi = pick_best(&attempts);
    attempts.swap_remove(bi)
}

} // verus!
