//! BackgroundSelector: finds which of the 13 reduced colors is the
//! background — the centroid carrying the greatest total histogram weight —
//! and reorders the palette so the background sits in slot 0.

use vstd::prelude::*;

use crate::cluster::CLUSTER_COUNT;
use crate::color::{all_wf, nearest_color, nearest_idx, PColor};
use crate::histogram::{
    count_of, entries_total, lemma_entries_count_absent, lemma_entries_count_found,
    lemma_entries_count_remove, lemma_entries_count_update, ColorHistogram,
};

verus! {

/// The 13-color reduced palette: slot 0 is the background, slots 1-12 the
/// foreground colors.
pub struct ReducedPalette {
    pub colors: Vec<PColor>,
}

impl ReducedPalette {
    pub open spec fn wf(&self) -> bool {
        &&& self.colors@.len() == CLUSTER_COUNT
        &&& all_wf(self.colors@)
    }
}

/// Total histogram weight of the colors whose nearest centroid is `k`.
pub open spec fn weight_spec(entries: Seq<(PColor, u64)>, cents: Seq<PColor>, k: int) -> int
    decreases entries.len(),
{
    if entries.len() == 0 {
        0
    } else {
        weight_spec(entries.drop_last(), cents, k) + if nearest_idx(cents, entries.last().0) == k {
            entries.last().1 as int
        } else {
            0int
        }
    }
}

/// Number of pixels whose nearest centroid is `k`.
pub open spec fn assigned_count(pixels: Seq<PColor>, cents: Seq<PColor>, k: int) -> int
    decreases pixels.len(),
{
    if pixels.len() == 0 {
        0
    } else {
        assigned_count(pixels.drop_last(), cents, k) + if nearest_idx(cents, pixels.last()) == k {
            1int
        } else {
            0int
        }
    }
}

proof fn lemma_weight_zero(entries: Seq<(PColor, u64)>, cents: Seq<PColor>, k: int)
    requires
        forall|i: int| 0 <= i < entries.len() ==> (#[trigger] entries[i]).1 == 0,
    ensures
        weight_spec(entries, cents, k) == 0,
    decreases entries.len(),
{
    if entries.len() > 0 {
        lemma_weight_zero(entries.drop_last(), cents, k);
    }
}

proof fn lemma_weight_update(
    s: Seq<(PColor, u64)>,
    cents: Seq<PColor>,
    idx: int,
    e: (PColor, u64),
    k: int,
)
    requires
        0 <= idx < s.len(),
    ensures
        weight_spec(s.update(idx, e), cents, k) == weight_spec(s, cents, k) - (if nearest_idx(
            cents,
            s[idx].0,
        ) == k {
            s[idx].1 as int
        } else {
            0int
        }) + (if nearest_idx(cents, e.0) == k {
            e.1 as int
        } else {
            0int
        }),
    decreases s.len(),
{
    let t = s.update(idx, e);
    if idx == s.len() - 1 {
        assert(t.drop_last() =~= s.drop_last());
    } else {
        assert(t.drop_last() =~= s.drop_last().update(idx, e));
        lemma_weight_update(s.drop_last(), cents, idx, e, k);
    }
}

proof fn lemma_weight_remove(s: Seq<(PColor, u64)>, cents: Seq<PColor>, idx: int, k: int)
    requires
        0 <= idx < s.len(),
    ensures
        weight_spec(s.remove(idx), cents, k) == weight_spec(s, cents, k) - (if nearest_idx(
            cents,
            s[idx].0,
        ) == k {
            s[idx].1 as int
        } else {
            0int
        }),
    decreases s.len(),
{
    let t = s.remove(idx);
    if idx == s.len() - 1 {
        assert(t =~= s.drop_last());
    } else {
        assert(t.drop_last() =~= s.drop_last().remove(idx));
        assert(t.last() == s.last());
        lemma_weight_remove(s.drop_last(), cents, idx, k);
    }
}

/// A histogram that counts a pixel sequence carries, toward each centroid,
/// exactly the number of pixels whose nearest centroid it is.
pub proof fn lemma_weight_is_assigned_count(
    entries: Seq<(PColor, u64)>,
    pixels: Seq<PColor>,
    cents: Seq<PColor>,
    k: int,
)
    requires
        forall|i: int, j: int| 0 <= i < j < entries.len() ==> entries[i].0 != entries[j].0,
        forall|c: PColor| #[trigger] crate::histogram::entries_count(entries, c) == count_of(
            pixels,
            c,
        ),
    ensures
        weight_spec(entries, cents, k) == assigned_count(pixels, cents, k),
    decreases pixels.len(),
{
    if pixels.len() == 0 {
        assert forall|i: int| 0 <= i < entries.len() implies (#[trigger] entries[i]).1 == 0 by {
            lemma_entries_count_found(entries, i, entries[i].0);
            assert(count_of(pixels, entries[i].0) == 0);
        };
        lemma_weight_zero(entries, cents, k);
    } else {
        let cl = pixels.last();
        let pixels2 = pixels.drop_last();
        crate::histogram::lemma_count_of_bounds(pixels2, cl);
        assert(count_of(pixels, cl) == count_of(pixels2, cl) + 1);
        assert(crate::histogram::entries_count(entries, cl) >= 1);
        if forall|i: int| 0 <= i < entries.len() ==> entries[i].0 != cl {
            lemma_entries_count_absent(entries, cl);
            assert(false);
        }
        let idx = choose|i: int| 0 <= i < entries.len() && (#[trigger] entries[i]).0 == cl;
        lemma_entries_count_found(entries, idx, cl);
        let n0 = entries[idx].1;
        assert(n0 as int == count_of(pixels, cl));
        if n0 == 1 {
            let entries2 = entries.remove(idx);
            assert forall|i: int, j: int|
                0 <= i < j < entries2.len() implies entries2[i].0 != entries2[j].0 by {
                let i2: int = if i < idx {
                    i
                } else {
                    i + 1
                };
                let j2: int = if j < idx {
                    j
                } else {
                    j + 1
                };
                assert(entries2[i] == entries[i2]);
                assert(entries2[j] == entries[j2]);
            };
            assert forall|c: PColor|
                #[trigger] crate::histogram::entries_count(entries2, c) == count_of(
                pixels2,
                c,
            ) by {
                lemma_entries_count_remove(entries, idx, c);
            };
            lemma_weight_is_assigned_count(entries2, pixels2, cents, k);
            lemma_weight_remove(entries, cents, idx, k);
        } else {
            let e2 = (cl, (n0 - 1) as u64);
            let entries2 = entries.update(idx, e2);
            assert forall|i: int, j: int|
                0 <= i < j < entries2.len() implies entries2[i].0 != entries2[j].0 by {
                assert(entries2[i].0 == entries[i].0);
                assert(entries2[j].0 == entries[j].0);
            };
            assert forall|c: PColor|
                #[trigger] crate::histogram::entries_count(entries2, c) == count_of(
                pixels2,
                c,
            ) by {
                lemma_entries_count_update(entries, idx, e2, c);
            };
            lemma_weight_is_assigned_count(entries2, pixels2, cents, k);
            lemma_weight_update(entries, cents, idx, e2, k);
        }
    }
}

/// A nearest-centroid assignment vector counts each centroid exactly as
/// often as it is some pixel's nearest centroid.
pub proof fn lemma_assignment_counts(pixels: Seq<PColor>, cents: Seq<PColor>, assign: Seq<u8>, k: int)
    requires
        assign.len() == pixels.len(),
        0 <= k < 256,
        forall|i: int|
            0 <= i < pixels.len() ==> (#[trigger] assign[i]) as int == nearest_idx(
                cents,
                pixels[i],
            ),
    ensures
        count_of(assign, k as u8) == assigned_count(pixels, cents, k),
    decreases pixels.len(),
{
    if pixels.len() > 0 {
        assert(assign.drop_last() =~= assign.subrange(0, assign.len() - 1));
        lemma_assignment_counts(pixels.drop_last(), cents, assign.drop_last(), k);
    }
}

/// Remapping the assignment to the reordered palette permutes the counts.
pub proof fn lemma_remap_counts(assign: Seq<u8>, slots: Seq<u8>, b: int, o: int)
    requires
        slots.len() == assign.len(),
        0 <= b < CLUSTER_COUNT,
        0 <= o < CLUSTER_COUNT,
        forall|i: int| 0 <= i < assign.len() ==> (#[trigger] assign[i]) < CLUSTER_COUNT as u8,
        forall|i: int|
            0 <= i < assign.len() ==> (#[trigger] slots[i]) as int == bg_new_index(
                assign[i] as int,
                b,
            ),
    ensures
        count_of(slots, bg_new_index(o, b) as u8) == count_of(assign, o as u8),
    decreases assign.len(),
{
    if assign.len() > 0 {
        lemma_remap_counts(assign.drop_last(), slots.drop_last(), b, o);
        assert(slots.last() as int == bg_new_index(assign.last() as int, b));
        assert(slots.last() == bg_new_index(o, b) as u8 <==> assign.last() == o as u8);
    }
}

/// Where the centroid previously at `old` lands once the background `b`
/// moves to slot 0 and the rest keep their relative order.
pub open spec fn bg_new_index(old: int, b: int) -> int {
    if old == b {
        0
    } else if old < b {
        old + 1
    } else {
        old
    }
}

proof fn lemma_weight_le_total(entries: Seq<(PColor, u64)>, cents: Seq<PColor>, k: int)
    ensures
        0 <= weight_spec(entries, cents, k) <= entries_total(entries),
    decreases entries.len(),
{
    if entries.len() > 0 {
        lemma_weight_le_total(entries.drop_last(), cents, k);
    }
}

proof fn lemma_total_take_le(s: Seq<(PColor, u64)>, i: int)
    requires
        0 <= i <= s.len(),
    ensures
        entries_total(s.take(i)) <= entries_total(s),
    decreases s.len() - i,
{
    if i == s.len() {
        assert(s.take(i) =~= s);
    } else {
        assert(s.take(i + 1).drop_last() =~= s.take(i));
        assert(entries_total(s.take(i + 1)) == entries_total(s.take(i)) + s[i].1);
        lemma_total_take_le(s, i + 1);
    }
}

proof fn lemma_weight_take_step(s: Seq<(PColor, u64)>, cents: Seq<PColor>, e: int, k: int)
    requires
        0 <= e < s.len(),
    ensures
        weight_spec(s.take(e + 1), cents, k) == weight_spec(s.take(e), cents, k) + if nearest_idx(
            cents,
            s[e].0,
        ) == k {
            s[e].1 as int
        } else {
            0int
        },
{
    assert(s.take(e + 1).drop_last() =~= s.take(e));
    assert(s.take(e + 1).last() == s[e]);
}

/// Total histogram weight assigned to each of the 13 centroids.
pub fn cluster_weights(hist: &ColorHistogram, cents: &Vec<PColor>) -> (w: Vec<u64>)
    requires
        hist.wf(),
        all_wf(cents@),
        cents@.len() == CLUSTER_COUNT,
        entries_total(hist.entries@) <= u64::MAX,
    ensures
        w@.len() == CLUSTER_COUNT,
        forall|k: int|
            0 <= k < CLUSTER_COUNT ==> (#[trigger] w@[k]) as int == weight_spec(
                hist.entries@,
                cents@,
                k,
            ),
{
    let mut w: Vec<u64> = Vec::new();
    let mut k: usize = 0;
    while k < CLUSTER_COUNT
        invariant
            k <= CLUSTER_COUNT,
            w@.len() == k,
            forall|t: int| 0 <= t < k ==> (#[trigger] w@[t]) == 0u64,
        decreases CLUSTER_COUNT - k,
    {
        w.push(0);
        k += 1;
    }
    let ghost s = hist.entries@;
    proof {
        assert(s.take(0) =~= Seq::<(PColor, u64)>::empty());
    }
    let mut e: usize = 0;
    while e < hist.entries.len()
        invariant
            e <= s.len(),
            s == hist.entries@,
            hist.wf(),
            all_wf(cents@),
            cents@.len() == CLUSTER_COUNT,
            entries_total(s) <= u64::MAX,
            w@.len() == CLUSTER_COUNT,
            forall|k: int|
                0 <= k < CLUSTER_COUNT ==> (#[trigger] w@[k]) as int == weight_spec(
                    s.take(e as int),
                    cents@,
                    k,
                ),
        decreases s.len() - e,
    {
        let key = hist.entries[e].0;
        let cnt = hist.entries[e].1;
        let (j, _d) = nearest_color(cents, &key);
        proof {
            lemma_weight_le_total(s.take(e as int), cents@, j as int);
            lemma_total_take_le(s, e + 1);
            assert(s.take(e + 1).drop_last() =~= s.take(e as int));
            assert(entries_total(s.take(e + 1)) == entries_total(s.take(e as int)) + s[e as int].1);
        }
        let cur = w[j];
        let ghost old_w = w@;
        w[j] = cur + cnt;
        proof {
            assert forall|k: int|
                0 <= k < CLUSTER_COUNT implies (#[trigger] w@[k]) as int == weight_spec(
                s.take(e + 1),
                cents@,
                k,
            ) by {
                lemma_weight_take_step(s, cents@, e as int, k);
            };
        }
        e += 1;
    }
    proof {
        assert(s.take(s.len() as int) =~= s);
    }
    w
}

/// Picks the centroid with the greatest histogram weight as the background
/// (ties broken by the lowest centroid index) and reorders the palette so
/// the background is slot 0 and the remaining 12 keep their relative order.
pub fn select_background(cents: &Vec<PColor>, hist: &ColorHistogram) -> (res: (
    ReducedPalette,
    usize,
))
    requires
        hist.wf(),
        all_wf(cents@),
        cents@.len() == CLUSTER_COUNT,
        entries_total(hist.entries@) <= u64::MAX,
    ensures
        res.1 < CLUSTER_COUNT,
        forall|k: int|
            0 <= k < CLUSTER_COUNT ==> weight_spec(hist.entries@, cents@, res.1 as int)
                >= #[trigger] weight_spec(hist.entries@, cents@, k),
        forall|k: int|
            0 <= k < res.1 ==> #[trigger] weight_spec(hist.entries@, cents@, k) < weight_spec(
                hist.entries@,
                cents@,
                res.1 as int,
            ),
        res.0.wf(),
        forall|old: int|
            0 <= old < CLUSTER_COUNT ==> res.0.colors@[bg_new_index(old, res.1 as int)]
                == cents@[old],
{
    let w = cluster_weights(hist, cents);
    let mut b: usize = 0;
    let mut k: usize = 1;
    while k < CLUSTER_COUNT
        invariant
            1 <= k <= CLUSTER_COUNT,
            b < k,
            w@.len() == CLUSTER_COUNT,
            forall|t: int| 0 <= t < k ==> w@[b as int] >= #[trigger] w@[t],
            forall|t: int| 0 <= t < b ==> #[trigger] w@[t] < w@[b as int],
        decreases CLUSTER_COUNT - k,
    {
        if w[k] > w[b] {
            b = k;
        }
        k += 1;
    }
    proof {
        assert forall|k: int|
            0 <= k < CLUSTER_COUNT implies weight_spec(hist.entries@, cents@, b as int)
            >= #[trigger] weight_spec(hist.entries@, cents@, k) by {
            assert(w@[k] as int == weight_spec(hist.entries@, cents@, k));
            assert(w@[b as int] as int == weight_spec(hist.entries@, cents@, b as int));
        };
        assert forall|k: int|
            0 <= k < b implies #[trigger] weight_spec(hist.entries@, cents@, k) < weight_spec(
            hist.entries@,
            cents@,
            b as int,
        ) by {
            assert(w@[k] as int == weight_spec(hist.entries@, cents@, k));
            assert(w@[b as int] as int == weight_spec(hist.entries@, cents@, b as int));
        };
    }
    let mut colors: Vec<PColor> = Vec::new();
    colors.push(cents[b]);
    let mut j: usize = 0;
    while j < CLUSTER_COUNT
        invariant
            j <= CLUSTER_COUNT,
            b < CLUSTER_COUNT,
            all_wf(cents@),
            cents@.len() == CLUSTER_COUNT,
            colors@.len() == 1 + j - (if j > b {
                1int
            } else {
                0int
            }),
            all_wf(colors@),
            colors@[0] == cents@[b as int],
            forall|old: int|
                0 <= old < j && old != b ==> colors@[bg_new_index(old, b as int)] == cents@[old],
        decreases CLUSTER_COUNT - j,
    {
        if j != b {
            colors.push(cents[j]);
        }
        j += 1;
    }
    (ReducedPalette { colors }, b)
}

/// Rewrites a per-pixel centroid assignment to the reordered palette's
/// slot numbering.
pub fn remap_assignment(assign: &Vec<u8>, b: usize) -> (r: Vec<u8>)
    requires
        b < CLUSTER_COUNT,
        forall|i: int| 0 <= i < assign@.len() ==> (#[trigger] assign@[i]) < CLUSTER_COUNT as u8,
    ensures
        r@.len() == assign@.len(),
        forall|i: int|
            0 <= i < assign@.len() ==> (#[trigger] r@[i]) as int == bg_new_index(
                assign@[i] as int,
                b as int,
            ),
        forall|i: int| 0 <= i < assign@.len() ==> (#[trigger] r@[i]) < CLUSTER_COUNT as u8,
{
    let mut r: Vec<u8> = Vec::new();
    let mut i: usize = 0;
    while i < assign.len()
        invariant
            i <= assign@.len(),
            b < CLUSTER_COUNT,
            forall|t: int| 0 <= t < assign@.len() ==> (#[trigger] assign@[t]) < CLUSTER_COUNT as u8,
            r@.len() == i,
            forall|t: int|
                0 <= t < i ==> (#[trigger] r@[t]) as int == bg_new_index(
                    assign@[t] as int,
                    b as int,
                ),
            forall|t: int| 0 <= t < i ==> (#[trigger] r@[t]) < CLUSTER_COUNT as u8,
        decreases assign@.len() - i,
    {
        let a = assign[i];
        let v: u8 = if a as usize == b {
            0
        } else if (a as usize) < b {
            a + 1
        } else {
            a
        };
        r.push(v);
        i += 1;
    }
    r
}

} // verus!
