//! Color histogram: occurrence count of every distinct perceptual color
//! across all source pixels.  Built once, read-only afterwards.

use vstd::prelude::*;

use crate::color::{all_wf, pc_wf, PColor};

verus! {

/// Number of occurrences of `x` in `s`.
pub open spec fn count_of<T>(s: Seq<T>, x: T) -> int
    decreases s.len(),
{
    if s.len() == 0 {
        0
    } else {
        count_of(s.drop_last(), x) + if s.last() == x {
            1int
        } else {
            0int
        }
    }
}

pub proof fn lemma_count_of_bounds<T>(s: Seq<T>, x: T)
    ensures
        0 <= count_of(s, x) <= s.len(),
    decreases s.len(),
{
    if s.len() > 0 {
        lemma_count_of_bounds(s.drop_last(), x);
    }
}

pub proof fn lemma_count_of_push<T>(s: Seq<T>, x: T, y: T)
    ensures
        count_of(s.push(y), x) == count_of(s, x) + if y == x {
            1int
        } else {
            0int
        },
{
    assert(s.push(y).drop_last() =~= s);
}

/// Sum of the counts of the entries whose key is `x`.
pub open spec fn entries_count(s: Seq<(PColor, u64)>, x: PColor) -> int
    decreases s.len(),
{
    if s.len() == 0 {
        0
    } else {
        entries_count(s.drop_last(), x) + if s.last().0 == x {
            s.last().1 as int
        } else {
            0int
        }
    }
}

/// Sum of all the counts.
pub open spec fn entries_total(s: Seq<(PColor, u64)>) -> int
    decreases s.len(),
{
    if s.len() == 0 {
        0
    } else {
        entries_total(s.drop_last()) + s.last().1
    }
}

pub proof fn lemma_entries_count_absent(s: Seq<(PColor, u64)>, x: PColor)
    requires
        forall|i: int| 0 <= i < s.len() ==> s[i].0 != x,
    ensures
        entries_count(s, x) == 0,
    decreases s.len(),
{
    if s.len() > 0 {
        lemma_entries_count_absent(s.drop_last(), x);
    }
}

pub proof fn lemma_entries_count_found(s: Seq<(PColor, u64)>, k: int, x: PColor)
    requires
        0 <= k < s.len(),
        s[k].0 == x,
        forall|i: int, j: int| 0 <= i < j < s.len() ==> s[i].0 != s[j].0,
    ensures
        entries_count(s, x) == s[k].1 as int,
    decreases s.len(),
{
    if k == s.len() - 1 {
        assert(forall|i: int| 0 <= i < s.drop_last().len() ==> s.drop_last()[i].0 != x);
        lemma_entries_count_absent(s.drop_last(), x);
    } else {
        lemma_entries_count_found(s.drop_last(), k, x);
    }
}

pub proof fn lemma_entries_count_update(s: Seq<(PColor, u64)>, k: int, e: (PColor, u64), y: PColor)
    requires
        0 <= k < s.len(),
    ensures
        entries_count(s.update(k, e), y) == entries_count(s, y) - (if s[k].0 == y {
            s[k].1 as int
        } else {
            0int
        }) + (if e.0 == y {
            e.1 as int
        } else {
            0int
        }),
    decreases s.len(),
{
    let t = s.update(k, e);
    if k == s.len() - 1 {
        assert(t.drop_last() =~= s.drop_last());
    } else {
        assert(t.drop_last() =~= s.drop_last().update(k, e));
        lemma_entries_count_update(s.drop_last(), k, e, y);
    }
}

pub proof fn lemma_entries_count_remove(s: Seq<(PColor, u64)>, k: int, y: PColor)
    requires
        0 <= k < s.len(),
    ensures
        entries_count(s.remove(k), y) == entries_count(s, y) - (if s[k].0 == y {
            s[k].1 as int
        } else {
            0int
        }),
    decreases s.len(),
{
    let t = s.remove(k);
    if k == s.len() - 1 {
        assert(t =~= s.drop_last());
    } else {
        assert(t.drop_last() =~= s.drop_last().remove(k));
        assert(t.last() == s.last());
        lemma_entries_count_remove(s.drop_last(), k, y);
    }
}

proof fn lemma_entries_total_update(s: Seq<(PColor, u64)>, k: int, e: (PColor, u64))
    requires
        0 <= k < s.len(),
    ensures
        entries_total(s.update(k, e)) == entries_total(s) - s[k].1 + e.1,
    decreases s.len(),
{
    let t = s.update(k, e);
    if k == s.len() - 1 {
        assert(t.drop_last() =~= s.drop_last());
    } else {
        assert(t.drop_last() =~= s.drop_last().update(k, e));
        lemma_entries_total_update(s.drop_last(), k, e);
    }
}

/// Mapping from distinct perceptual color to its occurrence count.
pub struct ColorHistogram {
    pub entries: Vec<(PColor, u64)>,
}

impl ColorHistogram {
    /// Keys are distinct and well formed.
    pub open spec fn wf(&self) -> bool {
        &&& forall|i: int, j: int|
            0 <= i < j < self.entries@.len() ==> self.entries@[i].0 != self.entries@[j].0
        &&& forall|i: int| 0 <= i < self.entries@.len() ==> pc_wf(#[trigger] self.entries@[i].0)
    }

    /// The count recorded for `x`; zero when `x` has no entry.
    pub open spec fn spec_count(&self, x: PColor) -> int {
        entries_count(self.entries@, x)
    }

    /// Position of the entry with key `x`, if any.
    fn find_key(entries: &Vec<(PColor, u64)>, x: &PColor) -> (r: Option<usize>)
        ensures
            match r {
                Some(k) => k < entries@.len() && entries@[k as int].0 == *x,
                None => forall|i: int| 0 <= i < entries@.len() ==> entries@[i].0 != *x,
            },
    {
        let mut k: usize = 0;
        while k < entries.len()
            invariant
                k <= entries@.len(),
                forall|i: int| 0 <= i < k ==> entries@[i].0 != *x,
            decreases entries@.len() - k,
        {
            if entries[k].0 == *x {
                return Some(k);
            }
            k += 1;
        }
        None
    }

    /// Builds the histogram of a pixel sequence.
    pub fn build(pixels: &Vec<PColor>) -> (h: Self)
        requires
            all_wf(pixels@),
        ensures
            h.wf(),
            forall|x: PColor| #[trigger] h.spec_count(x) == count_of(pixels@, x),
            entries_total(h.entries@) == pixels@.len(),
    {
        let mut entries: Vec<(PColor, u64)> = Vec::new();
        let mut i: usize = 0;
        while i < pixels.len()
            invariant
                i <= pixels@.len(),
                all_wf(pixels@),
                forall|a: int, b: int|
                    0 <= a < b < entries@.len() ==> entries@[a].0 != entries@[b].0,
                forall|a: int| 0 <= a < entries@.len() ==> pc_wf(#[trigger] entries@[a].0),
                forall|x: PColor| #[trigger] entries_count(entries@, x) == count_of(
                    pixels@.take(i as int),
                    x,
                ),
                entries_total(entries@) == i,
            decreases pixels@.len() - i,
        {
            let p = pixels[i];
            let ghost prefix = pixels@.take(i as int);
            proof {
                assert(pixels@.take(i + 1).drop_last() =~= prefix);
                assert(pixels@.take(i + 1).last() == pixels@[i as int]);
            }
            match Self::find_key(&entries, &p) {
                Some(k) => {
                    proof {
                        lemma_entries_count_found(entries@, k as int, p);
                        lemma_count_of_bounds(prefix, p);
                    }
                    let c = entries[k].1;
                    let ghost old_entries = entries@;
                    entries[k] = (p, c + 1);
                    proof {
                        assert forall|x: PColor|
                            #[trigger] entries_count(entries@, x) == count_of(
                                pixels@.take(i + 1),
                                x,
                            ) by {
                            lemma_entries_count_update(old_entries, k as int, (p, (c + 1) as u64), x);
                        };
                        lemma_entries_total_update(old_entries, k as int, (p, (c + 1) as u64));
                    }
                },
                None => {
                    proof {
                        lemma_entries_count_absent(entries@, p);
                    }
                    let ghost old_entries = entries@;
                    entries.push((p, 1));
                    proof {
                        assert(entries@.drop_last() =~= old_entries);
                        assert forall|x: PColor|
                            #[trigger] entries_count(entries@, x) == count_of(
                                pixels@.take(i + 1),
                                x,
                            ) by {
                            assert(entries_count(entries@, x) == entries_count(old_entries, x)
                                + if p == x {
                                1int
                            } else {
                                0int
                            });
                        };
                    }
                },
            }
            i += 1;
        }
        proof {
            assert(pixels@.take(pixels@.len() as int) =~= pixels@);
        }
        ColorHistogram { entries }
    }
}

} // verus!
