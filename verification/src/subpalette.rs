//! SubpaletteAssigner: partitions the 12 foreground palette slots into 4
//! groups of exactly 3, so that slots with high tile co-occurrence tend to
//! share a group.
//!
//! The algorithm is a greedy nearest-neighbor chain and makes no optimality
//! claim: each group seeds with the highest-numbered unassigned slot, then
//! twice takes the unassigned slot with the greatest co-occurrence count
//! with the seed (the reciprocal-adjacency cost reading: a recorded edge
//! costs `1 / count`, no edge costs infinity, lowest cost wins), breaking
//! ties toward the lowest slot number.  What the contract promises is the
//! partition itself: the groups cover the slots `1..=12` exactly once.

use vstd::prelude::*;

verus! {

/// The 4 groups as a flat list: entries `3g`, `3g + 1`, `3g + 2` are the
/// members of group `g`, in the order the greedy chain chose them.
pub struct SubpaletteGroups {
    pub members: Vec<u8>,
}

impl SubpaletteGroups {
    /// The groups partition the foreground slots: 12 pairwise distinct
    /// members, each a slot in `1..=12`, and every such slot covered.
    pub open spec fn wf(&self) -> bool {
        &&& self.members@.len() == 12
        &&& forall|i: int| 0 <= i < 12 ==> 1 <= (#[trigger] self.members@[i]) <= 12
        &&& forall|i: int, j: int| 0 <= i < j < 12 ==> self.members@[i] != self.members@[j]
        &&& forall|c: int| 1 <= c <= 12 ==> #[trigger] covers(self.members@, c)
    }

    /// Member `s` of group `g`.
    pub open spec fn member(&self, g: int, s: int) -> int {
        self.members@[3 * g + s] as int
    }

    /// Whether slot `c` belongs to group `g`.
    pub open spec fn group_contains(&self, g: int, c: int) -> bool {
        exists|s: int| 0 <= s < 3 && self.member(g, s) == c
    }
}

/// Whether some member slot holds `c`.
pub open spec fn covers(s: Seq<u8>, c: int) -> bool {
    exists|i: int| 0 <= i < s.len() && s[i] == c as u8
}

/// Whether slot `c` was still unassigned when member `s` of group `g` was
/// about to be chosen: it is none of the `3g + s` members chosen earlier.
pub open spec fn slot_free(members: Seq<u8>, g: int, s: int, c: int) -> bool {
    forall|i: int| 0 <= i < 3 * g + s ==> members[i] != c as u8
}

/// Member `s` of group `g` in a flat member list.
pub open spec fn member_at(members: Seq<u8>, g: int, s: int) -> int {
    members[3 * g + s] as int
}

/// The greedy chain, stated for the first `gmax` groups: every group's
/// seed is the highest-numbered slot unassigned at its turn, and each of
/// its two picks has maximal co-occurrence with the seed among the slots
/// unassigned at that pick, ties going to the lowest slot number.
pub open spec fn greedy_upto(members: Seq<u8>, adj: Seq<u64>, gmax: int) -> bool {
    &&& forall|g: int, c: int|
        0 <= g < gmax && 1 <= c <= 12 && #[trigger] slot_free(members, g, 0, c) ==> c <= member_at(
            members,
            g,
            0,
        )
    &&& forall|g: int, s: int, c: int|
        0 <= g < gmax && 1 <= s < 3 && 1 <= c <= 12 && #[trigger] slot_free(members, g, s, c)
            ==> adj[member_at(members, g, 0) * 13 + c] <= adj[member_at(members, g, 0) * 13
            + member_at(members, g, s)]
    &&& forall|g: int, s: int, c: int|
        0 <= g < gmax && 1 <= s < 3 && 1 <= c <= 12 && #[trigger] slot_free(members, g, s, c) && c
            < member_at(members, g, s) ==> adj[member_at(members, g, 0) * 13 + c] < adj[member_at(
            members,
            g,
            0,
        ) * 13 + member_at(members, g, s)]
}

/// The greedy chain over all 4 groups.
pub open spec fn greedy_wrt(members: Seq<u8>, adj: Seq<u64>) -> bool {
    greedy_upto(members, adj, 4)
}

/// Number of still-unassigned slots.
pub open spec fn num_unassigned(flags: Seq<bool>) -> int
    decreases flags.len(),
{
    if flags.len() == 0 {
        0
    } else {
        num_unassigned(flags.drop_last()) + if flags.last() {
            1int
        } else {
            0int
        }
    }
}

proof fn lemma_num_unassigned_zero(flags: Seq<bool>)
    requires
        forall|i: int| 0 <= i < flags.len() ==> !flags[i],
    ensures
        num_unassigned(flags) == 0,
    decreases flags.len(),
{
    if flags.len() > 0 {
        lemma_num_unassigned_zero(flags.drop_last());
    }
}

proof fn lemma_num_unassigned_clear(flags: Seq<bool>, c: int)
    requires
        0 <= c < flags.len(),
        flags[c],
    ensures
        num_unassigned(flags.update(c, false)) == num_unassigned(flags) - 1,
    decreases flags.len(),
{
    let t = flags.update(c, false);
    if c == flags.len() - 1 {
        assert(t.drop_last() =~= flags.drop_last());
    } else {
        assert(t.drop_last() =~= flags.drop_last().update(c, false));
        lemma_num_unassigned_clear(flags.drop_last(), c);
    }
}

/// Highest-numbered unassigned slot: the greedy chain's group seed.
fn find_seed(flags: &Vec<bool>) -> (c: usize)
    requires
        flags@.len() == 13,
        !flags@[0],
        num_unassigned(flags@) > 0,
    ensures
        1 <= c < 13,
        flags@[c as int],
        forall|j: int| c < j < 13 ==> !flags@[j],
{
    let mut c: usize = 12;
    while c >= 1
        invariant
            c <= 12,
            flags@.len() == 13,
            forall|j: int| c < j < 13 ==> !flags@[j],
        decreases c,
    {
        if flags[c] {
            return c;
        }
        c -= 1;
    }
    proof {
        lemma_num_unassigned_zero(flags@);
        assert(false);
    }
    0
}

/// Unassigned slot with the greatest co-occurrence with `seed`; ties go to
/// the lowest slot number.  A slot with no recorded edge counts zero, so it
/// is only picked when every unassigned slot has none.
fn find_best(flags: &Vec<bool>, adj: &Vec<u64>, seed: usize) -> (c: usize)
    requires
        flags@.len() == 13,
        !flags@[0],
        num_unassigned(flags@) > 0,
        adj@.len() == 169,
        seed < 13,
    ensures
        1 <= c < 13,
        flags@[c as int],
        forall|j: int|
            1 <= j < 13 && flags@[j] ==> adj@[seed as int * 13 + c as int] >= #[trigger] adj@[seed as int
                * 13 + j],
        forall|j: int|
            1 <= j < c && flags@[j] ==> #[trigger] adj@[seed as int * 13 + j] < adj@[seed as int * 13
                + c as int],
{
    let mut best: usize = 0;
    let mut j: usize = 1;
    while j < 13
        invariant
            1 <= j <= 13,
            flags@.len() == 13,
            !flags@[0],
            adj@.len() == 169,
            seed < 13,
            best < j,
            best != 0 ==> flags@[best as int],
            best == 0 ==> forall|t: int| 0 <= t < j ==> !flags@[t],
            forall|t: int|
                1 <= t < j && flags@[t] ==> adj@[seed as int * 13 + best as int]
                    >= #[trigger] adj@[seed as int * 13 + t],
            forall|t: int|
                1 <= t < best && flags@[t] ==> #[trigger] adj@[seed as int * 13 + t] < adj@[seed as int
                    * 13 + best as int],
        decreases 13 - j,
    {
        if flags[j] {
            if best == 0 || adj[seed * 13 + j] > adj[seed * 13 + best] {
                best = j;
            }
        }
        j += 1;
    }
    if best == 0 {
        proof {
            lemma_num_unassigned_zero(flags@);
            assert(false);
        }
    }
    best
}

/// Marks slot `c` assigned and appends it to the member list.
fn place(flags: &mut Vec<bool>, members: &mut Vec<u8>, c: usize)
    requires
        1 <= c < 13,
        old(flags)@.len() == 13,
        old(flags)@[c as int],
        !old(flags)@[0],
        forall|i: int| 0 <= i < old(members)@.len() ==> 1 <= (#[trigger] old(members)@[i]) <= 12,
        forall|cc: int|
            1 <= cc < 13 ==> ((#[trigger] old(flags)@[cc]) <==> (forall|i: int|
                0 <= i < old(members)@.len() ==> old(members)@[i] != cc as u8)),
    ensures
        final(flags)@ == old(flags)@.update(c as int, false),
        final(members)@ == old(members)@.push(c as u8),
        final(flags)@.len() == 13,
        !final(flags)@[0],
        num_unassigned(final(flags)@) == num_unassigned(old(flags)@) - 1,
        forall|i: int| 0 <= i < final(members)@.len() ==> 1 <= (#[trigger] final(members)@[i]) <= 12,
        forall|cc: int|
            1 <= cc < 13 ==> ((#[trigger] final(flags)@[cc]) <==> (forall|i: int|
                0 <= i < final(members)@.len() ==> final(members)@[i] != cc as u8)),
        forall|i: int, j: int|
            0 <= i < j < final(members)@.len() && (forall|a: int, b: int|
                0 <= a < b < old(members)@.len() ==> old(members)@[a] != old(members)@[b])
                ==> final(members)@[i] != final(members)@[j],
{
    proof {
        lemma_num_unassigned_clear(flags@, c as int);
    }
    flags[c] = false;
    members.push(c as u8);
    proof {
        assert forall|cc: int|
            1 <= cc < 13 implies ((#[trigger] flags@[cc]) <==> (forall|i: int|
            0 <= i < members@.len() ==> members@[i] != cc as u8)) by {
            if cc == c {
                assert(members@[members@.len() - 1] == c as u8);
            } else {
                assert(flags@[cc] == old(flags)@[cc]);
                if old(flags)@[cc] {
                    assert forall|i: int|
                        0 <= i < members@.len() implies members@[i] != cc as u8 by {
                        if i < members@.len() - 1 {
                            assert(old(members)@[i] != cc as u8);
                        } else {
                            assert(members@[i] == c as u8);
                        }
                    };
                } else {
                    let wit = choose|i: int|
                        0 <= i < old(members)@.len() && old(members)@[i] == cc as u8;
                    assert(members@[wit] == cc as u8);
                }
            }
        };
        assert forall|i: int, j: int|
            0 <= i < j < members@.len() && (forall|a: int, b: int|
                0 <= a < b < old(members)@.len() ==> old(members)@[a] != old(members)@[b])
            implies members@[i] != members@[j] by {
            if j == members@.len() - 1 {
                assert(old(flags)@[members@[j] as int]);
                assert(old(flags)@[c as int]);
                if members@[i] == members@[j] {
                    assert(old(members)@[i] == c as u8);
                }
            }
        };
    }
}

/// Greedily partitions the 12 foreground slots into 4 groups of 3, using
/// the co-occurrence matrix `adj` (flat 13x13, as `build_adjacency` lays
/// it out).
pub fn assign_groups(adj: &Vec<u64>) -> (groups: SubpaletteGroups)
    requires
        adj@.len() == 169,
    ensures
        groups.wf(),
        greedy_wrt(groups.members@, adj@),
{
    let mut flags: Vec<bool> = Vec::new();
    flags.push(false);
    let mut k: usize = 1;
    while k < 13
        invariant
            1 <= k <= 13,
            flags@.len() == k,
            !flags@[0],
            forall|i: int| 1 <= i < k ==> flags@[i],
        decreases 13 - k,
    {
        flags.push(true);
        k += 1;
    }
    proof {
        lemma_num_unassigned_all(flags@);
    }
    let mut members: Vec<u8> = Vec::new();
    let mut g: usize = 0;
    while g < 4
        invariant
            g <= 4,
            adj@.len() == 169,
            flags@.len() == 13,
            !flags@[0],
            members@.len() == 3 * g,
            num_unassigned(flags@) == 12 - 3 * g,
            forall|i: int| 0 <= i < members@.len() ==> 1 <= (#[trigger] members@[i]) <= 12,
            forall|i: int, j: int| 0 <= i < j < members@.len() ==> members@[i] != members@[j],
            forall|cc: int|
                1 <= cc < 13 ==> ((#[trigger] flags@[cc]) <==> (forall|i: int|
                    0 <= i < members@.len() ==> members@[i] != cc as u8)),
            greedy_upto(members@, adj@, g as int),
        decreases 4 - g,
    {
        let ghost m0 = members@;
        let ghost f0 = flags@;
        let seed = find_seed(&flags);
        place(&mut flags, &mut members, seed);
        let ghost m1 = members@;
        let ghost f1 = flags@;
        let pick1 = find_best(&flags, adj, seed);
        place(&mut flags, &mut members, pick1);
        let ghost m2 = members@;
        let ghost f2 = flags@;
        let pick2 = find_best(&flags, adj, seed);
        place(&mut flags, &mut members, pick2);
        proof {
            let gi = g as int;
            let m3 = members@;
            assert(m3.len() == 3 * gi + 3);
            assert(forall|i: int| 0 <= i < 3 * gi ==> m3[i] == m0[i]);
            assert(m3[3 * gi] == seed as u8);
            assert(m3[3 * gi + 1] == pick1 as u8);
            assert(m3[3 * gi + 2] == pick2 as u8);
            assert forall|g2: int, c: int|
                0 <= g2 < gi + 1 && 1 <= c <= 12 && #[trigger] slot_free(m3, g2, 0, c) implies c
                <= member_at(m3, g2, 0) by {
                if g2 == gi {
                    assert forall|i: int| 0 <= i < m0.len() implies m0[i] != c as u8 by {
                        assert(m3[i] != c as u8);
                    };
                    assert(f0[c]);
                    if c > seed {
                        assert(!f0[c]);
                    }
                } else {
                    assert(slot_free(m0, g2, 0, c)) by {
                        assert forall|i: int| 0 <= i < 3 * g2 implies m0[i] != c as u8 by {
                            assert(m3[i] == m0[i]);
                        };
                    };
                    assert(member_at(m0, g2, 0) == member_at(m3, g2, 0));
                }
            };
            assert forall|g2: int, s: int, c: int|
                0 <= g2 < gi + 1 && 1 <= s < 3 && 1 <= c <= 12 && #[trigger] slot_free(
                m3,
                g2,
                s,
                c,
            ) implies adj@[member_at(m3, g2, 0) * 13 + c] <= adj@[member_at(m3, g2, 0) * 13
                + member_at(m3, g2, s)] && (c < member_at(m3, g2, s) ==> adj@[member_at(m3, g2, 0)
                * 13 + c] < adj@[member_at(m3, g2, 0) * 13 + member_at(m3, g2, s)]) by {
                if g2 == gi {
                    if s == 1 {
                        assert forall|i: int| 0 <= i < m1.len() implies m1[i] != c as u8 by {
                            assert(m3[i] == m1[i]);
                        };
                        assert(f1[c]);
                    } else {
                        assert forall|i: int| 0 <= i < m2.len() implies m2[i] != c as u8 by {
                            assert(m3[i] == m2[i]);
                        };
                        assert(f2[c]);
                    }
                    assert(member_at(m3, gi, 0) == seed);
                } else {
                    assert(slot_free(m0, g2, s, c)) by {
                        assert forall|i: int| 0 <= i < 3 * g2 + s implies m0[i] != c as u8 by {
                            assert(m3[i] == m0[i]);
                        };
                    };
                    assert(member_at(m0, g2, 0) == member_at(m3, g2, 0));
                    assert(member_at(m0, g2, s) == member_at(m3, g2, s));
                }
            };
        }
        g += 1;
    }
    proof {
        lemma_num_unassigned_zero_all(flags@);
        assert forall|c: int| 1 <= c <= 12 implies #[trigger] covers(members@, c) by {
            assert(!flags@[c]);
        };
    }
    SubpaletteGroups { members }
}

proof fn lemma_num_unassigned_all(flags: Seq<bool>)
    requires
        flags.len() == 13,
        !flags[0],
        forall|i: int| 1 <= i < 13 ==> flags[i],
    ensures
        num_unassigned(flags) == 12,
{
    lemma_num_unassigned_prefix(flags, 13);
    assert(flags.take(13) =~= flags);
}

proof fn lemma_num_unassigned_prefix(flags: Seq<bool>, n: int)
    requires
        flags.len() == 13,
        !flags[0],
        forall|i: int| 1 <= i < 13 ==> flags[i],
        0 <= n <= 13,
    ensures
        num_unassigned(flags.take(n)) == if n == 0 {
            0int
        } else {
            n - 1
        },
    decreases n,
{
    if n == 0 {
    } else {
        assert(flags.take(n).drop_last() =~= flags.take(n - 1));
        lemma_num_unassigned_prefix(flags, n - 1);
    }
    if n == 13 {
        assert(flags.take(13) =~= flags);
    }
}

proof fn lemma_num_unassigned_zero_all(flags: Seq<bool>)
    requires
        num_unassigned(flags) == 0,
    ensures
        forall|i: int| 0 <= i < flags.len() ==> !(#[trigger] flags[i]),
    decreases flags.len(),
{
    if flags.len() > 0 {
        lemma_num_unassigned_nonneg(flags.drop_last());
        lemma_num_unassigned_zero_all(flags.drop_last());
        assert forall|i: int| 0 <= i < flags.len() implies !(#[trigger] flags[i]) by {
            if i < flags.len() - 1 {
                assert(flags.drop_last()[i] == flags[i]);
            }
        };
    }
}

proof fn lemma_num_unassigned_nonneg(flags: Seq<bool>)
    ensures
        0 <= num_unassigned(flags) <= flags.len(),
    decreases flags.len(),
{
    if flags.len() > 0 {
        lemma_num_unassigned_nonneg(flags.drop_last());
    }
}

} // verus!
