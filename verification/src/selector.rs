//! TilePaletteSelector: for every tile, chooses the subpalette group whose
//! members cover the tile's foreground slots best — the one with the
//! fewest misses, ties broken by the lowest group index.  A tile whose
//! colors span several groups legitimately keeps a nonzero miss count.

use vstd::prelude::*;

use crate::subpalette::SubpaletteGroups;
use crate::tiles::tile_has_color;

verus! {

/// Misses of group `g` on tile `t` among foreground slots below `c`: the
/// number of slots present in the tile but absent from the group.
pub open spec fn miss_count_upto(
    sets: Seq<bool>,
    groups: SubpaletteGroups,
    t: int,
    g: int,
    c: int,
) -> int
    decreases c,
{
    if c <= 1 {
        0
    } else {
        miss_count_upto(sets, groups, t, g, c - 1) + if sets[t * 13 + (c - 1)]
            && !groups.group_contains(g, c - 1) {
            1int
        } else {
            0int
        }
    }
}

/// Misses of group `g` on tile `t` over all 12 foreground slots.
pub open spec fn miss_count(sets: Seq<bool>, groups: SubpaletteGroups, t: int, g: int) -> int {
    miss_count_upto(sets, groups, t, g, 13)
}

/// The same count stated over the per-pixel slot assignment itself, for
/// contracts that have no tile table in hand.
pub open spec fn assign_miss_upto(
    passign: Seq<u8>,
    w: int,
    groups: SubpaletteGroups,
    t: int,
    g: int,
    c: int,
) -> int
    decreases c,
{
    if c <= 1 {
        0
    } else {
        assign_miss_upto(passign, w, groups, t, g, c - 1) + if tile_has_color(passign, w, t, c - 1)
            && !groups.group_contains(g, c - 1) {
            1int
        } else {
            0int
        }
    }
}

/// Misses of group `g` on tile `t`, over the per-pixel slot assignment.
pub open spec fn assign_miss(passign: Seq<u8>, w: int, groups: SubpaletteGroups, t: int, g: int) -> int {
    assign_miss_upto(passign, w, groups, t, g, 13)
}

/// On a tile table that matches the slot assignment, the two miss counts
/// agree.
pub proof fn lemma_miss_count_by_assign(
    sets: Seq<bool>,
    passign: Seq<u8>,
    w: int,
    groups: SubpaletteGroups,
    t: int,
    g: int,
    c: int,
)
    requires
        0 <= c <= 13,
        forall|cc: int|
            0 <= cc < 13 ==> ((#[trigger] sets[t * 13 + cc]) <==> tile_has_color(
                passign,
                w,
                t,
                cc,
            )),
    ensures
        miss_count_upto(sets, groups, t, g, c) == assign_miss_upto(passign, w, groups, t, g, c),
    decreases c,
{
    if c > 1 {
        assert(sets[t * 13 + (c - 1)] <==> tile_has_color(passign, w, t, c - 1));
        lemma_miss_count_by_assign(sets, passign, w, groups, t, g, c - 1);
    }
}

/// Whether slot `c` is one of group `g`'s three members.
fn in_group(groups: &SubpaletteGroups, g: usize, c: usize) -> (r: bool)
    requires
        groups.wf(),
        g < 4,
        c < 13,
    ensures
        r <==> groups.group_contains(g as int, c as int),
{
    let r = groups.members[3 * g] as usize == c || groups.members[3 * g + 1] as usize == c
        || groups.members[3 * g + 2] as usize == c;
    proof {
        if r {
            assert(groups.group_contains(g as int, c as int)) by {
                if groups.members@[3 * g as int] as usize == c {
                    assert(groups.member(g as int, 0) == c);
                } else if groups.members@[3 * g as int + 1] as usize == c {
                    assert(groups.member(g as int, 1) == c);
                } else {
                    assert(groups.member(g as int, 2) == c);
                }
            };
        }
    }
    r
}

/// Miss count of group `g` on tile `t`.
pub fn tile_miss(sets: &Vec<bool>, n_tiles: usize, t: usize, groups: &SubpaletteGroups, g: usize) -> (m:
    u8)
    requires
        sets@.len() == n_tiles * 13,
        t < n_tiles,
        groups.wf(),
        g < 4,
    ensures
        m as int == miss_count(sets@, *groups, t as int, g as int),
        m <= 12,
{
    let total = sets.len();
    proof {
        assert(t * 13 + 12 < n_tiles * 13) by (nonlinear_arith)
            requires
                0 <= t < n_tiles,
        ;
        assert(t * 13 >= 0) by (nonlinear_arith)
            requires
                t >= 0,
        ;
    }
    let mut m: u8 = 0;
    let mut c: usize = 1;
    while c < 13
        invariant
            1 <= c <= 13,
            sets@.len() == n_tiles * 13,
            total == n_tiles * 13,
            t < n_tiles,
            t * 13 + 12 < n_tiles * 13,
            groups.wf(),
            g < 4,
            m as int == miss_count_upto(sets@, *groups, t as int, g as int, c as int),
            m < c,
        decreases 13 - c,
    {
        if sets[t * 13 + c] && !in_group(groups, g, c) {
            m += 1;
        }
        c += 1;
    }
    m
}

/// Chooses, for every tile, the subpalette with the fewest misses (ties to
/// the lowest index).  Every tile gets exactly one assignment.
pub fn select_tile_palettes(sets: &Vec<bool>, n_tiles: usize, groups: &SubpaletteGroups) -> (r:
    Vec<u8>)
    requires
        sets@.len() == n_tiles * 13,
        groups.wf(),
    ensures
        r@.len() == n_tiles,
        forall|t: int| 0 <= t < n_tiles ==> (#[trigger] r@[t]) < 4,
        forall|t: int, g: int|
            0 <= t < n_tiles && 0 <= g < 4 ==> miss_count(sets@, *groups, t, r@[t] as int)
                <= #[trigger] miss_count(sets@, *groups, t, g),
        forall|t: int, g: int|
            0 <= t < n_tiles && 0 <= g < r@[t] ==> #[trigger] miss_count(sets@, *groups, t, g)
                > miss_count(sets@, *groups, t, r@[t] as int),
{
    let mut r: Vec<u8> = Vec::new();
    let mut t: usize = 0;
    while t < n_tiles
        invariant
            t <= n_tiles,
            sets@.len() == n_tiles * 13,
            groups.wf(),
            r@.len() == t,
            forall|t2: int| 0 <= t2 < t ==> (#[trigger] r@[t2]) < 4,
            forall|t2: int, g: int|
                0 <= t2 < t && 0 <= g < 4 ==> miss_count(sets@, *groups, t2, r@[t2] as int)
                    <= #[trigger] miss_count(sets@, *groups, t2, g),
            forall|t2: int, g: int|
                0 <= t2 < t && 0 <= g < r@[t2] ==> #[trigger] miss_count(sets@, *groups, t2, g)
                    > miss_count(sets@, *groups, t2, r@[t2] as int),
        decreases n_tiles - t,
    {
        let mut best: usize = 0;
        let mut best_m = tile_miss(sets, n_tiles, t, groups, 0);
        let mut g: usize = 1;
        while g < 4
            invariant
                1 <= g <= 4,
                best < g,
                sets@.len() == n_tiles * 13,
                t < n_tiles,
                groups.wf(),
                best_m as int == miss_count(sets@, *groups, t as int, best as int),
                forall|g2: int|
                    0 <= g2 < g ==> best_m as int <= #[trigger] miss_count(
                        sets@,
                        *groups,
                        t as int,
                        g2,
                    ),
                forall|g2: int|
                    0 <= g2 < best ==> #[trigger] miss_count(sets@, *groups, t as int, g2)
                        > best_m as int,
            decreases 4 - g,
        {
            let m = tile_miss(sets, n_tiles, t, groups, g);
            if m < best_m {
                best = g;
                best_m = m;
            }
            g += 1;
        }
        r.push(best as u8);
        t += 1;
    }
    r
}

} // verus!
