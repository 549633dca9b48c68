//! NesPaletteMapper: snaps the background color and the 12 grouped
//! foreground colors, each independently, to the nearest entry of the
//! 64-color hardware table.  Two distinct reduced colors may land on the
//! same hardware entry; that is an accepted approximation, not an error.

use vstd::prelude::*;

use crate::background::ReducedPalette;
use crate::color::nearest_idx;
use crate::nespal::NesPalette;
use crate::subpalette::SubpaletteGroups;

verus! {

/// One of the 4 hardware subpalettes: the shared background entry plus 3
/// entries of its own, all indices into the 64-color table.
pub struct HardwareSubpalette {
    pub background: u8,
    pub colors: Vec<u8>,
}

impl HardwareSubpalette {
    pub open spec fn wf(&self) -> bool {
        &&& self.background < 64
        &&& self.colors@.len() == 3
        &&& forall|s: int| 0 <= s < 3 ==> (#[trigger] self.colors@[s]) < 64
    }
}

/// Builds the 4 hardware subpalettes.  Every group shares the background
/// mapping; slot `s` of group `k` maps group member `s` of `k`.
pub fn map_palette(reduced: &ReducedPalette, groups: &SubpaletteGroups, pal: &NesPalette) -> (hw:
    Vec<HardwareSubpalette>)
    requires
        reduced.wf(),
        groups.wf(),
        pal.wf(),
    ensures
        hw@.len() == 4,
        forall|k: int| 0 <= k < 4 ==> (#[trigger] hw@[k]).wf(),
        forall|k: int|
            0 <= k < 4 ==> (#[trigger] hw@[k]).background as int == nearest_idx(
                pal.perc@,
                reduced.colors@[0],
            ),
        forall|k: int| 0 <= k < 4 ==> (#[trigger] hw@[k]).background == hw@[0].background,
        forall|k: int, s: int|
            0 <= k < 4 && 0 <= s < 3 ==> (#[trigger] hw@[k].colors@[s]) as int == nearest_idx(
                pal.perc@,
                reduced.colors@[groups.member(k, s)],
            ),
{
    let (bg, _d) = pal.nearest(&reduced.colors[0]);
    let mut hw: Vec<HardwareSubpalette> = Vec::new();
    let mut k: usize = 0;
    while k < 4
        invariant
            k <= 4,
            reduced.wf(),
            groups.wf(),
            pal.wf(),
            bg < 64,
            bg as int == nearest_idx(pal.perc@, reduced.colors@[0]),
            hw@.len() == k,
            forall|t: int| 0 <= t < k ==> (#[trigger] hw@[t]).wf(),
            forall|t: int| 0 <= t < k ==> (#[trigger] hw@[t]).background == bg as u8,
            forall|t: int, s: int|
                0 <= t < k && 0 <= s < 3 ==> (#[trigger] hw@[t].colors@[s]) as int == nearest_idx(
                    pal.perc@,
                    reduced.colors@[groups.member(t, s)],
                ),
        decreases 4 - k,
    {
        let mut colors: Vec<u8> = Vec::new();
        let mut s: usize = 0;
        while s < 3
            invariant
                s <= 3,
                k < 4,
                reduced.wf(),
                groups.wf(),
                pal.wf(),
                colors@.len() == s,
                forall|t: int| 0 <= t < s ==> (#[trigger] colors@[t]) < 64,
                forall|t: int|
                    0 <= t < s ==> (#[trigger] colors@[t]) as int == nearest_idx(
                        pal.perc@,
                        reduced.colors@[groups.member(k as int, t)],
                    ),
            decreases 3 - s,
        {
            let m = groups.members[3 * k + s] as usize;
            let (ni, _nd) = pal.nearest(&reduced.colors[m]);
            colors.push(ni as u8);
            s += 1;
        }
        hw.push(HardwareSubpalette { background: bg as u8, colors });
        k += 1;
    }
    hw
}

} // verus!
