//! PixelRequantizer: produces the output image.  Every pixel is mapped to
//! whichever of its tile's 4 hardware colors is perceptually nearest to
//! the pixel's original reduced color — not simply the hardware color of
//! its original group, because that group may have lost the tile's vote.

use vstd::prelude::*;

use crate::background::ReducedPalette;
use crate::color::{nearest_color, nearest_idx, PColor, Rgb8};
use crate::mapper::HardwareSubpalette;
use crate::nespal::{in_nes_table, nes_rgb_spec, NesPalette};

use crate::tiles::{grid_wf, lemma_grid_le, lemma_tile_bounds, tile_of_pixel};

verus! {

/// The four perceptual candidates a subpalette offers a pixel, looked up
/// in the perceptual form of the hardware table.
pub open spec fn subpal_perc(hw: HardwareSubpalette, perc_table: Seq<PColor>) -> Seq<PColor> {
    seq![
        perc_table[hw.background as int],
        perc_table[hw.colors@[0] as int],
        perc_table[hw.colors@[1] as int],
        perc_table[hw.colors@[2] as int],
    ]
}

/// Hardware-table index of candidate slot `s` of a subpalette.
pub open spec fn subpal_entry(hw: HardwareSubpalette, s: int) -> int {
    if s == 0 {
        hw.background as int
    } else {
        hw.colors@[s - 1] as int
    }
}

/// The hardware color the requantizer gives pixel `i`.
pub open spec fn requant_pixel_spec(
    passign: Seq<u8>,
    tassign: Seq<u8>,
    subpals: Seq<HardwareSubpalette>,
    reduced: ReducedPalette,
    perc_table: Seq<PColor>,
    w: int,
    i: int,
) -> Rgb8 {
    let hw = subpals[tassign[tile_of_pixel(i, w)] as int];
    let cand = subpal_perc(hw, perc_table);
    let s = nearest_idx(cand, reduced.colors@[passign[i] as int]);
    nes_rgb_spec(subpal_entry(hw, s))
}

/// Maps every pixel to the nearest color of its tile's chosen hardware
/// subpalette.  Every output pixel is exactly one of the 64 table entries.
#[verifier::rlimit(60)]
pub fn requantize(
    passign: &Vec<u8>,
    tassign: &Vec<u8>,
    subpals: &Vec<HardwareSubpalette>,
    reduced: &ReducedPalette,
    pal: &NesPalette,
    w: usize,
    h: usize,
) -> (out: Vec<Rgb8>)
    requires
        grid_wf(w as int, h as int),
        passign@.len() == w * h,
        forall|i: int| 0 <= i < passign@.len() ==> (#[trigger] passign@[i]) < 13,
        tassign@.len() == (w as int / 8) * (h as int / 8),
        forall|t: int| 0 <= t < tassign@.len() ==> (#[trigger] tassign@[t]) < 4,
        subpals@.len() == 4,
        forall|k: int| 0 <= k < 4 ==> (#[trigger] subpals@[k]).wf(),
        reduced.wf(),
        pal.wf(),
    ensures
        out@.len() == passign@.len(),
        forall|i: int|
            0 <= i < out@.len() ==> (#[trigger] out@[i]) == requant_pixel_spec(
                passign@,
                tassign@,
                subpals@,
                *reduced,
                pal.perc@,
                w as int,
                i,
            ),
        forall|i: int| 0 <= i < out@.len() ==> in_nes_table(#[trigger] out@[i]),
{
    proof {
        lemma_grid_le(w as int, h as int);
    }
    let tx = w / 8;
    let n_tiles = tassign.len();
    let mut out: Vec<Rgb8> = Vec::new();
    let mut i: usize = 0;
    while i < passign.len()
        invariant
            i <= passign@.len(),
            grid_wf(w as int, h as int),
            tx == w as int / 8,
            n_tiles == tassign@.len(),
            passign@.len() == w * h,
            forall|p: int| 0 <= p < passign@.len() ==> (#[trigger] passign@[p]) < 13,
            tassign@.len() == (w as int / 8) * (h as int / 8),
            forall|t: int| 0 <= t < tassign@.len() ==> (#[trigger] tassign@[t]) < 4,
            subpals@.len() == 4,
            forall|k: int| 0 <= k < 4 ==> (#[trigger] subpals@[k]).wf(),
            reduced.wf(),
            pal.wf(),
            out@.len() == i,
            forall|p: int|
                0 <= p < i ==> (#[trigger] out@[p]) == requant_pixel_spec(
                    passign@,
                    tassign@,
                    subpals@,
                    *reduced,
                    pal.perc@,
                    w as int,
                    p,
                ),
            forall|p: int| 0 <= p < i ==> in_nes_table(#[trigger] out@[p]),
        decreases passign@.len() - i,
    {
        proof {
            lemma_tile_bounds(i as int, w as int, h as int);
            assert((i as int / w as int / 8) * (w as int / 8) >= 0) by (nonlinear_arith)
                requires
                    i as int / w as int / 8 >= 0,
                    w as int / 8 >= 0,
            ;
            assert((i as int / w as int / 8) * (w as int / 8) <= tile_of_pixel(i as int, w as int));
        }
        let t = (i / w / 8) * tx + (i % w) / 8;
        let g = tassign[t] as usize;
        let hw = &subpals[g];
        let mut cand: Vec<PColor> = Vec::new();
        cand.push(pal.perc[hw.background as usize]);
        cand.push(pal.perc[hw.colors[0] as usize]);
        cand.push(pal.perc[hw.colors[1] as usize]);
        cand.push(pal.perc[hw.colors[2] as usize]);
        proof {
            assert(cand@ =~= subpal_perc(subpals@[g as int], pal.perc@));
        }
        let slot = passign[i] as usize;
        let (s, _d) = nearest_color(&cand, &reduced.colors[slot]);
        let entry = if s == 0 {
            hw.background as usize
        } else {
            hw.colors[s - 1] as usize
        };
        out.push(pal.rgb[entry]);
        proof {
            assert(entry < 64);
            assert(out@.last() == nes_rgb_spec(entry as int));
        }
        i += 1;
    }
    out
}

} // verus!
