//! The fixed 64-entry NES hardware palette.
//!
//! The table is a build-time asset: a versioned constant list of the 64
//! colors the NES video hardware can display, held both in gamma-encoded
//! RGB form and, precomputed once at construction, in perceptual form for
//! nearest-neighbor search.

use vstd::prelude::*;

use crate::color::{
    all_wf, dist_spec, is_nearest, nearest_color, pc_wf, perc_of_rgb_spec, rgb_to_perceptual,
    PColor, Rgb8,
};

verus! {

/// RGB value of hardware palette entry `i`.
pub open spec fn nes_rgb_spec(i: int) -> Rgb8 {
    if i == 0 {
        Rgb8 { r: 128, g: 128, b: 128 }
    } else if i == 1 {
        Rgb8 { r: 0, g: 61, b: 166 }
    } else if i == 2 {
        Rgb8 { r: 0, g: 18, b: 176 }
    } else if i == 3 {
        Rgb8 { r: 68, g: 0, b: 150 }
    } else if i == 4 {
        Rgb8 { r: 161, g: 0, b: 94 }
    } else if i == 5 {
        Rgb8 { r: 199, g: 0, b: 40 }
    } else if i == 6 {
        Rgb8 { r: 186, g: 6, b: 0 }
    } else if i == 7 {
        Rgb8 { r: 140, g: 23, b: 0 }
    } else if i == 8 {
        Rgb8 { r: 92, g: 47, b: 0 }
    } else if i == 9 {
        Rgb8 { r: 16, g: 69, b: 0 }
    } else if i == 10 {
        Rgb8 { r: 5, g: 74, b: 0 }
    } else if i == 11 {
        Rgb8 { r: 0, g: 71, b: 46 }
    } else if i == 12 {
        Rgb8 { r: 0, g: 65, b: 102 }
    } else if i == 13 {
        Rgb8 { r: 3, g: 3, b: 3 }
    } else if i == 14 {
        Rgb8 { r: 3, g: 3, b: 3 }
    } else if i == 15 {
        Rgb8 { r: 3, g: 3, b: 3 }
    } else if i == 16 {
        Rgb8 { r: 199, g: 199, b: 199 }
    } else if i == 17 {
        Rgb8 { r: 0, g: 119, b: 255 }
    } else if i == 18 {
        Rgb8 { r: 33, g: 85, b: 255 }
    } else if i == 19 {
        Rgb8 { r: 130, g: 55, b: 250 }
    } else if i == 20 {
        Rgb8 { r: 235, g: 47, b: 181 }
    } else if i == 21 {
        Rgb8 { r: 255, g: 41, b: 80 }
    } else if i == 22 {
        Rgb8 { r: 255, g: 34, b: 0 }
    } else if i == 23 {
        Rgb8 { r: 214, g: 50, b: 0 }
    } else if i == 24 {
        Rgb8 { r: 196, g: 98, b: 0 }
    } else if i == 25 {
        Rgb8 { r: 53, g: 128, b: 0 }
    } else if i == 26 {
        Rgb8 { r: 5, g: 143, b: 0 }
    } else if i == 27 {
        Rgb8 { r: 0, g: 138, b: 85 }
    } else if i == 28 {
        Rgb8 { r: 0, g: 153, b: 204 }
    } else if i == 29 {
        Rgb8 { r: 33, g: 33, b: 33 }
    } else if i == 30 {
        Rgb8 { r: 3, g: 3, b: 3 }
    } else if i == 31 {
        Rgb8 { r: 3, g: 3, b: 3 }
    } else if i == 32 {
        Rgb8 { r: 255, g: 255, b: 255 }
    } else if i == 33 {
        Rgb8 { r: 15, g: 215, b: 255 }
    } else if i == 34 {
        Rgb8 { r: 105, g: 162, b: 255 }
    } else if i == 35 {
        Rgb8 { r: 212, g: 128, b: 255 }
    } else if i == 36 {
        Rgb8 { r: 255, g: 69, b: 243 }
    } else if i == 37 {
        Rgb8 { r: 255, g: 97, b: 139 }
    } else if i == 38 {
        Rgb8 { r: 255, g: 136, b: 51 }
    } else if i == 39 {
        Rgb8 { r: 255, g: 156, b: 18 }
    } else if i == 40 {
        Rgb8 { r: 250, g: 188, b: 32 }
    } else if i == 41 {
        Rgb8 { r: 159, g: 227, b: 14 }
    } else if i == 42 {
        Rgb8 { r: 43, g: 240, b: 53 }
    } else if i == 43 {
        Rgb8 { r: 12, g: 240, b: 164 }
    } else if i == 44 {
        Rgb8 { r: 5, g: 251, b: 255 }
    } else if i == 45 {
        Rgb8 { r: 94, g: 94, b: 94 }
    } else if i == 46 {
        Rgb8 { r: 13, g: 13, b: 13 }
    } else if i == 47 {
        Rgb8 { r: 13, g: 13, b: 13 }
    } else if i == 48 {
        Rgb8 { r: 255, g: 255, b: 255 }
    } else if i == 49 {
        Rgb8 { r: 166, g: 252, b: 255 }
    } else if i == 50 {
        Rgb8 { r: 179, g: 236, b: 255 }
    } else if i == 51 {
        Rgb8 { r: 218, g: 171, b: 235 }
    } else if i == 52 {
        Rgb8 { r: 255, g: 168, b: 249 }
    } else if i == 53 {
        Rgb8 { r: 255, g: 171, b: 179 }
    } else if i == 54 {
        Rgb8 { r: 255, g: 210, b: 176 }
    } else if i == 55 {
        Rgb8 { r: 255, g: 239, b: 166 }
    } else if i == 56 {
        Rgb8 { r: 255, g: 247, b: 156 }
    } else if i == 57 {
        Rgb8 { r: 215, g: 232, b: 149 }
    } else if i == 58 {
        Rgb8 { r: 166, g: 237, b: 157 }
    } else if i == 59 {
        Rgb8 { r: 162, g: 242, b: 218 }
    } else if i == 60 {
        Rgb8 { r: 153, g: 255, b: 252 }
    } else if i == 61 {
        Rgb8 { r: 221, g: 221, b: 221 }
    } else if i == 62 {
        Rgb8 { r: 17, g: 17, b: 17 }
    } else {
        Rgb8 { r: 17, g: 17, b: 17 }
    }
}

/// The 64 RGB entries as a sequence.
pub open spec fn nes_rgb_table() -> Seq<Rgb8> {
    Seq::new(64, |i: int| nes_rgb_spec(i))
}

/// The perceptual form of the 64 entries.
pub open spec fn nes_perc_table() -> Seq<PColor> {
    Seq::new(64, |i: int| perc_of_rgb_spec(nes_rgb_spec(i)))
}

/// Whether a color is exactly one of the 64 hardware table entries.
pub open spec fn in_nes_table(c: Rgb8) -> bool {
    exists|k: int| 0 <= k < 64 && c == nes_rgb_spec(k)
}

/// RGB value of hardware palette entry `i`, executable form.
pub fn nes_rgb(i: usize) -> (c: Rgb8)
    requires
        i < 64,
    ensures
        c == nes_rgb_spec(i as int),
{
    match i {
        0 => Rgb8 { r: 128, g: 128, b: 128 },
        1 => Rgb8 { r: 0, g: 61, b: 166 },
        2 => Rgb8 { r: 0, g: 18, b: 176 },
        3 => Rgb8 { r: 68, g: 0, b: 150 },
        4 => Rgb8 { r: 161, g: 0, b: 94 },
        5 => Rgb8 { r: 199, g: 0, b: 40 },
        6 => Rgb8 { r: 186, g: 6, b: 0 },
        7 => Rgb8 { r: 140, g: 23, b: 0 },
        8 => Rgb8 { r: 92, g: 47, b: 0 },
        9 => Rgb8 { r: 16, g: 69, b: 0 },
        10 => Rgb8 { r: 5, g: 74, b: 0 },
        11 => Rgb8 { r: 0, g: 71, b: 46 },
        12 => Rgb8 { r: 0, g: 65, b: 102 },
        13 => Rgb8 { r: 3, g: 3, b: 3 },
        14 => Rgb8 { r: 3, g: 3, b: 3 },
        15 => Rgb8 { r: 3, g: 3, b: 3 },
        16 => Rgb8 { r: 199, g: 199, b: 199 },
        17 => Rgb8 { r: 0, g: 119, b: 255 },
        18 => Rgb8 { r: 33, g: 85, b: 255 },
        19 => Rgb8 { r: 130, g: 55, b: 250 },
        20 => Rgb8 { r: 235, g: 47, b: 181 },
        21 => Rgb8 { r: 255, g: 41, b: 80 },
        22 => Rgb8 { r: 255, g: 34, b: 0 },
        23 => Rgb8 { r: 214, g: 50, b: 0 },
        24 => Rgb8 { r: 196, g: 98, b: 0 },
        25 => Rgb8 { r: 53, g: 128, b: 0 },
        26 => Rgb8 { r: 5, g: 143, b: 0 },
        27 => Rgb8 { r: 0, g: 138, b: 85 },
        28 => Rgb8 { r: 0, g: 153, b: 204 },
        29 => Rgb8 { r: 33, g: 33, b: 33 },
        30 => Rgb8 { r: 3, g: 3, b: 3 },
        31 => Rgb8 { r: 3, g: 3, b: 3 },
        32 => Rgb8 { r: 255, g: 255, b: 255 },
        33 => Rgb8 { r: 15, g: 215, b: 255 },
        34 => Rgb8 { r: 105, g: 162, b: 255 },
        35 => Rgb8 { r: 212, g: 128, b: 255 },
        36 => Rgb8 { r: 255, g: 69, b: 243 },
        37 => Rgb8 { r: 255, g: 97, b: 139 },
        38 => Rgb8 { r: 255, g: 136, b: 51 },
        39 => Rgb8 { r: 255, g: 156, b: 18 },
        40 => Rgb8 { r: 250, g: 188, b: 32 },
        41 => Rgb8 { r: 159, g: 227, b: 14 },
        42 => Rgb8 { r: 43, g: 240, b: 53 },
        43 => Rgb8 { r: 12, g: 240, b: 164 },
        44 => Rgb8 { r: 5, g: 251, b: 255 },
        45 => Rgb8 { r: 94, g: 94, b: 94 },
        46 => Rgb8 { r: 13, g: 13, b: 13 },
        47 => Rgb8 { r: 13, g: 13, b: 13 },
        48 => Rgb8 { r: 255, g: 255, b: 255 },
        49 => Rgb8 { r: 166, g: 252, b: 255 },
        50 => Rgb8 { r: 179, g: 236, b: 255 },
        51 => Rgb8 { r: 218, g: 171, b: 235 },
        52 => Rgb8 { r: 255, g: 168, b: 249 },
        53 => Rgb8 { r: 255, g: 171, b: 179 },
        54 => Rgb8 { r: 255, g: 210, b: 176 },
        55 => Rgb8 { r: 255, g: 239, b: 166 },
        56 => Rgb8 { r: 255, g: 247, b: 156 },
        57 => Rgb8 { r: 215, g: 232, b: 149 },
        58 => Rgb8 { r: 166, g: 237, b: 157 },
        59 => Rgb8 { r: 162, g: 242, b: 218 },
        60 => Rgb8 { r: 153, g: 255, b: 252 },
        61 => Rgb8 { r: 221, g: 221, b: 221 },
        62 => Rgb8 { r: 17, g: 17, b: 17 },
        _ => Rgb8 { r: 17, g: 17, b: 17 },
    }
}

/// The hardware palette, with the perceptual form of every entry
/// precomputed for nearest-neighbor search.
pub struct NesPalette {
    pub rgb: Vec<Rgb8>,
    pub perc: Vec<PColor>,
}

impl NesPalette {
    pub open spec fn wf(&self) -> bool {
        &&& self.rgb@ == nes_rgb_table()
        &&& self.perc@ == nes_perc_table()
        &&& all_wf(self.perc@)
    }

    /// Builds the table; the data never changes afterwards.
    pub fn new() -> (p: Self)
        ensures
            p.wf(),
    {
        let mut rgb: Vec<Rgb8> = Vec::new();
        let mut perc: Vec<PColor> = Vec::new();
        let mut i: usize = 0;
        while i < 64
            invariant
                i <= 64,
                rgb@.len() == i,
                perc@.len() == i,
                forall|j: int| 0 <= j < i ==> rgb@[j] == nes_rgb_spec(j),
                forall|j: int| 0 <= j < i ==> perc@[j] == perc_of_rgb_spec(nes_rgb_spec(j)),
                all_wf(perc@),
            decreases 64 - i,
        {
            let c = nes_rgb(i);
            rgb.push(c);
            perc.push(rgb_to_perceptual(c));
            i += 1;
        }
        proof {
            assert(rgb@ =~= nes_rgb_table());
            assert(perc@ =~= nes_perc_table());
        }
        NesPalette { rgb, perc }
    }

    /// Linear scan over all 64 entries picking the minimum perceptual
    /// distance; ties broken by lowest index.
    pub fn nearest(&self, x: &PColor) -> (res: (usize, u64))
        requires
            self.wf(),
            pc_wf(*x),
        ensures
            res.0 < 64,
            res.0 as int == crate::color::nearest_idx(self.perc@, *x),
            is_nearest(self.perc@, *x, res.0 as int),
            res.1 == dist_spec(*x, self.perc@[res.0 as int]),
    {
        nearest_color(&self.perc, x)
    }
}

} // verus!
