//! The single "convert" entry point: runs the whole quantization pipeline
//! on a decoded RGB pixel buffer and returns either the full result or a
//! typed error naming what was wrong with the input.  No partial results
//! are returned on failure.

use vstd::prelude::*;

use crate::background::{
    bg_new_index, lemma_assignment_counts, lemma_remap_counts, lemma_weight_is_assigned_count,
    remap_assignment, select_background, weight_spec, ReducedPalette,
};
use crate::cluster::{reduce_colors, CLUSTER_COUNT};
use crate::color::{dist_spec, nearest_idx, perc_of_rgb_spec, rgb_to_perceptual, PColor, Rgb8};
use crate::histogram::{count_of, entries_count, ColorHistogram};
use crate::mapper::{map_palette, HardwareSubpalette};
use crate::nespal::{in_nes_table, nes_perc_table, NesPalette};
use crate::requant::{requant_pixel_spec, requantize};
use crate::selector::{assign_miss, lemma_miss_count_by_assign, miss_count, select_tile_palettes};
use crate::subpalette::{assign_groups, SubpaletteGroups};
use crate::tiles::{build_adjacency, build_tile_sets, grid_wf, lemma_grid_le};

verus! {

/// Why the pipeline rejected its input.
#[derive(Clone, Copy, Debug, PartialEq, Eq, Structural)]
pub enum ConvertError {
    /// Image width or height is not a multiple of 8, so the tile grid is
    /// undefined.
    BadDimensions,
    /// The image has no pixels, so clustering cannot proceed.
    EmptyImage,
}

/// The full result of one conversion.
pub struct Quantized {
    /// The 13 reduced colors; slot 0 is the background.
    pub palette: ReducedPalette,
    /// The partition of the 12 foreground slots into 4 groups of 3.
    pub groups: SubpaletteGroups,
    /// The 4 hardware subpalettes (indices into the 64-color table).
    pub subpalettes: Vec<HardwareSubpalette>,
    /// Chosen subpalette of every tile, row-major.
    pub tile_assignment: Vec<u8>,
    /// Reduced-palette slot of every pixel.
    pub pixel_slots: Vec<u8>,
    /// The requantized image, one hardware color per pixel.
    pub pixels: Vec<Rgb8>,
    pub width: usize,
    pub height: usize,
}

impl Quantized {
    /// Everything the pipeline promises of a successful conversion.
    pub open spec fn wf(&self) -> bool {
        &&& self.palette.wf()
        &&& self.groups.wf()
        &&& self.subpalettes@.len() == 4
        &&& forall|k: int| 0 <= k < 4 ==> (#[trigger] self.subpalettes@[k]).wf()
        &&& forall|k: int|
            0 <= k < 4 ==> (#[trigger] self.subpalettes@[k]).background
                == self.subpalettes@[0].background
        &&& self.tile_assignment@.len() == (self.width as int / 8) * (self.height as int / 8)
        &&& forall|t: int|
            0 <= t < self.tile_assignment@.len() ==> (#[trigger] self.tile_assignment@[t]) < 4
        &&& self.pixel_slots@.len() == self.width * self.height
        &&& forall|i: int|
            0 <= i < self.pixel_slots@.len() ==> (#[trigger] self.pixel_slots@[i])
                < CLUSTER_COUNT as u8
        &&& self.pixels@.len() == self.width * self.height
        &&& forall|i: int| 0 <= i < self.pixels@.len() ==> in_nes_table(#[trigger] self.pixels@[i])
    }
}

/// Converts every pixel to the perceptual space.
pub fn to_perceptual(pixels: &Vec<Rgb8>) -> (perc: Vec<PColor>)
    ensures
        perc@.len() == pixels@.len(),
        forall|i: int|
            0 <= i < pixels@.len() ==> (#[trigger] perc@[i]) == perc_of_rgb_spec(pixels@[i]),
        crate::color::all_wf(perc@),
{
    let mut perc: Vec<PColor> = Vec::new();
    let mut i: usize = 0;
    while i < pixels.len()
        invariant
            i <= pixels@.len(),
            perc@.len() == i,
            forall|j: int|
                0 <= j < i ==> (#[trigger] perc@[j]) == perc_of_rgb_spec(pixels@[j]),
            crate::color::all_wf(perc@),
        decreases pixels@.len() - i,
    {
        perc.push(rgb_to_perceptual(pixels[i]));
        i += 1;
    }
    perc
}

/// Runs the whole pipeline: perceptual conversion, histogram, best-of-N
/// clustering, background selection, tile analysis, greedy grouping,
/// hardware mapping, per-tile subpalette choice, and requantization.
///
/// The input is rejected, before any component runs, when a dimension is
/// not a multiple of 8 or the image is empty; exactly then an error comes
/// back.  `seed` drives the clustering attempts; the result is
/// deterministic for a fixed seed but not required to match across seeds.
pub fn convert(pixels: &Vec<Rgb8>, w: usize, h: usize, seed: u64) -> (r: Result<
    Quantized,
    ConvertError,
>)
    requires
        pixels@.len() == w * h,
        13 * (w * h) <= usize::MAX,
    ensures
        match r {
            Ok(q) => {
                &&& w as int % 8 == 0
                &&& h as int % 8 == 0
                &&& pixels@.len() > 0
                &&& q.width == w
                &&& q.height == h
                &&& q.wf()
                &&& forall|k: int|
                    0 <= k < 4 ==> (#[trigger] q.subpalettes@[k]).background as int == nearest_idx(
                        nes_perc_table(),
                        q.palette.colors@[0],
                    )
                &&& forall|k: int, s: int|
                    0 <= k < 4 && 0 <= s < 3 ==> (#[trigger] q.subpalettes@[k].colors@[s]) as int
                        == nearest_idx(nes_perc_table(), q.palette.colors@[q.groups.member(k, s)])
                &&& forall|j: u8|
                    j < 13 ==> #[trigger] count_of(q.pixel_slots@, j) <= count_of(
                        q.pixel_slots@,
                        0u8,
                    )
                &&& forall|i: int, j: int|
                    0 <= i < q.pixel_slots@.len() && 0 <= j < 13 ==> dist_spec(
                        perc_of_rgb_spec(pixels@[i]),
                        q.palette.colors@[q.pixel_slots@[i] as int],
                    ) <= #[trigger] dist_spec(perc_of_rgb_spec(pixels@[i]), q.palette.colors@[j])
                &&& forall|t: int, g: int|
                    0 <= t < q.tile_assignment@.len() && 0 <= g < 4 ==> assign_miss(
                        q.pixel_slots@,
                        w as int,
                        q.groups,
                        t,
                        q.tile_assignment@[t] as int,
                    ) <= #[trigger] assign_miss(q.pixel_slots@, w as int, q.groups, t, g)
                &&& forall|i: int|
                    0 <= i < q.pixels@.len() ==> (#[trigger] q.pixels@[i]) == requant_pixel_spec(
                        q.pixel_slots@,
                        q.tile_assignment@,
                        q.subpalettes@,
                        q.palette,
                        nes_perc_table(),
                        w as int,
                        i,
                    )
            },
            Err(ConvertError::BadDimensions) => w as int % 8 != 0 || h as int % 8 != 0,
            Err(ConvertError::EmptyImage) => w as int % 8 == 0 && h as int % 8 == 0
                && pixels@.len() == 0,
        },
{
    if w % 8 != 0 || h % 8 != 0 {
        return Err(ConvertError::BadDimensions);
    }
    if pixels.len() == 0 {
        return Err(ConvertError::EmptyImage);
    }
    proof {
        assert(w >= 8 && h >= 8) by {
            assert(w != 0 && h != 0) by {
                if w == 0 || h == 0 {
                    assert(w * h == 0) by (nonlinear_arith)
                        requires
                            w == 0 || h == 0,
                    ;
                }
            };
        };
        lemma_grid_le(w as int, h as int);
    }
    let perc = to_perceptual(pixels);
    let hist = ColorHistogram::build(&perc);
    let clustering = reduce_colors(&perc, seed);
    let (palette, bg) = select_background(&clustering.centroids, &hist);
    let slots = remap_assignment(&clustering.assignment, bg);
    proof {
        assert forall|i: int, j: int|
            0 <= i < slots@.len() && 0 <= j < 13 implies dist_spec(
            perc_of_rgb_spec(pixels@[i]),
            palette.colors@[slots@[i] as int],
        ) <= #[trigger] dist_spec(perc_of_rgb_spec(pixels@[i]), palette.colors@[j]) by {
            let pc = perc@[i];
            crate::color::lemma_nearest_idx_is_nearest(clustering.centroids@, pc);
            let a = clustering.assignment@[i] as int;
            assert(slots@[i] as int == bg_new_index(a, bg as int));
            assert(palette.colors@[bg_new_index(a, bg as int)] == clustering.centroids@[a]);
            let old = if j == 0 {
                bg as int
            } else if j <= bg {
                j - 1
            } else {
                j
            };
            assert(bg_new_index(old, bg as int) == j);
            assert(palette.colors@[j] == clustering.centroids@[old]);
            assert(dist_spec(pc, clustering.centroids@[a]) <= dist_spec(
                pc,
                clustering.centroids@[old],
            ));
        };
    }
    proof {
        assert forall|c: PColor| #[trigger]
            entries_count(hist.entries@, c) == count_of(perc@, c) by {
            assert(hist.spec_count(c) == count_of(perc@, c));
        };
        assert forall|j: u8| j < 13 implies #[trigger] count_of(slots@, j) <= count_of(
            slots@,
            0u8,
        ) by {
            let bi = bg as int;
            let o: int = if j == 0 {
                bi
            } else if j as int <= bi {
                j as int - 1
            } else {
                j as int
            };
            assert(bg_new_index(o, bi) == j as int);
            assert(bg_new_index(bi, bi) == 0);
            lemma_weight_is_assigned_count(hist.entries@, perc@, clustering.centroids@, o);
            lemma_weight_is_assigned_count(hist.entries@, perc@, clustering.centroids@, bi);
            lemma_assignment_counts(perc@, clustering.centroids@, clustering.assignment@, o);
            lemma_assignment_counts(perc@, clustering.centroids@, clustering.assignment@, bi);
            lemma_remap_counts(clustering.assignment@, slots@, bi, o);
            lemma_remap_counts(clustering.assignment@, slots@, bi, bi);
            assert(weight_spec(hist.entries@, clustering.centroids@, bi) >= weight_spec(
                hist.entries@,
                clustering.centroids@,
                o,
            ));
        };
    }
    let sets = build_tile_sets(&slots, w, h);
    let tx = w / 8;
    let ty = h / 8;
    let n_tiles = tx * ty;
    let adj = build_adjacency(&sets, n_tiles);
    let groups = assign_groups(&adj);
    let pal = NesPalette::new();
    let subpalettes = map_palette(&palette, &groups, &pal);
    let tile_assignment = select_tile_palettes(&sets, n_tiles, &groups);
    proof {
        assert forall|t: int, g: int|
            0 <= t < tile_assignment@.len() && 0 <= g < 4 implies assign_miss(
            slots@,
            w as int,
            groups,
            t,
            tile_assignment@[t] as int,
        ) <= #[trigger] assign_miss(slots@, w as int, groups, t, g) by {
            lemma_miss_count_by_assign(
                sets@,
                slots@,
                w as int,
                groups,
                t,
                tile_assignment@[t] as int,
                13,
            );
            lemma_miss_count_by_assign(sets@, slots@, w as int, groups, t, g, 13);
            assert(miss_count(sets@, groups, t, tile_assignment@[t] as int) <= miss_count(
                sets@,
                groups,
                t,
                g,
            ));
        };
    }
    let out = requantize(&slots, &tile_assignment, &subpalettes, &palette, &pal, w, h);
    Ok(
        Quantized {
            palette,
            groups,
            subpalettes,
            tile_assignment,
            pixel_slots: slots,
            pixels: out,
            width: w,
            height: h,
        },
    )
}

} // verus!
