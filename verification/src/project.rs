//! Project-model palette types: the 13-entry NES palette of a
//! metatileset, the per-image palette data of the manual workflow, and
//! level margins.  A palette entry here is an index into the 64-entry
//! hardware table, not a color value.

use vstd::prelude::*;

use crate::color::Rgb8;
use crate::nespal::{nes_rgb, nes_rgb_spec};
use vstd::arithmetic::div_mod::{lemma_fundamental_div_mod, lemma_multiply_divide_lt};
use vstd::arithmetic::mul::lemma_mul_inequality;

verus! {

/// A 13-color palette: entry 0 is the background color (or transparent
/// for sprites); entries are indices into the hardware table.
#[derive(Debug, Clone, PartialEq, Eq)]
pub struct Pallet {
    pub colors: [u32; 13],
}

impl Default for Pallet {
    /// The default grayscale-ish palette.
    fn default() -> (r: Self)
        ensures
            r.colors@ == seq![
                0x0fu32,
                0x2d,
                0x10,
                0x30,
                0x2d,
                0x10,
                0x30,
                0x2d,
                0x10,
                0x30,
                0x2d,
                0x10,
                0x30,
            ],
    {
        let colors: [u32; 13] = [
            0x0f,
            0x2d,
            0x10,
            0x30,
            0x2d,
            0x10,
            0x30,
            0x2d,
            0x10,
            0x30,
            0x2d,
            0x10,
            0x30,
        ];
        proof {
            assert(colors@ =~= seq![
                0x0fu32,
                0x2d,
                0x10,
                0x30,
                0x2d,
                0x10,
                0x30,
                0x2d,
                0x10,
                0x30,
                0x2d,
                0x10,
                0x30,
            ]);
        }
        Pallet { colors }
    }
}

impl Pallet {
    /// Returns the 4 sub-pallets of four colors each, mirroring the first
    /// of the 13 colors into the first color of every sub-pallet, just
    /// like the hardware does.
    pub fn get_sub_pallets(&self) -> (r: [[u32; 4]; 4])
        ensures
            forall|i: int| 0 <= i < 4 ==> (#[trigger] r@[i])@[0] == self.colors@[0],
            forall|i: int, j: int|
                0 <= i < 4 && 1 <= j < 4 ==> #[trigger] r@[i]@[j] == self.colors@[3 * i + j],
    {
        let c = &self.colors;
        let r: [[u32; 4]; 4] = [
            [c[0], c[1], c[2], c[3]],
            [c[0], c[4], c[5], c[6]],
            [c[0], c[7], c[8], c[9]],
            [c[0], c[10], c[11], c[12]],
        ];
        r
    }
}

/// Distance of a level's top, right, bottom and left edges from its
/// center, in tiles.
#[derive(Debug, Copy, Clone, PartialEq, Eq, Structural)]
pub struct LevelMargin {
    pub top: i32,
    pub right: i32,
    pub bottom: i32,
    pub left: i32,
}

impl Default for LevelMargin {
    fn default() -> (r: Self)
        ensures
            r.top == 8 && r.right == 8 && r.bottom == 8 && r.left == 8,
    {
        LevelMargin { top: 8, right: 8, bottom: 8, left: 8 }
    }
}

impl LevelMargin {
    /// Total width spanned by the margins.
    pub fn width(&self) -> (r: i32)
        requires
            i32::MIN <= self.left + self.right <= i32::MAX,
        ensures
            r == self.left + self.right,
    {
        self.left + self.right
    }

    /// Total height spanned by the margins.
    pub fn height(&self) -> (r: i32)
        requires
            i32::MIN <= self.top + self.bottom <= i32::MAX,
        ensures
            r == self.top + self.bottom,
    {
        self.top + self.bottom
    }
}

/// The manual workflow's palette data for one source image: 13 hardware
/// color indices plus the chosen sub-pallet of every tile.
#[derive(Debug, Clone, PartialEq, Eq)]
pub struct ImagePalletData {
    pub colors: [u8; 13],
    pub tile_pallets: Vec<u8>,
}

impl Default for ImagePalletData {
    /// A simple grayscale pallet and no tiles.
    fn default() -> (r: Self)
        ensures
            r.colors@ == seq![
                0x0Fu8,
                0x1D,
                0x2D,
                0x3D,
                0x1D,
                0x2D,
                0x3D,
                0x1D,
                0x2D,
                0x3D,
                0x1D,
                0x2D,
                0x3D,
            ],
            r.tile_pallets@.len() == 0,
    {
        let colors: [u8; 13] = [
            0x0F,
            0x1D,
            0x2D,
            0x3D,
            0x1D,
            0x2D,
            0x3D,
            0x1D,
            0x2D,
            0x3D,
            0x1D,
            0x2D,
            0x3D,
        ];
        proof {
            assert(colors@ =~= seq![
                0x0Fu8,
                0x1D,
                0x2D,
                0x3D,
                0x1D,
                0x2D,
                0x3D,
                0x1D,
                0x2D,
                0x3D,
                0x1D,
                0x2D,
                0x3D,
            ]);
        }
        ImagePalletData { colors, tile_pallets: Vec::new() }
    }
}

impl ImagePalletData {
    /// The 16-entry flattened palette: entry `4p + s` is color `s` of
    /// sub-pallet `p`, with the shared entry 0 mirrored into every
    /// sub-pallet's first slot.
    pub fn get_full_pallet_16(&self) -> (r: [u32; 16])
        ensures
            forall|p: int| 0 <= p < 4 ==> (#[trigger] r@[4 * p]) == self.colors@[0] as u32,
            forall|p: int, s: int|
                0 <= p < 4 && 1 <= s < 4 ==> (#[trigger] r@[4 * p + s]) == self.colors@[3 * p
                    + s] as u32,
    {
        let c = &self.colors;
        let r: [u32; 16] = [
            c[0] as u32,
            c[1] as u32,
            c[2] as u32,
            c[3] as u32,
            c[0] as u32,
            c[4] as u32,
            c[5] as u32,
            c[6] as u32,
            c[0] as u32,
            c[7] as u32,
            c[8] as u32,
            c[9] as u32,
            c[0] as u32,
            c[10] as u32,
            c[11] as u32,
            c[12] as u32,
        ];
        r
    }
}

/// Tile number of pixel `i` in the manual workflow's 16x16 tile grid.
pub open spec fn tile16_of_pixel(i: int, w: int) -> int {
    (i / w / 16) * (w / 16) + (i % w) / 16
}

/// A whole 16x16 tile grid.
pub open spec fn grid16_wf(w: int, h: int) -> bool {
    &&& w >= 16
    &&& h >= 16
    &&& w % 16 == 0
    &&& h % 16 == 0
}

/// Tile numbers of in-bounds pixels are in bounds.
proof fn lemma_tile16_bounds(i: int, w: int, h: int)
    requires
        grid16_wf(w, h),
        0 <= i < w * h,
    ensures
        0 <= tile16_of_pixel(i, w) < (w / 16) * (h / 16),
{
    let y = i / w;
    let x = i % w;
    let yt = y / 16;
    let tx = w / 16;
    let ty = h / 16;
    lemma_multiply_divide_lt(i, w, h);
    lemma_fundamental_div_mod(h, 16);
    lemma_fundamental_div_mod(w, 16);
    assert(y < 16 * ty);
    lemma_multiply_divide_lt(y, 16, ty);
    assert(x < 16 * tx);
    lemma_multiply_divide_lt(x, 16, tx);
    lemma_mul_inequality(yt, ty - 1, tx);
    assert(yt * tx >= 0) by (nonlinear_arith)
        requires
            yt >= 0,
            tx >= 0,
    ;
    assert((ty - 1) * tx == ty * tx - tx) by (nonlinear_arith);
    assert(ty * tx == tx * ty) by (nonlinear_arith);
}

/// The hardware entry the manual export gives a pixel: the entry of the
/// pixel's grayscale index within its tile's chosen sub-pallet.
pub open spec fn export_entry_spec(ids: Seq<u8>, pallet: ImagePalletData, w: int, i: int) -> int {
    let p = pallet.tile_pallets[tile16_of_pixel(i, w)] as int;
    let c = ids[i] as int;
    if c == 0 {
        pallet.colors@[0] as int
    } else {
        pallet.colors@[3 * p + c] as int
    }
}

/// Renders the manual workflow's export image: every pixel's grayscale
/// index is looked up in its 16x16 tile's chosen sub-pallet and resolved
/// through the hardware table.
pub fn render_export(ids: &Vec<u8>, pallet: &ImagePalletData, w: usize, h: usize) -> (out: Vec<
    Rgb8,
>)
    requires
        grid16_wf(w as int, h as int),
        ids@.len() == w * h,
        forall|i: int| 0 <= i < ids@.len() ==> (#[trigger] ids@[i]) < 4,
        pallet.tile_pallets@.len() == (w as int / 16) * (h as int / 16),
        forall|t: int|
            0 <= t < pallet.tile_pallets@.len() ==> (#[trigger] pallet.tile_pallets@[t]) < 4,
        forall|j: int| 0 <= j < 13 ==> (#[trigger] pallet.colors@[j]) < 64,
    ensures
        out@.len() == ids@.len(),
        forall|i: int|
            0 <= i < out@.len() ==> (#[trigger] out@[i]) == nes_rgb_spec(
                export_entry_spec(ids@, *pallet, w as int, i),
            ),
{
    let n_tiles = pallet.tile_pallets.len();
    let tx = w / 16;
    let mut out: Vec<Rgb8> = Vec::new();
    let mut i: usize = 0;
    while i < ids.len()
        invariant
            i <= ids@.len(),
            grid16_wf(w as int, h as int),
            tx == w as int / 16,
            ids@.len() == w * h,
            forall|p: int| 0 <= p < ids@.len() ==> (#[trigger] ids@[p]) < 4,
            n_tiles == pallet.tile_pallets@.len(),
            pallet.tile_pallets@.len() == (w as int / 16) * (h as int / 16),
            forall|t: int|
                0 <= t < pallet.tile_pallets@.len() ==> (#[trigger] pallet.tile_pallets@[t]) < 4,
            forall|j: int| 0 <= j < 13 ==> (#[trigger] pallet.colors@[j]) < 64,
            out@.len() == i,
            forall|p: int|
                0 <= p < i ==> (#[trigger] out@[p]) == nes_rgb_spec(
                    export_entry_spec(ids@, *pallet, w as int, p),
                ),
        decreases ids@.len() - i,
    {
        proof {
            lemma_tile16_bounds(i as int, w as int, h as int);
            assert((i as int / w as int / 16) * (w as int / 16) >= 0) by (nonlinear_arith)
                requires
                    i as int / w as int / 16 >= 0,
                    w as int / 16 >= 0,
            ;
            assert((i as int / w as int / 16) * (w as int / 16) <= tile16_of_pixel(
                i as int,
                w as int,
            ));
        }
        let t = (i / w / 16) * tx + (i % w) / 16;
        let p = pallet.tile_pallets[t] as usize;
        let c = ids[i] as usize;
        let entry = if c == 0 {
            pallet.colors[0]
        } else {
            pallet.colors[3 * p + c]
        };
        out.push(nes_rgb(entry as usize));
        i += 1;
    }
    out
}

/// Why a source image was rejected by the manual workflow.
#[derive(Clone, Copy, Debug, PartialEq, Eq, Structural)]
pub enum SourceError {
    /// Width or height is not a multiple of 16.
    BadDimensions,
    /// The image does not have exactly 4 distinct colors.
    WrongColorCount,
}

/// Whether `x` occurs in `s`.
pub open spec fn seq_has(s: Seq<Rgb8>, x: Rgb8) -> bool {
    exists|i: int| 0 <= i < s.len() && s[i] == x
}

/// Number of distinct colors in `s`.
pub open spec fn num_distinct(s: Seq<Rgb8>) -> int
    decreases s.len(),
{
    if s.len() == 0 {
        0
    } else {
        num_distinct(s.drop_last()) + if seq_has(s.drop_last(), s.last()) {
            0int
        } else {
            1int
        }
    }
}

/// Channel sum, the brightness ordering the manual workflow sorts by.
pub open spec fn rgb_sum(c: Rgb8) -> int {
    c.r + c.g + c.b
}

proof fn lemma_num_distinct_take_le(s: Seq<Rgb8>, i: int)
    requires
        0 <= i <= s.len(),
    ensures
        num_distinct(s.take(i)) <= num_distinct(s),
    decreases s.len() - i,
{
    if i == s.len() {
        assert(s.take(i) =~= s);
    } else {
        assert(s.take(i + 1).drop_last() =~= s.take(i));
        lemma_num_distinct_take_le(s, i + 1);
    }
}

fn contains_rgb(v: &Vec<Rgb8>, x: &Rgb8) -> (r: bool)
    ensures
        r <==> seq_has(v@, *x),
{
    let mut i: usize = 0;
    while i < v.len()
        invariant
            i <= v@.len(),
            forall|j: int| 0 <= j < i ==> v@[j] != *x,
        decreases v@.len() - i,
    {
        if v[i] == *x {
            return true;
        }
        i += 1;
    }
    false
}

fn rgb_sum_exec(c: &Rgb8) -> (s: u16)
    ensures
        s == rgb_sum(*c),
{
    c.r as u16 + c.g as u16 + c.b as u16
}

/// Validates a source image of the manual workflow and maps it to
/// grayscale indices: the image must be 16-aligned and use exactly 4
/// distinct colors; each pixel is replaced by the rank of its color in
/// brightness order (channel sum, darkest first).  Also returns the 4
/// distinct colors in that order.  Colors with equal sums keep an
/// arbitrary but fixed order, so ranks are by the returned order.
pub fn normalize_grayscale(pixels: &Vec<Rgb8>, w: usize, h: usize) -> (r: Result<
    (Vec<u8>, Vec<Rgb8>),
    SourceError,
>)
    requires
        pixels@.len() == w * h,
    ensures
        match r {
            Err(SourceError::BadDimensions) => w as int % 16 != 0 || h as int % 16 != 0,
            Err(SourceError::WrongColorCount) => w as int % 16 == 0 && h as int % 16 == 0
                && num_distinct(pixels@) != 4,
            Ok((ids, palette)) => {
                &&& w as int % 16 == 0
                &&& h as int % 16 == 0
                &&& num_distinct(pixels@) == 4
                &&& palette@.len() == 4
                &&& forall|j1: int, j2: int| 0 <= j1 < j2 < 4 ==> palette@[j1] != palette@[j2]
                &&& forall|j1: int, j2: int|
                    0 <= j1 < j2 < 4 ==> rgb_sum(palette@[j1]) <= rgb_sum(palette@[j2])
                &&& forall|j: int| 0 <= j < 4 ==> seq_has(pixels@, #[trigger] palette@[j])
                &&& ids@.len() == pixels@.len()
                &&& forall|i: int| 0 <= i < ids@.len() ==> (#[trigger] ids@[i]) < 4
                &&& forall|i: int|
                    0 <= i < ids@.len() ==> pixels@[i] == palette@[(#[trigger] ids@[i]) as int]
            },
        },
{
    if w % 16 != 0 || h % 16 != 0 {
        return Err(SourceError::BadDimensions);
    }
    // First pass: collect the distinct colors in first-occurrence order,
    // giving up as soon as a fifth one appears.
    let mut found: Vec<Rgb8> = Vec::new();
    let mut i: usize = 0;
    while i < pixels.len()
        invariant
            i <= pixels@.len(),
            w as int % 16 == 0,
            h as int % 16 == 0,
            forall|a: int, b: int| 0 <= a < b < found@.len() ==> found@[a] != found@[b],
            forall|x: Rgb8| #[trigger] seq_has(found@, x) <==> seq_has(pixels@.take(i as int), x),
            found@.len() == num_distinct(pixels@.take(i as int)),
            found@.len() <= 4,
        decreases pixels@.len() - i,
    {
        let p = pixels[i];
        proof {
            assert(pixels@.take(i + 1).drop_last() =~= pixels@.take(i as int));
            assert(pixels@.take(i + 1).last() == pixels@[i as int]);
        }
        if !contains_rgb(&found, &p) {
            if found.len() == 4 {
                proof {
                    assert(num_distinct(pixels@.take(i + 1)) == 5);
                    lemma_num_distinct_take_le(pixels@, i + 1);
                }
                return Err(SourceError::WrongColorCount);
            }
            let ghost old_found = found@;
            found.push(p);
            proof {
                assert forall|x: Rgb8| #[trigger]
                    seq_has(found@, x) <==> seq_has(pixels@.take(i + 1), x) by {
                    if seq_has(found@, x) {
                        let j = choose|j: int| 0 <= j < found@.len() && found@[j] == x;
                        if j < old_found.len() {
                            assert(seq_has(old_found, x));
                        } else {
                            assert(x == p);
                            assert(pixels@.take(i + 1)[i as int] == p);
                        }
                        assert(seq_has(pixels@.take(i + 1), x));
                    }
                    if seq_has(pixels@.take(i + 1), x) {
                        let j = choose|j: int|
                            0 <= j < pixels@.take(i + 1).len() && #[trigger] pixels@.take(
                                i + 1,
                            )[j] == x;
                        if j < i {
                            assert(seq_has(pixels@.take(i as int), x));
                            assert(seq_has(old_found, x));
                            let k = choose|k: int|
                                0 <= k < old_found.len() && old_found[k] == x;
                            assert(found@[k] == x);
                        } else {
                            assert(x == p);
                            assert(found@.last() == p);
                        }
                        assert(seq_has(found@, x));
                    }
                };
            }
        } else {
            proof {
                assert forall|x: Rgb8| #[trigger]
                    seq_has(found@, x) <==> seq_has(pixels@.take(i + 1), x) by {
                    if seq_has(pixels@.take(i + 1), x) {
                        let j = choose|j: int|
                            0 <= j < pixels@.take(i + 1).len() && #[trigger] pixels@.take(
                                i + 1,
                            )[j] == x;
                        if j < i {
                            assert(seq_has(pixels@.take(i as int), x));
                        } else {
                            assert(x == p);
                        }
                    }
                    if seq_has(found@, x) {
                        assert(seq_has(pixels@.take(i as int), x));
                        let j = choose|j: int|
                            0 <= j < pixels@.take(i as int).len() && pixels@.take(i as int)[j]
                                == x;
                        assert(pixels@.take(i + 1)[j] == x);
                    }
                };
            }
        }
        i += 1;
    }
    proof {
        assert(pixels@.take(pixels@.len() as int) =~= pixels@);
    }
    if found.len() != 4 {
        return Err(SourceError::WrongColorCount);
    }
    // Second pass: order the 4 colors by brightness, extracting a minimum
    // at a time.
    let ghost all = found@;
    let mut rest = found;
    let mut palette: Vec<Rgb8> = Vec::new();
    while rest.len() > 0
        invariant
            palette@.len() + rest@.len() == 4,
            forall|a: int, b: int| 0 <= a < b < rest@.len() ==> rest@[a] != rest@[b],
            forall|a: int, b: int| 0 <= a < b < palette@.len() ==> palette@[a] != palette@[b],
            forall|a: int, b: int|
                0 <= a < palette@.len() && 0 <= b < rest@.len() ==> palette@[a] != rest@[b],
            forall|x: Rgb8| #[trigger]
                seq_has(all, x) <==> (seq_has(palette@, x) || seq_has(rest@, x)),
            forall|a: int, b: int|
                0 <= a < b < palette@.len() ==> rgb_sum(palette@[a]) <= rgb_sum(palette@[b]),
            forall|a: int, b: int|
                0 <= a < palette@.len() && 0 <= b < rest@.len() ==> rgb_sum(palette@[a])
                    <= rgb_sum(rest@[b]),
        decreases rest@.len(),
    {
        let mut m: usize = 0;
        let mut j: usize = 1;
        while j < rest.len()
            invariant
                1 <= j <= rest@.len(),
                m < j,
                forall|t: int| 0 <= t < j ==> rgb_sum(rest@[m as int]) <= rgb_sum(#[trigger] rest@[t]),
            decreases rest@.len() - j,
        {
            if rgb_sum_exec(&rest[j]) < rgb_sum_exec(&rest[m]) {
                m = j;
            }
            j += 1;
        }
        let ghost old_rest = rest@;
        let ghost old_palette = palette@;
        let v = rest.remove(m);
        palette.push(v);
        proof {
            assert(palette@.drop_last() =~= old_palette);
            assert forall|x: Rgb8| #[trigger]
                seq_has(all, x) <==> (seq_has(palette@, x) || seq_has(rest@, x)) by {
                if seq_has(all, x) {
                    if x == v {
                        assert(palette@.last() == v);
                        assert(seq_has(palette@, x));
                    } else if seq_has(old_rest, x) {
                        let j = choose|j: int| 0 <= j < old_rest.len() && old_rest[j] == x;
                        if j < m {
                            assert(rest@[j] == x);
                        } else {
                            assert(j > m);
                            assert(rest@[j - 1] == x);
                        }
                        assert(seq_has(rest@, x));
                    } else {
                        assert(seq_has(old_palette, x));
                        let k = choose|k: int| 0 <= k < old_palette.len() && old_palette[k] == x;
                        assert(palette@[k] == x);
                        assert(seq_has(palette@, x));
                    }
                }
                if seq_has(rest@, x) {
                    let j = choose|j: int| 0 <= j < rest@.len() && rest@[j] == x;
                    if j < m {
                        assert(old_rest[j] == x);
                    } else {
                        assert(old_rest[j + 1] == x);
                    }
                    assert(seq_has(old_rest, x));
                    assert(seq_has(all, x));
                }
                if seq_has(palette@, x) {
                    if x == v {
                        assert(seq_has(old_rest, x));
                        assert(seq_has(all, x));
                    } else {
                        assert(seq_has(old_palette, x));
                        assert(seq_has(all, x));
                    }
                }
            };
            assert forall|a: int, b: int|
                0 <= a < palette@.len() && 0 <= b < rest@.len() implies palette@[a] != rest@[b]
                && rgb_sum(palette@[a]) <= rgb_sum(rest@[b]) by {
                if b < m {
                    assert(rest@[b] == old_rest[b]);
                } else {
                    assert(rest@[b] == old_rest[b + 1]);
                }
            };
            assert forall|a: int, b: int|
                0 <= a < b < rest@.len() implies rest@[a] != rest@[b] by {
                let a2: int = if a < m {
                    a
                } else {
                    a + 1
                };
                let b2: int = if b < m {
                    b
                } else {
                    b + 1
                };
                assert(rest@[a] == old_rest[a2]);
                assert(rest@[b] == old_rest[b2]);
            };
        }
    }
    // Third pass: replace every pixel by its color's rank.
    let mut ids: Vec<u8> = Vec::new();
    let mut i: usize = 0;
    while i < pixels.len()
        invariant
            i <= pixels@.len(),
            w as int % 16 == 0,
            h as int % 16 == 0,
            num_distinct(pixels@) == 4,
            palette@.len() == 4,
            forall|x: Rgb8| #[trigger] seq_has(all, x) <==> seq_has(palette@, x),
            forall|x: Rgb8| #[trigger] seq_has(all, x) <==> seq_has(pixels@, x),
            ids@.len() == i,
            forall|t: int| 0 <= t < i ==> (#[trigger] ids@[t]) < 4,
            forall|t: int|
                0 <= t < i ==> pixels@[t] == palette@[(#[trigger] ids@[t]) as int],
        decreases pixels@.len() - i,
    {
        let p = pixels[i];
        let mut k: usize = 0;
        let mut id: u8 = 4;
        while k < 4
            invariant
                k <= 4,
                id <= 4,
                palette@.len() == 4,
                id == 4 ==> forall|t: int| 0 <= t < k ==> palette@[t] != p,
                id < 4 ==> palette@[id as int] == p,
            decreases 4 - k,
        {
            if palette[k] == p {
                id = k as u8;
                proof {
                    assert(palette@[id as int] == p);
                }
                k = 4;
            } else {
                k += 1;
            }
        }
        if id == 4 {
            proof {
                assert(pixels@[i as int] == p);
                assert(seq_has(pixels@, p));
                assert(seq_has(all, p));
                assert(seq_has(palette@, p));
                assert(false);
            }
        }
        ids.push(id);
        i += 1;
    }
    proof {
        assert forall|j: int| 0 <= j < 4 implies seq_has(pixels@, #[trigger] palette@[j]) by {
            assert(palette@[j] == palette@[j]);
            assert(seq_has(palette@, palette@[j]));
            assert(seq_has(all, palette@[j]));
        };
    }
    Ok((ids, palette))
}

} // verus!

