//! End-to-end and component tests of the quantization engine.

use nesimg::background::select_background;
use nesimg::cluster::{pick_best, reduce_colors, Clustering, SeededRng};
use nesimg::color::{rgb_to_perceptual, PColor, Rgb8};
use nesimg::histogram::ColorHistogram;
use nesimg::nespal::NesPalette;
use nesimg::pipeline::{convert, to_perceptual, ConvertError};
use nesimg::selector::{select_tile_palettes, tile_miss};
use nesimg::subpalette::{assign_groups, SubpaletteGroups};

fn rgb(r: u8, g: u8, b: u8) -> Rgb8 {
    Rgb8 { r, g, b }
}

/// 13 visibly distinct colors, far apart in any reasonable color space.
fn thirteen_colors() -> Vec<Rgb8> {
    vec![
        rgb(0, 0, 0),
        rgb(255, 255, 255),
        rgb(255, 0, 0),
        rgb(0, 255, 0),
        rgb(0, 0, 255),
        rgb(255, 255, 0),
        rgb(0, 255, 255),
        rgb(255, 0, 255),
        rgb(128, 64, 0),
        rgb(0, 128, 128),
        rgb(128, 0, 200),
        rgb(200, 128, 64),
        rgb(64, 200, 128),
    ]
}

/// A flat per-tile slot table for one tile with the given slots present.
fn one_tile_sets(slots: &[u8]) -> Vec<bool> {
    let mut sets = vec![false; 13];
    for &s in slots {
        sets[s as usize] = true;
    }
    sets
}

fn groups_in_order() -> SubpaletteGroups {
    SubpaletteGroups { members: vec![1, 2, 3, 4, 5, 6, 7, 8, 9, 10, 11, 12] }
}

#[test]
fn output_color_domain() {
    // Every pixel of the output image is exactly one of the 64 hardware
    // table entries.
    let mut pixels = Vec::new();
    for i in 0..(16 * 16) {
        let v = (i * 37 % 256) as u8;
        let w = (i * 101 % 256) as u8;
        pixels.push(rgb(v, w, (255 - v) / 2));
    }
    let q = convert(&pixels, 16, 16, 7).expect("convert");
    let pal = NesPalette::new();
    for p in &q.pixels {
        assert!(pal.rgb.iter().any(|e| e == p));
    }
}

#[test]
fn subpalette_partition_completeness() {
    // The 4 groups cover the 12 foreground slots exactly once, whatever
    // the adjacency counts are.
    let adj_empty = vec![0u64; 169];
    let mut adj_busy = vec![0u64; 169];
    for a in 1..13usize {
        for b in 1..13usize {
            if a != b {
                adj_busy[a * 13 + b] = ((a * 7 + b * 3) % 5) as u64;
            }
        }
    }
    for adj in [adj_empty, adj_busy] {
        let groups = assign_groups(&adj);
        assert_eq!(groups.members.len(), 12);
        let mut seen = groups.members.clone();
        seen.sort_unstable();
        assert_eq!(seen, vec![1, 2, 3, 4, 5, 6, 7, 8, 9, 10, 11, 12]);
    }
}

#[test]
fn greedy_grouping_follows_adjacency() {
    // Group 0 seeds with the highest unassigned slot (12); its two picks
    // are the slots that co-occur with 12 the most, strongest first.
    let mut adj = vec![0u64; 169];
    let pairs = [(12usize, 3usize, 9u64), (12, 7, 5)];
    for (a, b, n) in pairs {
        adj[a * 13 + b] = n;
        adj[b * 13 + a] = n;
    }
    let groups = assign_groups(&adj);
    assert_eq!(&groups.members[0..3], &[12, 3, 7]);
    // The next group seeds with the highest slot still free.
    assert_eq!(groups.members[3], 11);
}

#[test]
fn shared_background_invariant() {
    // All 4 hardware subpalettes report the identical background entry.
    let mut pixels = Vec::new();
    for i in 0..(8 * 16) {
        pixels.push(rgb((i % 13 * 19) as u8, (i % 7 * 36) as u8, (i % 5 * 51) as u8));
    }
    let q = convert(&pixels, 16, 8, 3).expect("convert");
    assert_eq!(q.subpalettes.len(), 4);
    for k in 1..4 {
        assert_eq!(q.subpalettes[k].background, q.subpalettes[0].background);
    }
}

#[test]
fn tile_assignment_totality() {
    // Every tile gets exactly one assignment, and a valid one.
    let pixels = vec![rgb(10, 200, 30); 24 * 16];
    let q = convert(&pixels, 24, 16, 1).expect("convert");
    assert_eq!(q.tile_assignment.len(), (24 / 8) * (16 / 8));
    for &t in &q.tile_assignment {
        assert!(t < 4);
    }
}

fn clustering_with_score(score: u128) -> Clustering {
    Clustering {
        centroids: vec![PColor { l: 0, a: 0, b: 0 }; 13],
        assignment: Vec::new(),
        score,
    }
}

#[test]
fn best_of_n_monotonicity() {
    // The kept attempt's score is no greater than any attempt's score,
    // and ties go to the earliest attempt.
    let attempts: Vec<Clustering> =
        [40u128, 17, 90, 17, 55].iter().map(|&s| clustering_with_score(s)).collect();
    let best = pick_best(&attempts);
    assert_eq!(best, 1);
    for a in &attempts {
        assert!(attempts[best].score <= a.score);
    }
}

#[test]
fn scenario_a_checkerboard_background() {
    // Two colors, X with the higher histogram weight (136 vs 120): the
    // background selector must put X's cluster in slot 0.
    let x = rgb(200, 40, 40);
    let y = rgb(40, 40, 200);
    let mut pixels = Vec::new();
    for i in 0..256 {
        // x fills 136 cells and y the remaining 120.
        if i < 136 {
            pixels.push(x);
        } else {
            pixels.push(y);
        }
    }
    let q = convert(&pixels, 16, 16, 11).expect("convert");
    assert_eq!(q.palette.colors[0], rgb_to_perceptual(x));

    // The same fact at the component level, with explicit centroids.
    let px = rgb_to_perceptual(x);
    let py = rgb_to_perceptual(y);
    let perc = to_perceptual(&pixels);
    let hist = ColorHistogram::build(&perc);
    let mut cents = vec![px];
    cents.extend(std::iter::repeat(py).take(12));
    let (palette, bg) = select_background(&cents, &hist);
    assert_eq!(bg, 0);
    assert_eq!(palette.colors[0], px);
}

#[test]
fn scenario_b_thirteen_unique_colors() {
    // Exactly 13 unique colors, uniformly distributed: the best attempt
    // converges with a zero fit score (every centroid sits on a source
    // color).
    let colors = thirteen_colors();
    let w = 104usize;
    let h = 8usize;
    let mut pixels = Vec::new();
    for i in 0..(w * h) {
        pixels.push(colors[i % 13]);
    }
    let perc = to_perceptual(&pixels);
    let reduction = reduce_colors(&perc, 5);
    assert_eq!(reduction.score, 0);
    assert_eq!(reduction.centroids.len(), 13);
    let q = convert(&pixels, w, h, 5).expect("convert");
    assert_eq!(q.palette.colors.len(), 13);
}

#[test]
fn scenario_c_split_tile_miss_counts() {
    // One tile whose 4 foreground colors straddle two groups: the
    // selector picks the group with the fewer misses, and that count is
    // exactly the number of the tile's colors outside the chosen group.
    let sets = one_tile_sets(&[1, 2, 3, 4]);
    let groups = groups_in_order();
    assert_eq!(tile_miss(&sets, 1, 0, &groups, 0), 1); // 4 is missing
    assert_eq!(tile_miss(&sets, 1, 0, &groups, 1), 3); // 1, 2, 3 missing
    assert_eq!(tile_miss(&sets, 1, 0, &groups, 2), 4);
    assert_eq!(tile_miss(&sets, 1, 0, &groups, 3), 4);
    let assignment = select_tile_palettes(&sets, 1, &groups);
    assert_eq!(assignment, vec![0]);
}

#[test]
fn scenario_d_background_only_tile() {
    // A tile using only the background color misses nothing anywhere;
    // the selector must still assign it a subpalette without failing.
    let sets = one_tile_sets(&[]);
    let groups = groups_in_order();
    let assignment = select_tile_palettes(&sets, 1, &groups);
    assert_eq!(assignment.len(), 1);
    assert!(assignment[0] < 4);
    // Full pipeline on a uniform image: every tile is background-only.
    let pixels = vec![rgb(90, 90, 90); 8 * 8];
    let q = convert(&pixels, 8, 8, 2).expect("convert");
    assert_eq!(q.tile_assignment.len(), 1);
    assert!(q.tile_assignment[0] < 4);
}

#[test]
fn rejects_bad_dimensions() {
    let pixels = vec![rgb(0, 0, 0); 12 * 8];
    match convert(&pixels, 12, 8, 0) {
        Err(ConvertError::BadDimensions) => {},
        _ => panic!("expected BadDimensions"),
    }
    let pixels = vec![rgb(0, 0, 0); 8 * 12];
    match convert(&pixels, 8, 12, 0) {
        Err(ConvertError::BadDimensions) => {},
        _ => panic!("expected BadDimensions"),
    }
}

#[test]
fn rejects_empty_image() {
    let pixels = Vec::new();
    match convert(&pixels, 0, 0, 0) {
        Err(ConvertError::EmptyImage) => {},
        _ => panic!("expected EmptyImage"),
    }
}

#[test]
fn nearest_hardware_entry_ties_break_low() {
    let pal = NesPalette::new();
    // (3, 3, 3) appears several times in the table; the first copy wins.
    let p = rgb_to_perceptual(rgb(3, 3, 3));
    let (idx, d) = pal.nearest(&p);
    assert_eq!(idx, 13);
    assert_eq!(d, 0);
    // An exact unique entry maps to itself.
    let p = rgb_to_perceptual(rgb(128, 128, 128));
    let (idx, d) = pal.nearest(&p);
    assert_eq!(idx, 0);
    assert_eq!(d, 0);
}

#[test]
fn histogram_counts_occurrences() {
    let pixels = vec![rgb(1, 2, 3), rgb(9, 9, 9), rgb(1, 2, 3), rgb(1, 2, 3)];
    let perc = to_perceptual(&pixels);
    let hist = ColorHistogram::build(&perc);
    assert_eq!(hist.entries.len(), 2);
    let a = rgb_to_perceptual(rgb(1, 2, 3));
    let b = rgb_to_perceptual(rgb(9, 9, 9));
    for (key, count) in &hist.entries {
        if *key == a {
            assert_eq!(*count, 3);
        } else {
            assert_eq!(*key, b);
            assert_eq!(*count, 1);
        }
    }
}

#[test]
fn seeded_rng_is_deterministic() {
    let mut r1 = SeededRng::new(42);
    let mut r2 = SeededRng::new(42);
    for _ in 0..10 {
        assert_eq!(r1.next(), r2.next());
    }
    let mut r3 = SeededRng::new(43);
    for _ in 0..10 {
        let v = r3.next_below(7);
        assert!(v < 7);
    }
}

#[test]
fn conversion_is_deterministic_for_a_seed() {
    let mut pixels = Vec::new();
    for i in 0..(16 * 8) {
        pixels.push(rgb((i * 5 % 251) as u8, (i * 11 % 241) as u8, (i * 3 % 127) as u8));
    }
    let q1 = convert(&pixels, 16, 8, 99).expect("convert");
    let q2 = convert(&pixels, 16, 8, 99).expect("convert");
    assert_eq!(q1.pixels, q2.pixels);
    assert_eq!(q1.tile_assignment, q2.tile_assignment);
}
