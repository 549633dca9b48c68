//! NES-palette-constrained image quantization.
//!
//! The library takes an RGB source image and produces a reduced 13-color
//! master palette (one shared background color plus four 3-color groups),
//! a per-8x8-tile choice of which group to use, and a requantized output
//! image whose every pixel is drawn from the fixed 64-entry NES hardware
//! color table.  `pipeline::convert` is the single entry point; the
//! components it runs, in pipeline order, are `color` (perceptual space),
//! `nespal` (the hardware table), `histogram`, `cluster` (the reducer),
//! `background`, `tiles` (the adjacency analyzer), `subpalette` (the
//! grouping), `mapper`, `selector` and `requant`.  `project` holds the
//! palette types of the surrounding project model.

pub mod background;
pub mod cluster;
pub mod color;
pub mod histogram;
pub mod mapper;
pub mod nespal;
pub mod pipeline;
pub mod project;
pub mod requant;
pub mod selector;
pub mod subpalette;
pub mod tiles;
