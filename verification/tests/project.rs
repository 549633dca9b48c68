//! Tests of the project-model palette types.

use nesimg::project::{ImagePalletData, LevelMargin, Pallet};

#[test]
fn default_pallet_colors() {
    let p = Pallet::default();
    assert_eq!(
        p.colors,
        [0x0f, 0x2d, 0x10, 0x30, 0x2d, 0x10, 0x30, 0x2d, 0x10, 0x30, 0x2d, 0x10, 0x30]
    );
}

#[test]
fn sub_pallets_mirror_background() {
    let p = Pallet { colors: [0, 1, 2, 3, 4, 5, 6, 7, 8, 9, 10, 11, 12] };
    let subs = p.get_sub_pallets();
    assert_eq!(subs[0], [0, 1, 2, 3]);
    assert_eq!(subs[1], [0, 4, 5, 6]);
    assert_eq!(subs[2], [0, 7, 8, 9]);
    assert_eq!(subs[3], [0, 10, 11, 12]);
}

#[test]
fn level_margin_dimensions() {
    let m = LevelMargin::default();
    assert_eq!(m.top, 8);
    assert_eq!(m.right, 8);
    assert_eq!(m.bottom, 8);
    assert_eq!(m.left, 8);
    assert_eq!(m.width(), 16);
    assert_eq!(m.height(), 16);
    let m = LevelMargin { top: 1, right: 2, bottom: 3, left: 4 };
    assert_eq!(m.width(), 6);
    assert_eq!(m.height(), 4);
}

#[test]
fn full_pallet_16_layout() {
    let d = ImagePalletData {
        colors: [0, 1, 2, 3, 4, 5, 6, 7, 8, 9, 10, 11, 12],
        tile_pallets: vec![0],
    };
    assert_eq!(
        d.get_full_pallet_16(),
        [0, 1, 2, 3, 0, 4, 5, 6, 0, 7, 8, 9, 0, 10, 11, 12]
    );
}

#[test]
fn default_image_pallet_is_grayscale() {
    let d = ImagePalletData::default();
    assert_eq!(
        d.colors,
        [0x0F, 0x1D, 0x2D, 0x3D, 0x1D, 0x2D, 0x3D, 0x1D, 0x2D, 0x3D, 0x1D, 0x2D, 0x3D]
    );
    assert!(d.tile_pallets.is_empty());
}
