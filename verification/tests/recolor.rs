use paper_doll::layers::LayerCode;
use paper_doll::remap::{
    build_part_palette_remap_map, extract_ramp_variant, extract_vertical_ramp,
    inferred_palette_suffix_for_layer, pack_rgba8, remap_image_colors, rgba_key, unpack_rgba8,
    PaletteImage, RemapEngine, RgbaImage,
};

/// A reference ramp image: `colors[v][i]` is color `i` of variant `v`,
/// painted as 2x2 blocks in a row per variant band, starting at `x0`.
fn ramp_image(width: u32, x0: u32, colors: &[Vec<[u8; 4]>]) -> RgbaImage {
    let height = (colors.len() as u32) * 2;
    let mut data = vec![0u8; (width * height * 4) as usize];
    for (v, row) in colors.iter().enumerate() {
        for (i, c) in row.iter().enumerate() {
            for dy in 0..2u32 {
                for dx in 0..2u32 {
                    let x = x0 + (i as u32) * 2 + dx;
                    let y = (v as u32) * 2 + dy;
                    let at = ((y * width + x) * 4) as usize;
                    data[at..at + 4].copy_from_slice(c);
                }
            }
        }
    }
    RgbaImage::from_raw(width, height, data).expect("sized buffer")
}

fn four_color_palettes() -> Vec<PaletteImage> {
    // base ramp: the canonical coloring at variant 0
    let base = ramp_image(
        12,
        0,
        &[vec![[10, 0, 0, 255], [20, 0, 0, 255], [30, 0, 0, 255], [40, 0, 0, 255], [50, 0, 0, 255]]],
    );
    // reference ramps: two variants
    let target = ramp_image(
        12,
        0,
        &[
            vec![[110, 1, 1, 255], [120, 1, 1, 255], [130, 1, 1, 255], [140, 1, 1, 255], [150, 1, 1, 255]],
            vec![[210, 2, 2, 255], [220, 2, 2, 255], [230, 2, 2, 255], [240, 2, 2, 255], [250, 2, 2, 255]],
        ],
    );
    vec![
        PaletteImage {
            key: "palettes/base ramps/4-color base ramp (00b)".to_string(),
            image: base,
        },
        PaletteImage { key: "palettes/mana seed 4-color ramps".to_string(), image: target },
    ]
}

#[test]
fn pack_and_unpack_round_trip() {
    let v = pack_rgba8(0x12, 0x34, 0x56, 0x78);
    assert_eq!(v, 0x12345678);
    assert_eq!(unpack_rgba8(v), (0x12, 0x34, 0x56, 0x78));
    assert_eq!(rgba_key(&[0x12, 0x34, 0x56, 0x78]), 0x12345678);
    assert_eq!(rgba_key(&[1, 2]), 0, "short slices pack to zero");
}

#[test]
fn vertical_ramp_samples_block_centers() {
    let img = ramp_image(4, 0, &[vec![[7, 8, 9, 255]], vec![[17, 18, 19, 255]]]);
    let strip = extract_vertical_ramp(&img, 1, 0, 2, 2).expect("inside image");
    assert_eq!(strip, vec![pack_rgba8(7, 8, 9, 255), pack_rgba8(17, 18, 19, 255)]);
    assert!(extract_vertical_ramp(&img, 9, 0, 2, 2).is_none(), "column outside");
    assert!(extract_vertical_ramp(&img, 1, 0, 2, 3).is_none(), "row outside");
}

#[test]
fn ramp_variant_clamps_to_available_bands() {
    let img = ramp_image(
        4,
        0,
        &[vec![[1, 1, 1, 255]], vec![[2, 2, 2, 255]]],
    );
    let v0 = extract_ramp_variant(&img, 0, 1, 0).expect("variant 0");
    let v1 = extract_ramp_variant(&img, 0, 1, 1).expect("variant 1");
    let v9 = extract_ramp_variant(&img, 0, 1, 9).expect("clamped");
    assert_eq!(v0, vec![pack_rgba8(1, 1, 1, 255)]);
    assert_eq!(v1, vec![pack_rgba8(2, 2, 2, 255)]);
    assert_eq!(v9, v1, "an out-of-range variant clamps to the last band");
}

#[test]
fn build_remap_table_maps_base_to_variant_colors() {
    let palettes = four_color_palettes();
    let table = build_part_palette_remap_map('b', 1, &palettes).expect("table");
    assert_eq!(table.entries.len(), 5);
    let hit = table.lookup(pack_rgba8(30, 0, 0, 255)).expect("base color present");
    assert_eq!((hit.to_r, hit.to_g, hit.to_b), (230, 2, 2), "third color of variant 1");
    assert!(table.lookup(pack_rgba8(99, 99, 99, 255)).is_none());
}

#[test]
fn remap_table_is_deterministic() {
    let palettes = four_color_palettes();
    let a = build_part_palette_remap_map('b', 1, &palettes).expect("table");
    let b = build_part_palette_remap_map('b', 1, &palettes).expect("table");
    assert_eq!(a.entries, b.entries, "the same inputs build bit-identical tables");
}

#[test]
fn remap_without_reference_image_yields_no_table() {
    let palettes = vec![four_color_palettes().remove(0)];
    assert!(build_part_palette_remap_map('b', 0, &palettes).is_none());
    assert!(build_part_palette_remap_map('q', 0, &four_color_palettes()).is_none());
}

#[test]
fn remap_image_replaces_color_and_keeps_alpha() {
    let palettes = four_color_palettes();
    let table = build_part_palette_remap_map('b', 1, &palettes).expect("table");
    // one matching pixel with its own alpha, one unrelated pixel
    let source = RgbaImage::from_raw(2, 1, vec![20, 0, 0, 255, 9, 9, 9, 77]).expect("image");
    let out = remap_image_colors(&source, &table).expect("a pixel changed");
    assert_eq!(out.data, vec![220, 2, 2, 255, 9, 9, 9, 77]);

    let again = remap_image_colors(&source, &table).expect("a pixel changed");
    assert_eq!(out.data, again.data, "applying the same table twice is bit-identical");
}

#[test]
fn remap_matches_rgb_ignoring_pixel_alpha() {
    let palettes = four_color_palettes();
    let table = build_part_palette_remap_map('b', 0, &palettes).expect("table");
    // same color channels as a source color, different alpha: still a match,
    // and the pixel's own alpha survives
    let source = RgbaImage::from_raw(1, 1, vec![20, 0, 0, 128]).expect("image");
    let out = remap_image_colors(&source, &table).expect("the color channels match");
    assert_eq!(out.data, vec![120, 1, 1, 128]);
}

#[test]
fn remap_engine_memoizes_tables_and_images() {
    let mut engine = RemapEngine::new(four_color_palettes());
    let t1 = engine.table_for('b', 1).expect("table");
    let t2 = engine.table_for('b', 1).expect("cached table");
    assert_eq!(t1.entries, t2.entries);
    assert_eq!(engine.tables.len(), 1, "the second call hits the cache");

    let source = RgbaImage::from_raw(1, 1, vec![10, 0, 0, 255]).expect("image");
    let r1 = engine.remapped_image("sheets/a.png", 1, &source, &t1);
    assert_eq!(r1.data, vec![210, 2, 2, 255]);
    let r2 = engine.remapped_image("sheets/a.png", 1, &source, &t1);
    assert_eq!(r2.data, r1.data);
    assert_eq!(engine.images.len(), 1, "the second render reuses the memoized image");

    engine.clear_caches(four_color_palettes());
    assert_eq!(engine.tables.len(), 0);
    assert_eq!(engine.images.len(), 0);
}

#[test]
fn unchanged_image_is_not_cached() {
    let mut engine = RemapEngine::new(four_color_palettes());
    let t = engine.table_for('b', 0).expect("table");
    let source = RgbaImage::from_raw(1, 1, vec![9, 9, 9, 9]).expect("image");
    let r = engine.remapped_image("sheets/b.png", 0, &source, &t);
    assert_eq!(r.data, source.data, "no match leaves the image as it was");
    assert_eq!(engine.images.len(), 0);
}

#[test]
fn inferred_suffix_covers_body_and_hair() {
    assert_eq!(inferred_palette_suffix_for_layer(LayerCode::Body01), Some('f'));
    assert_eq!(inferred_palette_suffix_for_layer(LayerCode::Hair13), Some('f'));
    assert_eq!(inferred_palette_suffix_for_layer(LayerCode::Shrt05), None);
}

#[test]
fn variant_counts_come_from_band_height() {
    let engine = RemapEngine::new(vec![PaletteImage {
        key: "palettes/mana seed 3-color ramps".to_string(),
        image: ramp_image(8, 0, &[vec![[1, 1, 1, 255]], vec![[2, 2, 2, 255]], vec![[3, 3, 3, 255]]]),
    }]);
    assert_eq!(engine.canonical_variant_count(), 3);
    assert_eq!(engine.palette_variant_count(0), 3);
    assert_eq!(engine.palette_variant_count(9), 1, "an unknown palette has one variant");

    let bare = RemapEngine::new(Vec::new());
    assert_eq!(bare.canonical_variant_count(), 1);
}
