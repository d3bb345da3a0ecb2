use paper_doll::browse::cycle_position;
use paper_doll::builder::build_catalog;
use paper_doll::catalog::{PartCatalog, PartDef};
use paper_doll::equip::EquippedParts;
use paper_doll::grid::{
    cell_count, cell_index, derive_rows_from_image, is_valid_cell, toggle_cell, GridState,
    SelectionState,
};
use paper_doll::ident::{parse_part_filename, ParseError, PartId};
use paper_doll::layers::{slot_for_layer, BaseType, LayerCode, Slot, Special};
use paper_doll::palette::{
    build_palette_catalog, is_palette_asset_path, palette_key_from_asset_path, PaletteDef,
};
use paper_doll::scan::{collect_palette_records, collect_part_records, ScanFile};

fn part(
    layer: LayerCode,
    name: &str,
    version: u8,
    palette: Option<char>,
    special: Option<Special>,
    path: &str,
) -> PartDef {
    let id = PartId {
        base: BaseType::Fbas,
        layer,
        name: name.to_string(),
        version,
        palette,
        special,
    };
    PartDef {
        part_key: paper_doll::catalog::make_part_key(&id),
        slot: paper_doll::layers::slot_for_layer(layer),
        part_id: id,
        image_path: path.to_string(),
    }
}

#[test]
fn index_is_row_major() {
    assert_eq!(cell_index(0, 0, 4), 0);
    assert_eq!(cell_index(0, 3, 4), 3);
    assert_eq!(cell_index(1, 0, 4), 4);
    assert_eq!(cell_index(2, 1, 4), 9);
}

#[test]
fn valid_cell_uses_grid_dimensions() {
    let grid = GridState { rows: 2, columns: 3, ..Default::default() };
    assert!(is_valid_cell(&grid, 5));
    assert!(!is_valid_cell(&grid, 6));
}

#[test]
fn toggle_adds_and_removes() {
    let grid = GridState { rows: 1, columns: 2, ..Default::default() };
    let mut selection = SelectionState::new_empty();

    toggle_cell(&mut selection, &grid, 1);
    assert!(selection.contains(1));

    toggle_cell(&mut selection, &grid, 1);
    assert!(!selection.contains(1));
}

#[test]
fn toggle_ignores_out_of_grid_index() {
    let grid = GridState { rows: 1, columns: 2, ..Default::default() };
    let mut selection = SelectionState::new_empty();
    toggle_cell(&mut selection, &grid, 2);
    assert!(!selection.contains(2));
    assert_eq!(selection.selected_cells.len(), 0);
}

#[test]
fn cell_count_multiplies_rows_and_columns() {
    let grid = GridState { rows: 3, columns: 5, ..Default::default() };
    assert_eq!(cell_count(&grid), 15);
}

#[test]
fn derive_rows_prefers_image_height() {
    let grid = GridState { rows: 8, columns: 8, cell_width: 32, cell_height: 32, offset_x: 0, offset_y: 0 };
    assert_eq!(derive_rows_from_image(Some(96), &grid), 3);
    assert_eq!(derive_rows_from_image(None, &grid), 8);
    assert_eq!(derive_rows_from_image(Some(0), &grid), 8);
}

#[test]
fn grid_normalize_clamps_to_one() {
    let mut grid = GridState { rows: 0, columns: 0, cell_width: 0, cell_height: 0, offset_x: 7, offset_y: 9 };
    grid.normalize();
    assert_eq!(grid.rows, 1);
    assert_eq!(grid.columns, 1);
    assert_eq!(grid.cell_width, 1);
    assert_eq!(grid.cell_height, 1);
    assert_eq!(grid.offset_x, 7);
    assert_eq!(grid.offset_y, 9);
}

#[test]
fn parse_filename_with_palette_and_special() {
    let part = parse_part_filename("fbas_14head_headscarf_00b_e.png").expect("parse");
    assert_eq!(part.layer, LayerCode::Head14);
    assert_eq!(part.name, "headscarf");
    assert_eq!(part.version, 0);
    assert_eq!(part.palette, Some('b'));
    assert_eq!(part.special, Some(Special::E));
}

#[test]
fn parse_filename_rejects_non_zero_palette_version() {
    let err = parse_part_filename("fbas_14head_hat_01a.png").expect_err("must fail");
    assert!(err.message().contains("Palette"));
}

#[test]
fn parse_filename_rejects_unknown_layer() {
    let err = parse_part_filename("fbas_99xxxx_thing_00.png").expect_err("must fail");
    assert_eq!(err, ParseError::UnknownLayerCode);
}

#[test]
fn parse_filename_error_variants() {
    assert_eq!(parse_part_filename("fbas_14head_x_00").unwrap_err(), ParseError::MissingExtension);
    assert_eq!(parse_part_filename("fbas_14head_x_00.txt").unwrap_err(), ParseError::NotPng);
    assert_eq!(parse_part_filename("fbas_14head.png").unwrap_err(), ParseError::TooFewSegments);
    assert_eq!(parse_part_filename("xbas_14head_x_00.png").unwrap_err(), ParseError::BadBasePrefix);
    assert_eq!(
        parse_part_filename("fbas_14head_00_e.png").unwrap_err(),
        ParseError::MissingNameVersion
    );
    assert_eq!(parse_part_filename("fbas_14head__00.png").unwrap_err(), ParseError::EmptyName);
    assert_eq!(parse_part_filename("fbas_14head_x_aa.png").unwrap_err(), ParseError::BadVersionDigits);
    assert_eq!(
        parse_part_filename("fbas_14head_x_0012.png").unwrap_err(),
        ParseError::VersionTokenTooLong
    );
    assert_eq!(
        parse_part_filename("fbas_14head_x_00z.png").unwrap_err(),
        ParseError::InvalidPaletteSuffix
    );
}

#[test]
fn parse_filename_joins_multi_segment_names() {
    let part = parse_part_filename("fbas_05shrt_long_sleeve_tunic_02.png").expect("parse");
    assert_eq!(part.layer, LayerCode::Shrt05);
    assert_eq!(part.name, "long_sleeve_tunic");
    assert_eq!(part.version, 2);
    assert_eq!(part.palette, None);
    assert_eq!(part.special, None);
}

#[test]
fn part_key_formats_layer_name_version_palette_special() {
    let p = part(LayerCode::Head14, "headscarf", 0, Some('b'), Some(Special::E), "a.png");
    assert_eq!(p.part_key, "14head/headscarf/00b/e");
    let q = part(LayerCode::Body01, "human", 0, None, None, "b.png");
    assert_eq!(q.part_key, "01body/human/00");
}

#[test]
fn palette_asset_path_is_detected_in_palettes_folder() {
    assert!(is_palette_asset_path(
        "images/Mana Seed Sprite System v1.4a/palettes/mana seed skin ramps.png"
    ));
    assert!(is_palette_asset_path("palettes/base ramps/skin color base ramps.png"));
    assert!(!is_palette_asset_path(
        "images/Mana Seed Sprite System v1.4a/farmer_base_sheets/fbas_01body_human_00.png"
    ));
}

#[test]
fn palette_key_strips_png_extension() {
    let key = palette_key_from_asset_path(
        "images/Mana Seed Sprite System v1.4a/palettes/base ramps/skin color base ramps.png",
    );
    assert_eq!(
        key,
        "images/Mana Seed Sprite System v1.4a/palettes/base ramps/skin color base ramps"
    );
}

#[test]
fn palette_catalog_sorts_by_key() {
    let defs = vec![
        PaletteDef { palette_key: "palettes/zeta".to_string(), image_path: "palettes/zeta.png".to_string() },
        PaletteDef { palette_key: "palettes/alpha".to_string(), image_path: "palettes/alpha.png".to_string() },
    ];
    let catalog = build_palette_catalog(defs);
    assert_eq!(catalog.palettes.len(), 2);
    assert_eq!(catalog.palettes[0].palette_key, "palettes/alpha");
    assert_eq!(catalog.palettes[1].palette_key, "palettes/zeta");
}

#[test]
fn compose_hides_hair_when_hat_has_e() {
    let hair = part(LayerCode::Hair13, "mohawk", 0, None, Some(Special::E), "images/test/hair.png");
    let hat = part(
        LayerCode::Head14,
        "headscarf",
        0,
        Some('b'),
        Some(Special::E),
        "images/test/hat.png",
    );
    assert_eq!(hair.part_key, "13hair/mohawk/00/e");
    assert_eq!(hat.part_key, "14head/headscarf/00b/e");

    let catalog = build_catalog(vec![hair, hat]);
    let mut equipped = EquippedParts::new_empty();
    equipped.equip_by_index(&catalog, 0);
    equipped.equip_by_index(&catalog, 1);

    let visible = equipped.visible_layer_map(&catalog);
    assert!(visible[13].is_none());
    assert!(visible[14].is_some());
    assert!(equipped.by_layer[13].is_some());
}

#[test]
fn compose_hides_exclusive_hair_under_plain_hat() {
    let hair = part(LayerCode::Hair13, "mohawk", 0, None, Some(Special::E), "images/test/hair.png");
    let hat = part(LayerCode::Head14, "cap", 0, None, None, "images/test/cap.png");
    let catalog = build_catalog(vec![hair, hat]);
    let mut equipped = EquippedParts::new_empty();
    equipped.equip_by_index(&catalog, 0);
    equipped.equip_by_index(&catalog, 1);
    let visible = equipped.visible_layer_map(&catalog);
    assert!(visible[13].is_none());

    let mut bare = EquippedParts::new_empty();
    bare.equip_by_index(&catalog, 0);
    let visible2 = bare.visible_layer_map(&catalog);
    assert!(visible2[13].is_some());
}

fn slot_catalog() -> PartCatalog {
    build_catalog(vec![
        part(LayerCode::Lwr104, "shorts", 0, None, None, "a.png"),
        part(LayerCode::Lwr206, "skirt", 0, None, None, "b.png"),
        part(LayerCode::Fot103, "boots", 0, None, None, "c.png"),
        part(LayerCode::Body01, "human", 0, None, None, "d.png"),
    ])
}

#[test]
fn equip_removes_other_parts_sharing_the_slot() {
    let catalog = slot_catalog();
    let shorts = catalog.index_by_key("04lwr1/shorts/00").unwrap();
    let skirt = catalog.index_by_key("06lwr2/skirt/00").unwrap();
    let boots = catalog.index_by_key("03fot1/boots/00").unwrap();

    let mut equipped = EquippedParts::new_empty();
    equipped.equip_by_index(&catalog, shorts);
    equipped.equip_by_index(&catalog, boots);
    assert_eq!(equipped.by_layer[4], Some(shorts));

    equipped.equip_by_index(&catalog, skirt);
    assert_eq!(equipped.by_layer[6], Some(skirt));
    assert_eq!(equipped.by_layer[4], None, "the other lower garment must be removed");
    assert_eq!(equipped.by_layer[3], Some(boots), "footwear is a different slot");
}

#[test]
fn equip_out_of_range_index_is_a_no_op() {
    let catalog = slot_catalog();
    let mut equipped = EquippedParts::new_empty();
    equipped.equip_by_index(&catalog, 99);
    assert!(equipped.by_layer.iter().all(|e| e.is_none()));
}

fn paired_catalog() -> PartCatalog {
    build_catalog(vec![
        part(LayerCode::Undr00, "cloak", 0, None, None, "u.png"),
        part(LayerCode::Neck11, "cloak", 0, None, None, "n.png"),
        part(LayerCode::Body01, "human", 0, None, None, "b.png"),
    ])
}

#[test]
fn equipping_paired_set_member_equips_the_whole_set() {
    let catalog = paired_catalog();
    let under = catalog.index_by_key("00undr/cloak/00").unwrap();
    let neck = catalog.index_by_key("11neck/cloak/00").unwrap();

    let mut equipped = EquippedParts::new_empty();
    equipped.equip_by_index(&catalog, under);
    assert_eq!(equipped.by_layer[0], Some(under));
    assert_eq!(equipped.by_layer[11], Some(neck), "the neck half must come along");
}

#[test]
fn set_without_both_layers_is_not_paired() {
    let catalog = build_catalog(vec![
        part(LayerCode::Undr00, "vest", 0, None, None, "v.png"),
        part(LayerCode::Body01, "human", 0, None, None, "b.png"),
    ]);
    assert!(catalog.paired_required_sets.is_empty());
    let under = catalog.index_by_key("00undr/vest/00").unwrap();
    let mut equipped = EquippedParts::new_empty();
    equipped.equip_by_index(&catalog, under);
    assert_eq!(equipped.by_layer[0], Some(under));
    assert_eq!(equipped.by_layer[11], None);
}

#[test]
fn set_defaults_takes_first_of_each_default_layer() {
    let catalog = build_catalog(vec![
        part(LayerCode::Body01, "human", 1, None, None, "b1.png"),
        part(LayerCode::Body01, "human", 0, None, None, "b0.png"),
        part(LayerCode::Hair13, "bob", 0, None, None, "h.png"),
        part(LayerCode::Head14, "cap", 0, None, None, "c.png"),
    ]);
    let mut equipped = EquippedParts::new_empty();
    equipped.set_defaults(&catalog);
    let body = equipped.by_layer[1].expect("body seeded");
    assert_eq!(catalog.parts[body].part_key, "01body/human/00", "lowest version first");
    assert!(equipped.by_layer[13].is_some(), "hair is a default layer");
    assert!(equipped.by_layer[14].is_none(), "head is not a default layer");
}

#[test]
fn equipped_keys_round_trip_through_apply_keys() {
    let catalog = build_catalog(vec![
        part(LayerCode::Undr00, "cloak", 0, None, None, "u.png"),
        part(LayerCode::Neck11, "cloak", 0, None, None, "n.png"),
        part(LayerCode::Body01, "human", 0, None, None, "b.png"),
        part(LayerCode::Lwr104, "shorts", 0, None, None, "s.png"),
        part(LayerCode::Hair13, "bob", 0, None, None, "h.png"),
    ]);
    let mut equipped = EquippedParts::new_empty();
    equipped.equip_by_index(&catalog, catalog.index_by_key("00undr/cloak/00").unwrap());
    equipped.equip_by_index(&catalog, catalog.index_by_key("01body/human/00").unwrap());
    equipped.equip_by_index(&catalog, catalog.index_by_key("04lwr1/shorts/00").unwrap());
    equipped.equip_by_index(&catalog, catalog.index_by_key("13hair/bob/00").unwrap());

    let keys = equipped.equipped_part_keys(&catalog);
    assert_eq!(
        keys,
        vec![
            "00undr/cloak/00".to_string(),
            "01body/human/00".to_string(),
            "04lwr1/shorts/00".to_string(),
            "11neck/cloak/00".to_string(),
            "13hair/bob/00".to_string(),
        ],
        "keys come in fixed layer order"
    );

    let mut replayed = EquippedParts::new_empty();
    replayed.apply_equipped_keys(&catalog, &keys);
    assert_eq!(replayed.by_layer, equipped.by_layer, "replaying the keys rebuilds the selection");
    assert_eq!(replayed.equipped_part_keys(&catalog), keys);
}

#[test]
fn apply_keys_ignores_unknown_keys() {
    let catalog = slot_catalog();
    let mut equipped = EquippedParts::new_empty();
    equipped.apply_equipped_keys(
        &catalog,
        &vec!["01body/human/00".to_string(), "14head/ghost/07".to_string()],
    );
    assert_eq!(equipped.by_layer[1], catalog.index_by_key("01body/human/00"));
    assert!(equipped.by_layer[14].is_none());
}

#[test]
fn by_layer_lists_are_sorted_by_name_version_palette_special() {
    let catalog = build_catalog(vec![
        part(LayerCode::Shrt05, "tunic", 1, None, None, "1.png"),
        part(LayerCode::Shrt05, "apron", 0, None, None, "2.png"),
        part(LayerCode::Shrt05, "tunic", 0, Some('b'), None, "3.png"),
        part(LayerCode::Shrt05, "tunic", 0, Some('a'), None, "4.png"),
        part(LayerCode::Shrt05, "tunic", 0, None, None, "5.png"),
    ]);
    let list = catalog.layer_indices(LayerCode::Shrt05);
    let keys: Vec<&str> = list.iter().map(|i| catalog.parts[*i].part_key.as_str()).collect();
    assert_eq!(
        keys,
        vec![
            "05shrt/apron/00",
            "05shrt/tunic/00",
            "05shrt/tunic/00a",
            "05shrt/tunic/00b",
            "05shrt/tunic/01",
        ]
    );
}

#[test]
fn cycling_wraps_through_unequipped() {
    // forward from the last entry: unequipped, then the first entry again
    assert_eq!(cycle_position(3, Some(2), true), None);
    assert_eq!(cycle_position(3, None, true), Some(0));
    assert_eq!(cycle_position(3, Some(0), true), Some(1));
    // backward from the first entry: unequipped, then the last entry
    assert_eq!(cycle_position(3, Some(0), false), None);
    assert_eq!(cycle_position(3, None, false), Some(2));
    assert_eq!(cycle_position(3, Some(2), false), Some(1));
}

#[test]
fn collect_records_parses_dedupes_and_reports_skips() {
    let files = vec![
        ScanFile {
            file_name: "fbas_01body_human_00.png".to_string(),
            asset_path: "sheets/fbas_01body_human_00.png".to_string(),
        },
        ScanFile {
            file_name: "notes.txt".to_string(),
            asset_path: "notes.txt".to_string(),
        },
        ScanFile {
            file_name: "fbas_14head_hat_01a.png".to_string(),
            asset_path: "sheets/fbas_14head_hat_01a.png".to_string(),
        },
        ScanFile {
            file_name: "fbas_01body_human_00.png".to_string(),
            asset_path: "sheets/fbas_01body_human_00.png".to_string(),
        },
    ];
    let (parts, skips) = collect_part_records(&files);
    assert_eq!(parts.len(), 1, "the duplicate path is shadowed, the rest rejected or ignored");
    assert_eq!(parts[0].part_key, "01body/human/00");
    assert_eq!(parts[0].slot, None);
    assert_eq!(parts[0].image_path, "sheets/fbas_01body_human_00.png");
    assert_eq!(skips.len(), 1, "only the malformed candidate is reported");
    assert_eq!(skips[0].error, paper_doll::ident::ParseError::PaletteOnNonZeroVersion);
}

#[test]
fn collect_palette_records_filters_and_dedupes() {
    let files = vec![
        ScanFile {
            file_name: "skin ramps.PNG".to_string(),
            asset_path: "palettes/skin ramps.PNG".to_string(),
        },
        ScanFile {
            file_name: "notes.txt".to_string(),
            asset_path: "palettes/notes.txt".to_string(),
        },
        ScanFile {
            file_name: "fbas_01body_human_00.png".to_string(),
            asset_path: "sheets/fbas_01body_human_00.png".to_string(),
        },
        ScanFile {
            file_name: "skin ramps.PNG".to_string(),
            asset_path: "palettes/skin ramps.PNG".to_string(),
        },
    ];
    let defs = collect_palette_records(&files);
    assert_eq!(defs.len(), 1, "one png under palettes, seen once");
    assert_eq!(defs[0].palette_key, "palettes/skin ramps");
    assert_eq!(defs[0].image_path, "palettes/skin ramps.PNG");
}

#[test]
fn catalog_indexes_cover_every_part() {
    let catalog = slot_catalog();
    for (i, p) in catalog.parts.iter().enumerate() {
        assert_eq!(catalog.index_by_key(&p.part_key), Some(i));
        let list = catalog.layer_indices(p.part_id.layer);
        assert!(list.contains(&i));
    }
    let total: usize = (0..16)
        .map(|l| catalog.layer_indices(paper_doll::layers::layer_from_index(l)).len())
        .sum();
    assert_eq!(total, catalog.parts.len());
}

#[test]
fn slot_table_matches_layers() {
    assert_eq!(slot_for_layer(LayerCode::Lwr104), Some(Slot::Lower));
    assert_eq!(slot_for_layer(LayerCode::Lwr206), Some(Slot::Lower));
    assert_eq!(slot_for_layer(LayerCode::Lwr308), Some(Slot::Lower));
    assert_eq!(slot_for_layer(LayerCode::Fot103), Some(Slot::Footwear));
    assert_eq!(slot_for_layer(LayerCode::Fot207), Some(Slot::Footwear));
    assert_eq!(slot_for_layer(LayerCode::Head14), Some(Slot::Head));
    assert_eq!(slot_for_layer(LayerCode::Body01), None);
    assert_eq!(slot_for_layer(LayerCode::Hair13), None);
}

#[test]
fn layer_codes_round_trip() {
    for l in 0..16usize {
        let layer = paper_doll::layers::layer_from_index(l);
        assert_eq!(LayerCode::from_code(layer.as_str()), Some(layer));
        assert_eq!(paper_doll::layers::layer_index(layer), l);
    }
    assert_eq!(LayerCode::from_code("99xxxx"), None);
}
