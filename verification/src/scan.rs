//! Turning a directory walk's findings into part records: candidate
//! filtering, parsing, de-duplication across roots, and the per-file
//! skip reasons that a scan collects instead of failing.

use vstd::prelude::*;

use crate::catalog::{make_part_key, spec_part_key, PartDef, PartDefView};
use crate::ident::{
    parse_part_filename, spec_parse_part_filename, ParseError, str_to_chars, chars_eq_str,
};
use crate::layers::{slot_for_layer, spec_slot_for_layer};
use crate::palette::{
    is_palette_asset_path, lower_match_at, palette_key_from_asset_path, spec_is_palette_asset_path,
    spec_lower_seq, spec_palette_key, PaletteDef, PaletteDefView,
};

verus! {

/// One candidate file a directory walk found: its bare file name and its
/// root-relative, slash-normalized path.
#[derive(Debug, Clone)]
pub struct ScanFile {
    pub file_name: String,
    pub asset_path: String,
}

/// Mathematical image of a [`ScanFile`].
pub struct ScanFileView {
    pub file_name: Seq<char>,
    pub asset_path: Seq<char>,
}

impl View for ScanFile {
    type V = ScanFileView;

    open spec fn view(&self) -> ScanFileView {
        ScanFileView { file_name: self.file_name@, asset_path: self.asset_path@ }
    }
}

/// One rejected candidate: its path and why the grammar refused it.
#[derive(Debug, Clone)]
pub struct ScanSkip {
    pub asset_path: String,
    pub error: ParseError,
}

/// Mathematical image of a [`ScanSkip`].
pub struct ScanSkipView {
    pub asset_path: Seq<char>,
    pub error: ParseError,
}

impl View for ScanSkip {
    type V = ScanSkipView;

    open spec fn view(&self) -> ScanSkipView {
        ScanSkipView { asset_path: self.asset_path@, error: self.error }
    }
}

/// Whether a file name begins with the base-prefix token `fbas_`: only
/// such files are candidates at all.
pub open spec fn spec_has_base_prefix(name: Seq<char>) -> bool {
    name.len() >= 5 && name.subrange(0, 5) == "fbas_"@
}

/// Whether one of the collected records already claimed this asset path:
/// the first occurrence across roots wins, so an earlier root shadows a
/// later one.
pub open spec fn spec_path_seen(parts: Seq<PartDefView>, path: Seq<char>) -> bool {
    exists|k: int| 0 <= k < parts.len() && (#[trigger] parts[k]).image_path == path
}

/// The views of collected records.
pub open spec fn spec_part_views(parts: Seq<PartDef>) -> Seq<PartDefView> {
    Seq::new(parts.len(), |k: int| parts[k]@)
}

/// The views of collected skips.
pub open spec fn spec_skip_views(skips: Seq<ScanSkip>) -> Seq<ScanSkipView> {
    Seq::new(skips.len(), |k: int| skips[k]@)
}

/// What collecting does from file `k` on, given what was gathered so
/// far: a non-candidate name is passed over, a malformed one is recorded
/// as a skip, a duplicate path is shadowed, and anything else becomes a
/// record with its stable key and its layer's slot.
pub open spec fn spec_collect_from(
    files: Seq<ScanFileView>,
    k: int,
    parts: Seq<PartDefView>,
    skips: Seq<ScanSkipView>,
) -> (Seq<PartDefView>, Seq<ScanSkipView>)
    decreases files.len() - k,
{
    if k < 0 || k >= files.len() {
        (parts, skips)
    } else {
        let f = files[k];
        if !spec_has_base_prefix(f.file_name) {
            spec_collect_from(files, k + 1, parts, skips)
        } else {
            match spec_parse_part_filename(f.file_name) {
                Err(e) => spec_collect_from(
                    files,
                    k + 1,
                    parts,
                    skips.push(ScanSkipView { asset_path: f.asset_path, error: e }),
                ),
                Ok(id) => if spec_path_seen(parts, f.asset_path) {
                    spec_collect_from(files, k + 1, parts, skips)
                } else {
                    spec_collect_from(
                        files,
                        k + 1,
                        parts.push(
                            PartDefView {
                                part_key: spec_part_key(id),
                                part_id: id,
                                slot: spec_slot_for_layer(id.layer),
                                image_path: f.asset_path,
                            },
                        ),
                        skips,
                    )
                },
            }
        }
    }
}

/// The views of a file list.
pub open spec fn spec_file_views(files: Seq<ScanFile>) -> Seq<ScanFileView> {
    Seq::new(files.len(), |k: int| files[k]@)
}

/// Whether a collected record claims this path.
fn path_seen(parts: &Vec<PartDef>, path: &str) -> (r: bool)
    ensures
        r == spec_path_seen(spec_part_views(parts@), path@),
{
    let mut k: usize = 0;
    while k < parts.len()
        invariant
            0 <= k <= parts@.len(),
            forall|k2: int| 0 <= k2 < k ==> (#[trigger] parts@[k2])@.image_path != path@,
        decreases parts@.len() - k,
    {
        if crate::order::str_cmp(parts[k].image_path.as_str(), path) == 0 {
            proof {
                assert(spec_part_views(parts@)[k as int].image_path == path@);
            }
            return true;
        }
        k = k + 1;
    }
    proof {
        assert forall|k2: int| 0 <= k2 < parts@.len() implies (#[trigger] spec_part_views(
            parts@,
        )[k2]).image_path != path@ by {
            assert(parts@[k2]@.image_path != path@);
        }
    }
    false
}

/// Collect part records out of a directory walk's findings. Candidates
/// are the files whose names begin with `fbas_`; malformed candidate
/// names are returned as skips with their reasons; the first occurrence
/// of an asset path across roots wins.
pub fn collect_part_records(files: &Vec<ScanFile>) -> (r: (Vec<PartDef>, Vec<ScanSkip>))
    ensures
        (spec_part_views(r.0@), spec_skip_views(r.1@)) == spec_collect_from(
            spec_file_views(files@),
            0,
            Seq::empty(),
            Seq::empty(),
        ),
{
    let mut parts: Vec<PartDef> = Vec::new();
    let mut skips: Vec<ScanSkip> = Vec::new();
    proof {
        assert(spec_part_views(parts@) =~= Seq::<PartDefView>::empty());
        assert(spec_skip_views(skips@) =~= Seq::<ScanSkipView>::empty());
    }
    let mut k: usize = 0;
    while k < files.len()
        invariant
            0 <= k <= files@.len(),
            spec_collect_from(
                spec_file_views(files@),
                k as int,
                spec_part_views(parts@),
                spec_skip_views(skips@),
            ) == spec_collect_from(spec_file_views(files@), 0, Seq::empty(), Seq::empty()),
        decreases files@.len() - k,
    {
        let name_chars = str_to_chars(files[k].file_name.as_str());
        let has_prefix = name_chars.len() >= 5 && chars_eq_str(&name_chars.as_slice()[0..5], "fbas_");
        proof {
            if name_chars@.len() >= 5 {
                assert(name_chars@.subrange(0, 5) == files@[k as int]@.file_name.subrange(0, 5));
            }
            assert(has_prefix == spec_has_base_prefix(spec_file_views(files@)[k as int].file_name));
        }
        if has_prefix {
            match parse_part_filename(files[k].file_name.as_str()) {
                Err(e) => {
                    let ghost before = spec_skip_views(skips@);
                    skips.push(ScanSkip { asset_path: files[k].asset_path.clone(), error: e });
                    proof {
                        assert(spec_skip_views(skips@) =~= before.push(
                            ScanSkipView {
                                asset_path: files@[k as int]@.asset_path,
                                error: e,
                            },
                        ));
                    }
                },
                Ok(id) => {
                    if !path_seen(&parts, files[k].asset_path.as_str()) {
                        let part_key = make_part_key(&id);
                        let slot = slot_for_layer(id.layer);
                        let ghost before = spec_part_views(parts@);
                        let ghost idv = id@;
                        parts.push(
                            PartDef {
                                part_key,
                                part_id: id,
                                slot,
                                image_path: files[k].asset_path.clone(),
                            },
                        );
                        proof {
                            assert(spec_part_views(parts@) =~= before.push(
                                PartDefView {
                                    part_key: spec_part_key(idv),
                                    part_id: idv,
                                    slot: spec_slot_for_layer(idv.layer),
                                    image_path: files@[k as int]@.asset_path,
                                },
                            ));
                        }
                    }
                },
            }
        }
        k = k + 1;
    }
    (parts, skips)
}


/// Whether a file name carries a `.png` extension in any letter case:
/// at least one character must stand before the dot, so a bare `.png`
/// is no image file.
pub open spec fn spec_name_is_png(name: Seq<char>) -> bool {
    name.len() >= 5 && spec_lower_seq(name).subrange(name.len() - 4, name.len() as int)
        == ".png"@
}

/// Whether a collected palette record already claimed this asset path.
pub open spec fn spec_palette_path_seen(defs: Seq<PaletteDefView>, path: Seq<char>) -> bool {
    exists|k: int| 0 <= k < defs.len() && (#[trigger] defs[k]).image_path == path
}

/// What collecting palette records does from file `k` on: a file is a
/// candidate when its name is a png image and its path lies under a
/// `palettes` folder; a duplicate path is shadowed; anything else
/// becomes a record keyed by its path with the extension stripped.
pub open spec fn spec_collect_palettes_from(
    files: Seq<ScanFileView>,
    k: int,
    defs: Seq<PaletteDefView>,
) -> Seq<PaletteDefView>
    decreases files.len() - k,
{
    if k < 0 || k >= files.len() {
        defs
    } else {
        let f = files[k];
        if !spec_name_is_png(f.file_name) || !spec_is_palette_asset_path(f.asset_path) {
            spec_collect_palettes_from(files, k + 1, defs)
        } else if spec_palette_path_seen(defs, f.asset_path) {
            spec_collect_palettes_from(files, k + 1, defs)
        } else {
            spec_collect_palettes_from(
                files,
                k + 1,
                defs.push(
                    PaletteDefView {
                        palette_key: spec_palette_key(f.asset_path),
                        image_path: f.asset_path,
                    },
                ),
            )
        }
    }
}

/// Whether a collected palette record claims this path.
fn palette_path_seen(defs: &Vec<PaletteDef>, path: &str) -> (r: bool)
    ensures
        r == spec_palette_path_seen(crate::palette::spec_palette_views(defs@), path@),
{
    let mut k: usize = 0;
    while k < defs.len()
        invariant
            0 <= k <= defs@.len(),
            forall|k2: int| 0 <= k2 < k ==> (#[trigger] defs@[k2])@.image_path != path@,
        decreases defs@.len() - k,
    {
        if crate::order::str_cmp(defs[k].image_path.as_str(), path) == 0 {
            proof {
                assert(crate::palette::spec_palette_views(defs@)[k as int].image_path == path@);
            }
            return true;
        }
        k = k + 1;
    }
    proof {
        assert forall|k2: int|
            0 <= k2 < defs@.len() implies (#[trigger] crate::palette::spec_palette_views(
            defs@,
        )[k2]).image_path != path@ by {
            assert(defs@[k2]@.image_path != path@);
        }
    }
    false
}

/// Collect palette records out of a directory walk's findings: every
/// png image lying under a `palettes` folder, keyed by its path with
/// the extension stripped; the first occurrence of a path across roots
/// wins. The records are unsorted; the palette catalog builder sorts
/// them.
pub fn collect_palette_records(files: &Vec<ScanFile>) -> (r: Vec<PaletteDef>)
    ensures
        crate::palette::spec_palette_views(r@) == spec_collect_palettes_from(
            spec_file_views(files@),
            0,
            Seq::empty(),
        ),
{
    let mut defs: Vec<PaletteDef> = Vec::new();
    proof {
        assert(crate::palette::spec_palette_views(defs@) =~= Seq::<PaletteDefView>::empty());
        reveal_strlit(".png");
    }
    let mut k: usize = 0;
    while k < files.len()
        invariant
            0 <= k <= files@.len(),
            spec_collect_palettes_from(
                spec_file_views(files@),
                k as int,
                crate::palette::spec_palette_views(defs@),
            ) == spec_collect_palettes_from(spec_file_views(files@), 0, Seq::empty()),
        decreases files@.len() - k,
    {
        let name_chars = str_to_chars(files[k].file_name.as_str());
        proof {
            reveal_strlit(".png");
        }
        let is_png = name_chars.len() >= 5 && {
            let start = name_chars.len() - 4;
            lower_match_at(&name_chars, start, ".png")
        };
        proof {
            assert(is_png == spec_name_is_png(spec_file_views(files@)[k as int].file_name));
        }
        if is_png && is_palette_asset_path(files[k].asset_path.as_str()) {
            if !palette_path_seen(&defs, files[k].asset_path.as_str()) {
                let palette_key = palette_key_from_asset_path(files[k].asset_path.as_str());
                let ghost before = crate::palette::spec_palette_views(defs@);
                defs.push(PaletteDef { palette_key, image_path: files[k].asset_path.clone() });
                proof {
                    assert(crate::palette::spec_palette_views(defs@) =~= before.push(
                        PaletteDefView {
                            palette_key: spec_palette_key(files@[k as int]@.asset_path),
                            image_path: files@[k as int]@.asset_path,
                        },
                    ));
                }
            }
        }
        k = k + 1;
    }
    defs
}

} // verus!
