//! The palette remap engine: extracting color ramps from reference
//! images at fixed 2 by 2 pixel blocks, building per-variant
//! substitution tables, applying them to part pixels with the pixel's
//! own alpha preserved, and memoizing both tables and remapped images.

use vstd::prelude::*;

use crate::layers::LayerCode;
use crate::palette::spec_lower_seq;

verus! {

/// A decoded RGBA image: row-major pixels, four bytes each.
#[derive(Debug, Clone)]
pub struct RgbaImage {
    pub width: u32,
    pub height: u32,
    pub data: Vec<u8>,
}

/// Mathematical image of an [`RgbaImage`].
pub struct RgbaImageView {
    pub width: u32,
    pub height: u32,
    pub data: Seq<u8>,
}

impl View for RgbaImage {
    type V = RgbaImageView;

    open spec fn view(&self) -> RgbaImageView {
        RgbaImageView { width: self.width, height: self.height, data: self.data@ }
    }
}

impl RgbaImageView {
    /// Four bytes per pixel, row-major.
    pub open spec fn wf(self) -> bool {
        self.data.len() == 4 * (self.width as int) * (self.height as int)
    }
}

impl RgbaImage {
    /// Four bytes per pixel, row-major.
    pub open spec fn wf(self) -> bool {
        self@.wf()
    }

    /// Wrap decoded pixel bytes, refusing a buffer whose length does not
    /// match the dimensions.
    pub fn from_raw(width: u32, height: u32, data: Vec<u8>) -> (r: Option<RgbaImage>)
        ensures
            match r {
                Some(img) => img.wf() && img.width == width && img.height == height && img.data@
                    == data@,
                None => data@.len() != 4 * (width as int) * (height as int),
            },
    {
        proof {
            assert((width as int) * (height as int) < 0x10000000000000000) by (nonlinear_arith)
                requires
                    width < 0x100000000,
                    height < 0x100000000,
            ;
        }
        let wh: u64 = (width as u64) * (height as u64);
        let expected: u128 = 4u128 * (wh as u128);
        proof {
            assert(4 * ((width as int) * (height as int)) == 4 * (width as int) * (height as int))
                by (nonlinear_arith);
        }
        if (data.len() as u128) == expected {
            Some(RgbaImage { width, height, data })
        } else {
            None
        }
    }

    /// A copy of this image.
    pub fn clone_image(&self) -> (r: RgbaImage)
        ensures
            r@ == self@,
    {
        let mut data: Vec<u8> = Vec::new();
        let mut k: usize = 0;
        while k < self.data.len()
            invariant
                0 <= k <= self.data@.len(),
                data@ == self.data@.subrange(0, k as int),
            decreases self.data@.len() - k,
        {
            data.push(self.data[k]);
            proof {
                assert(data@ =~= self.data@.subrange(0, k + 1));
            }
            k = k + 1;
        }
        proof {
            assert(data@ =~= self.data@);
        }
        RgbaImage { width: self.width, height: self.height, data }
    }
}

/// Packing one pixel's channels into a single word, red in the highest
/// byte.
pub open spec fn spec_pack_rgba8(r: u8, g: u8, b: u8, a: u8) -> u32 {
    ((r as u32) << 24) | ((g as u32) << 16) | ((b as u32) << 8) | (a as u32)
}

pub fn pack_rgba8(r: u8, g: u8, b: u8, a: u8) -> (v: u32)
    ensures
        v == spec_pack_rgba8(r, g, b, a),
{
    ((r as u32) << 24) | ((g as u32) << 16) | ((b as u32) << 8) | (a as u32)
}

/// The four channels of a packed word, red first.
pub open spec fn spec_unpack_rgba8(v: u32) -> (u8, u8, u8, u8) {
    (((v >> 24) & 0xFF) as u8, ((v >> 16) & 0xFF) as u8, ((v >> 8) & 0xFF) as u8, (v & 0xFF) as u8)
}

pub fn unpack_rgba8(v: u32) -> (r: (u8, u8, u8, u8))
    ensures
        r == spec_unpack_rgba8(v),
{
    (((v >> 24) & 0xFF) as u8, ((v >> 16) & 0xFF) as u8, ((v >> 8) & 0xFF) as u8, (v & 0xFF) as u8)
}

/// Unpacking undoes packing.
pub proof fn lemma_unpack_pack(r: u8, g: u8, b: u8, a: u8)
    ensures
        spec_unpack_rgba8(spec_pack_rgba8(r, g, b, a)) == (r, g, b, a),
{
    assert(((((r as u32) << 24) | ((g as u32) << 16) | ((b as u32) << 8) | (a as u32)) >> 24)
        & 0xFF == r as u32) by (bit_vector);
    assert(((((r as u32) << 24) | ((g as u32) << 16) | ((b as u32) << 8) | (a as u32)) >> 16)
        & 0xFF == g as u32) by (bit_vector);
    assert(((((r as u32) << 24) | ((g as u32) << 16) | ((b as u32) << 8) | (a as u32)) >> 8) & 0xFF
        == b as u32) by (bit_vector);
    assert(((((r as u32) << 24) | ((g as u32) << 16) | ((b as u32) << 8) | (a as u32))) & 0xFF
        == a as u32) by (bit_vector);
}

/// The packed word of a pixel slice; a slice shorter than one pixel
/// packs to zero.
pub open spec fn spec_rgba_key(pixel: Seq<u8>) -> u32 {
    if pixel.len() < 4 {
        0
    } else {
        spec_pack_rgba8(pixel[0], pixel[1], pixel[2], pixel[3])
    }
}

pub fn rgba_key(pixel: &[u8]) -> (v: u32)
    ensures
        v == spec_rgba_key(pixel@),
{
    if pixel.len() < 4 {
        return 0;
    }
    pack_rgba8(pixel[0], pixel[1], pixel[2], pixel[3])
}

/// The packed word of the pixel at a coordinate.
pub open spec fn spec_pixel_at(img: RgbaImageView, x: int, y: int) -> u32 {
    let idx = 4 * (y * (img.width as int) + x);
    spec_pack_rgba8(img.data[idx], img.data[idx + 1], img.data[idx + 2], img.data[idx + 3])
}

/// A pixel inside the image lies wholly inside its byte buffer.
proof fn lemma_pixel_index_in_bounds(w: int, h: int, x: int, y: int)
    requires
        0 <= x < w,
        0 <= y < h,
    ensures
        0 <= 4 * (y * w + x),
        4 * (y * w + x) + 3 < 4 * w * h,
{
    assert(0 <= 4 * (y * w + x) && 4 * (y * w + x) + 3 < 4 * w * h) by (nonlinear_arith)
        requires
            0 <= x < w,
            0 <= y < h,
    ;
}

/// Whether a vertical ramp read succeeds: the column is inside the
/// image, the block height is positive, and every sampled row is inside
/// the image.
pub open spec fn spec_vertical_ok(
    img: RgbaImageView,
    x: int,
    y_start: int,
    block_height: int,
    count: int,
) -> bool {
    &&& x < img.width
    &&& block_height >= 1
    &&& forall|i: int|
        0 <= i < count ==> y_start + #[trigger] (i * block_height) + block_height / 2 < img.height
}

/// The colors sampled down one column: for each step, the pixel at half
/// a block below the step's start.
pub open spec fn spec_vertical_ramp(
    img: RgbaImageView,
    x: int,
    y_start: int,
    block_height: int,
    count: int,
) -> Seq<u32> {
    Seq::new(
        count as nat,
        |i: int| spec_pixel_at(img, x, y_start + i * block_height + block_height / 2),
    )
}

/// Read `count` colors down the column at `x`, one per vertical block,
/// each sampled at half the block height; fails when the column or a
/// sampled row falls outside the image.
pub fn extract_vertical_ramp(
    img: &RgbaImage,
    x: u32,
    y_start: u32,
    block_height: u32,
    count: usize,
) -> (r: Option<Vec<u32>>)
    requires
        img.wf(),
        count <= u32::MAX,
    ensures
        r is Some <==> spec_vertical_ok(img@, x as int, y_start as int, block_height as int, count as int),
        r is Some ==> r->0@ == spec_vertical_ramp(
            img@,
            x as int,
            y_start as int,
            block_height as int,
            count as int,
        ),
{
    if x >= img.width || block_height == 0 {
        proof {
            assert(!spec_vertical_ok(img@, x as int, y_start as int, block_height as int, count as int));
        }
        return None;
    }
    let mut out: Vec<u32> = Vec::new();
    let mut i: usize = 0;
    let dlen = img.data.len();
    proof {
        assert(img@.data.len() == dlen);
    }
    let mut y: u64 = (y_start as u64) + ((block_height / 2) as u64);
    while i < count
        invariant
            0 <= i <= count,
            count <= u32::MAX,
            img.wf(),
            img@.data.len() <= usize::MAX,
            x < img.width,
            block_height >= 1,
            forall|i2: int|
                0 <= i2 < i ==> y_start + #[trigger] (i2 * (block_height as int)) + (
                block_height as int) / 2 < img.height,
            out@.len() == i,
            forall|i2: int|
                0 <= i2 < i ==> (#[trigger] out@[i2]) == spec_pixel_at(
                    img@,
                    x as int,
                    y_start + i2 * (block_height as int) + (block_height as int) / 2,
                ),
            y == (y_start as int) + i * (block_height as int) + (block_height as int) / 2,
        decreases count - i,
    {
        if y >= (img.height as u64) {
            proof {
                assert(!spec_vertical_ok(
                    img@,
                    x as int,
                    y_start as int,
                    block_height as int,
                    count as int,
                ));
            }
            return None;
        }
        proof {
            lemma_pixel_index_in_bounds(
                img.width as int,
                img.height as int,
                x as int,
                y as int,
            );
            assert((y as int) * (img.width as int) >= 0) by (nonlinear_arith)
                requires
                    y >= 0,
                    img.width >= 0,
            ;
            assert(4 * ((y as int) * (img.width as int) + (x as int)) + 3 < img@.data.len());
        }
        let idx: usize = ((4u64 * ((y * (img.width as u64)) + (x as u64)))) as usize;
        let p = pack_rgba8(img.data[idx], img.data[idx + 1], img.data[idx + 2], img.data[idx + 3]);
        out.push(p);
        proof {
            assert(out@[i as int] == spec_pixel_at(img@, x as int, y as int));
        }
        proof {
            assert((i + 1) * (block_height as int) == i * (block_height as int) + (
            block_height as int)) by (nonlinear_arith);
        }
        i = i + 1;
        y = y + (block_height as u64);
    }
    proof {
        assert(out@ =~= spec_vertical_ramp(
            img@,
            x as int,
            y_start as int,
            block_height as int,
            count as int,
        ));
    }
    Some(out)
}

/// How many variant bands a reference image offers: one per two pixel
/// rows, at least one.
pub open spec fn spec_variant_count(img: RgbaImageView) -> int {
    if (img.height as int) / 2 >= 1 {
        (img.height as int) / 2
    } else {
        1
    }
}

/// The requested variant clamped to what the image offers.
pub open spec fn spec_clamped_variant(img: RgbaImageView, variant: int) -> int {
    if variant < spec_variant_count(img) - 1 {
        variant
    } else {
        spec_variant_count(img) - 1
    }
}

/// Whether reading a ramp of `count` colors starting at `x_start`
/// succeeds: every sampled column must succeed vertically.
pub open spec fn spec_ramp_ok(img: RgbaImageView, x_start: int, count: int) -> bool {
    forall|i: int|
        0 <= i < count ==> spec_vertical_ok(
            img,
            x_start + #[trigger] (i * 2) + 1,
            0,
            2,
            spec_variant_count(img),
        )
}

/// The ramp at a variant: for each of `count` columns spaced two pixels
/// apart from `x_start`, the color of the variant's band.
pub open spec fn spec_ramp_variant(
    img: RgbaImageView,
    x_start: int,
    count: int,
    variant: int,
) -> Seq<u32> {
    Seq::new(
        count as nat,
        |i: int| spec_vertical_ramp(img, x_start + i * 2 + 1, 0, 2, spec_variant_count(img))[
            spec_clamped_variant(img, variant)
        ],
    )
}

/// Read a `count`-color ramp at the given variant band, the variant
/// clamped to what the image offers; fails when a sampled column falls
/// outside the image.
pub fn extract_ramp_variant(img: &RgbaImage, x_start: u32, count: usize, variant: usize) -> (r:
    Option<Vec<u32>>)
    requires
        img.wf(),
        count <= 1000,
        x_start <= u32::MAX - 2100,
    ensures
        r is Some <==> spec_ramp_ok(img@, x_start as int, count as int),
        r is Some ==> r->0@ == spec_ramp_variant(img@, x_start as int, count as int, variant as int),
{
    let half = img.height / 2;
    let variant_count: usize = if half >= 1 {
        half as usize
    } else {
        1
    };
    let v: usize = if variant < variant_count - 1 {
        variant
    } else {
        variant_count - 1
    };
    proof {
        assert(variant_count == spec_variant_count(img@));
        assert(v == spec_clamped_variant(img@, variant as int));
    }
    let mut out: Vec<u32> = Vec::new();
    let mut i: usize = 0;
    while i < count
        invariant
            0 <= i <= count,
            count <= 1000,
            x_start <= u32::MAX - 2100,
            img.wf(),
            variant_count == spec_variant_count(img@),
            variant_count <= u32::MAX,
            v == spec_clamped_variant(img@, variant as int),
            v < variant_count,
            forall|i2: int|
                0 <= i2 < i ==> spec_vertical_ok(
                    img@,
                    x_start + #[trigger] (i2 * 2) + 1,
                    0,
                    2,
                    variant_count as int,
                ),
            out@.len() == i,
            forall|i2: int|
                0 <= i2 < i ==> (#[trigger] out@[i2]) == spec_vertical_ramp(
                    img@,
                    x_start + i2 * 2 + 1,
                    0,
                    2,
                    variant_count as int,
                )[v as int],
        decreases count - i,
    {
        let x: u32 = x_start + (i as u32) * 2 + 1;
        let strip = match extract_vertical_ramp(img, x, 0, 2, variant_count) {
            Some(strip) => strip,
            None => {
                proof {
                    assert(!spec_ramp_ok(img@, x_start as int, count as int));
                }
                return None;
            },
        };
        out.push(strip[v]);
        i = i + 1;
    }
    proof {
        assert(out@ =~= spec_ramp_variant(img@, x_start as int, count as int, variant as int));
    }
    Some(out)
}

/// One substitution: a packed source color and the replacement channels.
#[derive(Debug, Clone, Copy, PartialEq, Eq, Structural)]
pub struct RemapEntry {
    pub from: u32,
    pub to_r: u8,
    pub to_g: u8,
    pub to_b: u8,
    pub to_a: u8,
}

/// A remap table: substitutions in insertion order; a later entry for
/// the same source color wins, as each build appends pair by pair.
#[derive(Debug, Clone)]
pub struct RemapTable {
    pub entries: Vec<RemapEntry>,
}

/// The replacement for a packed color: the last entry bearing it.
pub open spec fn spec_table_lookup(entries: Seq<RemapEntry>, key: u32) -> Option<RemapEntry>
    decreases entries.len(),
{
    if entries.len() == 0 {
        None
    } else if entries.last().from == key {
        Some(entries.last())
    } else {
        spec_table_lookup(entries.drop_last(), key)
    }
}

/// The three color channels of a pixel packed into the low 24 bits,
/// red highest: the key a pixel is matched by, its own alpha ignored.
pub open spec fn spec_pack_rgb(r: u8, g: u8, b: u8) -> u32 {
    ((r as u32) << 16) | ((g as u32) << 8) | (b as u32)
}

pub fn pack_rgb(r: u8, g: u8, b: u8) -> (v: u32)
    ensures
        v == spec_pack_rgb(r, g, b),
{
    ((r as u32) << 16) | ((g as u32) << 8) | (b as u32)
}

/// The replacement for a pixel's three color channels: the last entry
/// whose source color shares them, whatever either alpha byte holds.
pub open spec fn spec_table_lookup_rgb(entries: Seq<RemapEntry>, rgb: u32) -> Option<RemapEntry>
    decreases entries.len(),
{
    if entries.len() == 0 {
        None
    } else if entries.last().from >> 8 == rgb {
        Some(entries.last())
    } else {
        spec_table_lookup_rgb(entries.drop_last(), rgb)
    }
}

impl RemapTable {
    /// The replacement for a packed color, if the table holds one.
    pub fn lookup(&self, key: u32) -> (r: Option<RemapEntry>)
        ensures
            r == spec_table_lookup(self.entries@, key),
    {
        let mut k: usize = self.entries.len();
        proof {
            assert(self.entries@.subrange(0, self.entries@.len() as int) =~= self.entries@);
        }
        while k > 0
            invariant
                0 <= k <= self.entries@.len(),
                spec_table_lookup(self.entries@, key) == spec_table_lookup(
                    self.entries@.subrange(0, k as int),
                    key,
                ),
            decreases k,
        {
            k = k - 1;
            if self.entries[k].from == key {
                proof {
                    assert(self.entries@.subrange(0, k + 1).last() == self.entries@[k as int]);
                }
                return Some(self.entries[k]);
            }
            proof {
                assert(self.entries@.subrange(0, k + 1).last() == self.entries@[k as int]);
                assert(self.entries@.subrange(0, k + 1).drop_last() =~= self.entries@.subrange(
                    0,
                    k as int,
                ));
            }
        }
        proof {
            assert(self.entries@.subrange(0, 0) =~= Seq::<RemapEntry>::empty());
        }
        None
    }

    /// The replacement for a pixel's three color channels, if the table
    /// holds a source color sharing them; the pixel's own alpha plays no
    /// part in the match.
    pub fn lookup_rgb(&self, rgb: u32) -> (r: Option<RemapEntry>)
        ensures
            r == spec_table_lookup_rgb(self.entries@, rgb),
    {
        let mut k: usize = self.entries.len();
        proof {
            assert(self.entries@.subrange(0, self.entries@.len() as int) =~= self.entries@);
        }
        while k > 0
            invariant
                0 <= k <= self.entries@.len(),
                spec_table_lookup_rgb(self.entries@, rgb) == spec_table_lookup_rgb(
                    self.entries@.subrange(0, k as int),
                    rgb,
                ),
            decreases k,
        {
            k = k - 1;
            if self.entries[k].from >> 8 == rgb {
                proof {
                    assert(self.entries@.subrange(0, k + 1).last() == self.entries@[k as int]);
                }
                return Some(self.entries[k]);
            }
            proof {
                assert(self.entries@.subrange(0, k + 1).last() == self.entries@[k as int]);
                assert(self.entries@.subrange(0, k + 1).drop_last() =~= self.entries@.subrange(
                    0,
                    k as int,
                ));
            }
        }
        proof {
            assert(self.entries@.subrange(0, 0) =~= Seq::<RemapEntry>::empty());
        }
        None
    }

    /// A copy of this table.
    pub fn clone_table(&self) -> (r: RemapTable)
        ensures
            r.entries@ == self.entries@,
    {
        let mut entries: Vec<RemapEntry> = Vec::new();
        let mut k: usize = 0;
        while k < self.entries.len()
            invariant
                0 <= k <= self.entries@.len(),
                entries@ == self.entries@.subrange(0, k as int),
            decreases self.entries@.len() - k,
        {
            entries.push(self.entries[k]);
            proof {
                assert(entries@ =~= self.entries@.subrange(0, k + 1));
            }
            k = k + 1;
        }
        proof {
            assert(entries@ =~= self.entries@);
        }
        RemapTable { entries }
    }
}

/// One loaded palette reference image, under its catalog key.
#[derive(Debug, Clone)]
pub struct PaletteImage {
    pub key: String,
    pub image: RgbaImage,
}

/// Mathematical image of a [`PaletteImage`].
pub struct PaletteImageView {
    pub key: Seq<char>,
    pub image: RgbaImageView,
}

impl View for PaletteImage {
    type V = PaletteImageView;

    open spec fn view(&self) -> PaletteImageView {
        PaletteImageView { key: self.key@, image: self.image@ }
    }
}

/// The views of the loaded palette images.
pub open spec fn spec_palette_image_views(ps: Seq<PaletteImage>) -> Seq<PaletteImageView> {
    Seq::new(ps.len(), |k: int| ps[k]@)
}

/// Whether a lowercased key ends with the given tail.
pub open spec fn spec_key_ends_with(key: Seq<char>, tail: Seq<char>) -> bool {
    let lk = spec_lower_seq(key);
    lk.len() >= tail.len() && lk.subrange(lk.len() - tail.len(), lk.len() as int) == tail
}

/// The first loaded image whose lowercased key ends with the tail,
/// searched from position `k` on.
pub open spec fn spec_find_image_from(
    ps: Seq<PaletteImageView>,
    tail: Seq<char>,
    k: int,
) -> Option<RgbaImageView>
    decreases ps.len() - k,
{
    if k < 0 || k >= ps.len() {
        None
    } else if spec_key_ends_with(ps[k].key, tail) {
        Some(ps[k].image)
    } else {
        spec_find_image_from(ps, tail, k + 1)
    }
}

/// The canonical variant count: how many two-row bands the generic
/// three-color ramp family offers, or one when that reference is not
/// among the loaded images.
pub open spec fn spec_canonical_variant_count(ps: Seq<PaletteImageView>) -> int {
    match spec_find_image_from(ps, "palettes/mana seed 3-color ramps"@, 0) {
        Some(img) => if (img.height as int) / 2 >= 1 {
            (img.height as int) / 2
        } else {
            1
        },
        None => 1,
    }
}

/// Find the first loaded image whose lowercased key ends with the tail.
pub fn find_palette_image<'a>(ps: &'a Vec<PaletteImage>, key_tail: &str) -> (r: Option<
    &'a RgbaImage,
>)
    ensures
        match r {
            Some(img) => spec_find_image_from(spec_palette_image_views(ps@), key_tail@, 0) == Some(
                img@,
            ),
            None => spec_find_image_from(spec_palette_image_views(ps@), key_tail@, 0) is None,
        },
{
    let tail_len = key_tail.unicode_len();
    let mut k: usize = 0;
    while k < ps.len()
        invariant
            0 <= k <= ps@.len(),
            tail_len == key_tail@.len(),
            spec_find_image_from(spec_palette_image_views(ps@), key_tail@, 0)
                == spec_find_image_from(spec_palette_image_views(ps@), key_tail@, k as int),
        decreases ps@.len() - k,
    {
        let key_chars = crate::ident::str_to_chars(ps[k].key.as_str());
        let matches_tail = key_chars.len() >= tail_len && {
            let start = key_chars.len() - tail_len;
            crate::palette::lower_match_at(&key_chars, start, key_tail)
        };
        proof {
            assert(spec_lower_seq(key_chars@).len() == key_chars@.len());
            assert(matches_tail == spec_key_ends_with(
                spec_palette_image_views(ps@)[k as int].key,
                key_tail@,
            ));
        }
        if matches_tail {
            return Some(&ps[k].image);
        }
        k = k + 1;
    }
    None
}

/// The entries one source/target ramp pair appends: source color `i` at
/// the base variant maps to target color `i` at the requested variant,
/// with the target's channels unpacked.
pub open spec fn spec_pair_entries(
    source: RgbaImageView,
    sx: int,
    count: int,
    target: RgbaImageView,
    tx: int,
    variant: int,
) -> Seq<RemapEntry> {
    let sramp = spec_ramp_variant(source, sx, count, 0);
    let tramp = spec_ramp_variant(target, tx, count, variant);
    Seq::new(
        count as nat,
        |i: int|
            {
                let (r, g, b, a) = spec_unpack_rgba8(tramp[i]);
                RemapEntry { from: sramp[i], to_r: r, to_g: g, to_b: b, to_a: a }
            },
    )
}

/// What appending one ramp pair yields: the looked-up reference images
/// and both ramp reads must succeed, else there is no table.
pub open spec fn spec_add_pair(
    entries: Seq<RemapEntry>,
    ps: Seq<PaletteImageView>,
    skey: Seq<char>,
    sx: int,
    count: int,
    tkey: Seq<char>,
    tx: int,
    variant: int,
) -> Option<Seq<RemapEntry>> {
    match spec_find_image_from(ps, skey, 0) {
        None => None,
        Some(source) => match spec_find_image_from(ps, tkey, 0) {
            None => None,
            Some(target) => if source.wf() && target.wf() && spec_ramp_ok(source, sx, count)
                && spec_ramp_ok(target, tx, count) {
                Some(entries + spec_pair_entries(source, sx, count, target, tx, variant))
            } else {
                None
            },
        },
    }
}

/// Append one source/target ramp pair to the table under construction.
fn add_pair(
    table: &mut RemapTable,
    ps: &Vec<PaletteImage>,
    skey: &str,
    sx: u32,
    count: usize,
    tkey: &str,
    tx: u32,
    variant: usize,
) -> (ok: bool)
    requires
        forall|k: int| 0 <= k < ps@.len() ==> (#[trigger] ps@[k])@.image.wf(),
        count <= 1000,
        sx <= 1000000,
        tx <= 1000000,
    ensures
        match spec_add_pair(
            old(table).entries@,
            spec_palette_image_views(ps@),
            skey@,
            sx as int,
            count as int,
            tkey@,
            tx as int,
            variant as int,
        ) {
            Some(entries) => ok && final(table).entries@ == entries,
            None => !ok && final(table).entries@ == old(table).entries@,
        },
{
    let source = match find_palette_image(ps, skey) {
        Some(img) => img,
        None => {
            return false;
        },
    };
    let target = match find_palette_image(ps, tkey) {
        Some(img) => img,
        None => {
            return false;
        },
    };
    proof {
        let psv = spec_palette_image_views(ps@);
        lemma_find_witness(psv, skey@, 0);
        lemma_find_witness(psv, tkey@, 0);
        let w1 = spec_find_witness(psv, skey@, 0);
        let w2 = spec_find_witness(psv, tkey@, 0);
        assert(psv[w1] == ps@[w1]@ && ps@[w1]@.image.wf());
        assert(psv[w2] == ps@[w2]@ && ps@[w2]@.image.wf());
        assert(source@.wf());
        assert(target@.wf());
    }
    let sramp = match extract_ramp_variant(source, sx, count, 0) {
        Some(ramp) => ramp,
        None => {
            return false;
        },
    };
    let tramp = match extract_ramp_variant(target, tx, count, variant) {
        Some(ramp) => ramp,
        None => {
            return false;
        },
    };
    let ghost before = table.entries@;
    let ghost appended = spec_pair_entries(source@, sx as int, count as int, target@, tx as int, variant as int);
    let mut i: usize = 0;
    while i < count
        invariant
            0 <= i <= count,
            sramp@.len() == count,
            tramp@.len() == count,
            sramp@ == spec_ramp_variant(source@, sx as int, count as int, 0),
            tramp@ == spec_ramp_variant(target@, tx as int, count as int, variant as int),
            appended == spec_pair_entries(
                source@,
                sx as int,
                count as int,
                target@,
                tx as int,
                variant as int,
            ),
            table.entries@ == before + appended.subrange(0, i as int),
        decreases count - i,
    {
        let (r, g, b, a) = unpack_rgba8(tramp[i]);
        table.entries.push(RemapEntry { from: sramp[i], to_r: r, to_g: g, to_b: b, to_a: a });
        proof {
            assert(appended[i as int] == RemapEntry { from: sramp@[i as int], to_r: r, to_g: g, to_b: b, to_a: a });
            assert(table.entries@ =~= before + appended.subrange(0, i + 1));
        }
        i = i + 1;
    }
    proof {
        assert(appended.subrange(0, count as int) =~= appended);
    }
    true
}

/// The position the search would find, named so a caller can reason
/// about the found image's well-formedness.
pub open spec fn spec_find_witness(ps: Seq<PaletteImageView>, tail: Seq<char>, k: int) -> int
    decreases ps.len() - k,
{
    if k < 0 || k >= ps.len() {
        -1
    } else if spec_key_ends_with(ps[k].key, tail) {
        k
    } else {
        spec_find_witness(ps, tail, k + 1)
    }
}

/// The search yields exactly the image at its witness position.
pub proof fn lemma_find_witness(ps: Seq<PaletteImageView>, tail: Seq<char>, k: int)
    ensures
        spec_find_image_from(ps, tail, k) is Some ==> {
            let w = spec_find_witness(ps, tail, k);
            0 <= w < ps.len() && spec_find_image_from(ps, tail, k) == Some(ps[w].image)
        },
    decreases ps.len() - k,
{
    if 0 <= k < ps.len() && !spec_key_ends_with(ps[k].key, tail) {
        lemma_find_witness(ps, tail, k + 1);
    }
}

/// The fixed ramp geometry of one palette suffix, and the table it
/// yields at a variant: each suffix names one to three source/target
/// ramp pairs; a letter outside the scheme, a missing reference image or
/// a failed ramp read yields no table, and so does an empty result.
pub open spec fn spec_build_table(
    suffix: char,
    variant: int,
    ps: Seq<PaletteImageView>,
) -> Option<Seq<RemapEntry>> {
    let e0 = Seq::<RemapEntry>::empty();
    let out = if suffix == 'a' {
        spec_add_pair(
            e0,
            ps,
            "palettes/base ramps/3-color base ramp (00a)"@,
            0,
            4,
            "palettes/mana seed 3-color ramps"@,
            0,
            variant,
        )
    } else if suffix == 'b' {
        spec_add_pair(
            e0,
            ps,
            "palettes/base ramps/4-color base ramp (00b)"@,
            0,
            5,
            "palettes/mana seed 4-color ramps"@,
            0,
            variant,
        )
    } else if suffix == 'c' {
        match spec_add_pair(
            e0,
            ps,
            "palettes/base ramps/2x 3-color base ramps (00c)"@,
            0,
            4,
            "palettes/mana seed 3-color ramps"@,
            0,
            variant,
        ) {
            None => None,
            Some(e1) => spec_add_pair(
                e1,
                ps,
                "palettes/base ramps/2x 3-color base ramps (00c)"@,
                8,
                4,
                "palettes/mana seed 3-color ramps"@,
                0,
                variant,
            ),
        }
    } else if suffix == 'd' {
        match spec_add_pair(
            e0,
            ps,
            "palettes/base ramps/4-color + 3-color base ramps (00d)"@,
            0,
            5,
            "palettes/mana seed 4-color ramps"@,
            0,
            variant,
        ) {
            None => None,
            Some(e1) => spec_add_pair(
                e1,
                ps,
                "palettes/base ramps/4-color + 3-color base ramps (00d)"@,
                10,
                4,
                "palettes/mana seed 3-color ramps"@,
                0,
                variant,
            ),
        }
    } else if suffix == 'f' {
        match spec_add_pair(
            e0,
            ps,
            "palettes/base ramps/4-color base ramp (00b)"@,
            0,
            5,
            "palettes/mana seed 4-color ramps"@,
            0,
            variant,
        ) {
            None => None,
            Some(e1) => match spec_add_pair(
                e1,
                ps,
                "palettes/base ramps/skin color base ramp"@,
                0,
                5,
                "palettes/mana seed skin ramps"@,
                0,
                variant,
            ) {
                None => None,
                Some(e2) => spec_add_pair(
                    e2,
                    ps,
                    "palettes/base ramps/hair color base ramp"@,
                    0,
                    6,
                    "palettes/mana seed hair ramps"@,
                    0,
                    variant,
                ),
            },
        }
    } else {
        None
    };
    match out {
        None => None,
        Some(entries) => if entries.len() == 0 {
            None
        } else {
            Some(entries)
        },
    }
}

/// Build the substitution table of one palette suffix at one variant
/// from the loaded reference images, or yield no table when a reference
/// is missing or unreadable; the caller then renders the part unchanged.
pub fn build_part_palette_remap_map(
    suffix: char,
    variant: usize,
    ps: &Vec<PaletteImage>,
) -> (r: Option<RemapTable>)
    requires
        forall|k: int| 0 <= k < ps@.len() ==> (#[trigger] ps@[k])@.image.wf(),
    ensures
        match r {
            Some(table) => spec_build_table(suffix, variant as int, spec_palette_image_views(ps@))
                == Some(table.entries@),
            None => spec_build_table(suffix, variant as int, spec_palette_image_views(ps@)) is None,
        },
{
    let mut table = RemapTable { entries: Vec::new() };
    let ok: bool = if suffix == 'a' {
        add_pair(&mut table, ps, "palettes/base ramps/3-color base ramp (00a)", 0, 4,
            "palettes/mana seed 3-color ramps", 0, variant)
    } else if suffix == 'b' {
        add_pair(&mut table, ps, "palettes/base ramps/4-color base ramp (00b)", 0, 5,
            "palettes/mana seed 4-color ramps", 0, variant)
    } else if suffix == 'c' {
        add_pair(&mut table, ps, "palettes/base ramps/2x 3-color base ramps (00c)", 0, 4,
            "palettes/mana seed 3-color ramps", 0, variant) && add_pair(&mut table, ps,
            "palettes/base ramps/2x 3-color base ramps (00c)", 8, 4,
            "palettes/mana seed 3-color ramps", 0, variant)
    } else if suffix == 'd' {
        add_pair(&mut table, ps, "palettes/base ramps/4-color + 3-color base ramps (00d)", 0, 5,
            "palettes/mana seed 4-color ramps", 0, variant) && add_pair(&mut table, ps,
            "palettes/base ramps/4-color + 3-color base ramps (00d)", 10, 4,
            "palettes/mana seed 3-color ramps", 0, variant)
    } else if suffix == 'f' {
        add_pair(&mut table, ps, "palettes/base ramps/4-color base ramp (00b)", 0, 5,
            "palettes/mana seed 4-color ramps", 0, variant) && add_pair(&mut table, ps,
            "palettes/base ramps/skin color base ramp", 0, 5, "palettes/mana seed skin ramps", 0,
            variant) && add_pair(&mut table, ps, "palettes/base ramps/hair color base ramp", 0, 6,
            "palettes/mana seed hair ramps", 0, variant)
    } else {
        false
    };
    if ok && table.entries.len() > 0 {
        Some(table)
    } else {
        None
    }
}

/// The suffix a part without its own palette letter still recolors by:
/// body and hair sheets use the generic skin and hair ramp family.
pub open spec fn spec_inferred_suffix(layer: LayerCode) -> Option<char> {
    match layer {
        LayerCode::Body01 => Some('f'),
        LayerCode::Hair13 => Some('f'),
        _ => None,
    }
}

pub fn inferred_palette_suffix_for_layer(layer: LayerCode) -> (r: Option<char>)
    ensures
        r == spec_inferred_suffix(layer),
{
    match layer {
        LayerCode::Body01 | LayerCode::Hair13 => Some('f'),
        _ => None,
    }
}

/// One byte of the remapped pixel buffer: the pixel's three color
/// channels are matched against the table's source colors, the pixel's
/// own alpha ignored; a hit replaces the color channels and keeps the
/// pixel's alpha, a miss leaves the pixel untouched.
pub open spec fn spec_remapped_byte(data: Seq<u8>, entries: Seq<RemapEntry>, k: int) -> u8 {
    let p = 4 * (k / 4);
    let rgb = spec_pack_rgb(data[p], data[p + 1], data[p + 2]);
    match spec_table_lookup_rgb(entries, rgb) {
        Some(e) => if k % 4 == 0 {
            e.to_r
        } else if k % 4 == 1 {
            e.to_g
        } else if k % 4 == 2 {
            e.to_b
        } else {
            data[k]
        },
        None => data[k],
    }
}

/// The whole remapped pixel buffer.
pub open spec fn spec_remapped_data(data: Seq<u8>, entries: Seq<RemapEntry>) -> Seq<u8> {
    Seq::new(data.len(), |k: int| spec_remapped_byte(data, entries, k))
}

/// Apply a remap table to an image: every pixel whose three color
/// channels match a table entry's source color, its own alpha ignored,
/// has its color channels replaced and its alpha kept. Yields the new
/// image, or nothing when no pixel changed, so a caller keeps the
/// source.
pub fn remap_image_colors(image: &RgbaImage, table: &RemapTable) -> (r: Option<RgbaImage>)
    requires
        image.wf(),
    ensures
        r is Some <==> spec_remapped_data(image@.data, table.entries@) != image@.data,
        r is Some ==> r->0@.width == image.width && r->0@.height == image.height && r->0@.data
            == spec_remapped_data(image@.data, table.entries@),
        r is Some ==> r->0.wf(),
{
    let mut out: Vec<u8> = Vec::new();
    let mut changed = false;
    let len = image.data.len();
    let mut p: usize = 0;
    proof {
        let m = (image@.width as int) * (image@.height as int);
        assert(4 * m == 4 * (image@.width as int) * (image@.height as int)) by (nonlinear_arith)
            requires
                m == (image@.width as int) * (image@.height as int),
        ;
        assert(image@.data.len() == 4 * m);
        assert(image@.data.len() % 4 == 0);
    }
    while p < len
        invariant
            len == image@.data.len(),
            len % 4 == 0,
            0 <= p <= len,
            p % 4 == 0,
            out@.len() == p,
            forall|k: int|
                0 <= k < p ==> (#[trigger] out@[k]) == spec_remapped_byte(
                    image@.data,
                    table.entries@,
                    k,
                ),
            changed == exists|k: int| 0 <= k < p && out@[k] != image@.data[k],
        decreases len - p,
    {
        let b0 = image.data[p];
        let b1 = image.data[p + 1];
        let b2 = image.data[p + 2];
        let b3 = image.data[p + 3];
        let rgb = pack_rgb(b0, b1, b2);
        let ghost out_before = out@;
        let ghost changed_before = changed;
        match table.lookup_rgb(rgb) {
            Some(e) => {
                out.push(e.to_r);
                out.push(e.to_g);
                out.push(e.to_b);
                out.push(b3);
                if e.to_r != b0 || e.to_g != b1 || e.to_b != b2 {
                    changed = true;
                }
            },
            None => {
                out.push(b0);
                out.push(b1);
                out.push(b2);
                out.push(b3);
            },
        }
        proof {
            assert forall|k: int| p <= k < p + 4 implies (#[trigger] out@[k]) == spec_remapped_byte(
                image@.data,
                table.entries@,
                k,
            ) by {
                assert(4 * (k / 4) == p);
            }
            assert forall|k: int| 0 <= k < p implies (#[trigger] out@[k]) == out_before[k] by {}
            if changed {
                if changed_before {
                    let k = choose|k: int| 0 <= k < p && out_before[k] != image@.data[k];
                    assert(out@[k] != image@.data[k]);
                } else {
                    let e = spec_table_lookup_rgb(table.entries@, spec_pack_rgb(b0, b1, b2))->0;
                    if e.to_r != b0 {
                        assert(out@[p as int] != image@.data[p as int]);
                    } else if e.to_g != b1 {
                        assert(out@[p + 1] != image@.data[p + 1]);
                    } else {
                        assert(out@[p + 2] != image@.data[p + 2]);
                    }
                }
            }
            if !changed {
                assert forall|k: int| 0 <= k < p + 4 implies out@[k] == image@.data[k] by {
                    if k < p {
                    } else {
                        assert(out@[k] == spec_remapped_byte(image@.data, table.entries@, k));
                        assert(4 * (k / 4) == p);
                    }
                }
            }
        }
        p = p + 4;
    }
    proof {
        assert(p == len);
        assert(out@ =~= spec_remapped_data(image@.data, table.entries@));
        if changed {
            let k = choose|k: int| 0 <= k < p && out@[k] != image@.data[k];
            assert(spec_remapped_data(image@.data, table.entries@)[k] != image@.data[k]);
        } else {
            assert(out@ =~= image@.data);
        }
    }
    if changed {
        let r = RgbaImage { width: image.width, height: image.height, data: out };
        Some(r)
    } else {
        None
    }
}


/// One memoized substitution table.
#[derive(Debug, Clone)]
pub struct CachedTable {
    pub suffix: char,
    pub variant: usize,
    pub table: RemapTable,
}

/// One memoized recolored image.
#[derive(Debug, Clone)]
pub struct CachedImage {
    pub key: String,
    pub variant: usize,
    pub image: RgbaImage,
}

/// The first memoized image for a source key and variant.
pub open spec fn spec_cached_image(
    images: Seq<CachedImage>,
    key: Seq<char>,
    variant: usize,
) -> Option<RgbaImageView>
    decreases images.len(),
{
    if images.len() == 0 {
        None
    } else if images[0].key@ == key && images[0].variant == variant {
        Some(images[0].image@)
    } else {
        spec_cached_image(images.skip(1), key, variant)
    }
}

/// The remap engine: the loaded reference images and both memo caches.
/// Tables are shared by every part using a suffix; recolored images are
/// memoized by source identity and variant. A catalog rescan clears
/// both caches.
#[derive(Debug, Clone)]
pub struct RemapEngine {
    pub palettes: Vec<PaletteImage>,
    pub tables: Vec<CachedTable>,
    pub images: Vec<CachedImage>,
}

impl RemapEngine {
    /// Every reference image is well formed and every memoized table is
    /// exactly what a fresh build would yield.
    pub open spec fn wf(self) -> bool {
        &&& forall|k: int| 0 <= k < self.palettes@.len() ==> (#[trigger] self.palettes@[k])@.image.wf()
        &&& forall|t: int|
            0 <= t < self.tables@.len() ==> spec_build_table(
                (#[trigger] self.tables@[t]).suffix,
                self.tables@[t].variant as int,
                spec_palette_image_views(self.palettes@),
            ) == Some(self.tables@[t].table.entries@)
        &&& forall|t: int|
            0 <= t < self.images@.len() ==> (#[trigger] self.images@[t]).image.wf()
    }

    /// An engine over the loaded reference images, with empty caches.
    pub fn new(palettes: Vec<PaletteImage>) -> (r: RemapEngine)
        requires
            forall|k: int| 0 <= k < palettes@.len() ==> (#[trigger] palettes@[k])@.image.wf(),
        ensures
            r.wf(),
            r.palettes@ == palettes@,
            r.tables@.len() == 0,
            r.images@.len() == 0,
    {
        RemapEngine { palettes, tables: Vec::new(), images: Vec::new() }
    }

    /// Drop everything memoized and take a freshly scanned reference
    /// set: the hook a catalog rescan calls.
    pub fn clear_caches(&mut self, palettes: Vec<PaletteImage>)
        requires
            forall|k: int| 0 <= k < palettes@.len() ==> (#[trigger] palettes@[k])@.image.wf(),
        ensures
            final(self).wf(),
            final(self).palettes@ == palettes@,
            final(self).tables@.len() == 0,
            final(self).images@.len() == 0,
    {
        self.palettes = palettes;
        self.tables = Vec::new();
        self.images = Vec::new();
    }

    /// The substitution table of a suffix at a variant, memoized: a
    /// cached table is returned as built, and a fresh build is cached
    /// when it succeeds.
    pub fn table_for(&mut self, suffix: char, variant: usize) -> (r: Option<RemapTable>)
        requires
            old(self).wf(),
        ensures
            final(self).wf(),
            final(self).palettes@ == old(self).palettes@,
            final(self).images@ == old(self).images@,
            match r {
                Some(table) => spec_build_table(
                    suffix,
                    variant as int,
                    spec_palette_image_views(old(self).palettes@),
                ) == Some(table.entries@),
                None => spec_build_table(
                    suffix,
                    variant as int,
                    spec_palette_image_views(old(self).palettes@),
                ) is None,
            },
    {
        let mut t: usize = 0;
        while t < self.tables.len()
            invariant
                0 <= t <= self.tables@.len(),
                self.wf(),
            decreases self.tables@.len() - t,
        {
            if self.tables[t].suffix == suffix && self.tables[t].variant == variant {
                return Some(self.tables[t].table.clone_table());
            }
            t = t + 1;
        }
        match build_part_palette_remap_map(suffix, variant, &self.palettes) {
            Some(table) => {
                let ghost tables_before = self.tables@;
                self.tables.push(
                    CachedTable { suffix, variant, table: table.clone_table() },
                );
                proof {
                    assert forall|t2: int| 0 <= t2 < self.tables@.len() implies spec_build_table(
                        (#[trigger] self.tables@[t2]).suffix,
                        self.tables@[t2].variant as int,
                        spec_palette_image_views(self.palettes@),
                    ) == Some(self.tables@[t2].table.entries@) by {
                        if t2 < tables_before.len() {
                            assert(self.tables@[t2] == tables_before[t2]);
                        }
                    }
                }
                Some(table)
            },
            None => None,
        }
    }

    /// The substitution table a part recolors by at a variant: the
    /// part's own palette letter, or its layer's inferred family; a part
    /// outside the palette scheme has none.
    pub fn palette_remap_map_for_part(
        &mut self,
        part: &crate::catalog::PartDef,
        variant: usize,
    ) -> (r: Option<RemapTable>)
        requires
            old(self).wf(),
        ensures
            final(self).wf(),
            final(self).palettes@ == old(self).palettes@,
            ({
                let suffix = if part@.part_id.palette is Some {
                    part@.part_id.palette
                } else {
                    spec_inferred_suffix(part@.part_id.layer)
                };
                match suffix {
                    None => r is None,
                    Some(s) => match r {
                        Some(table) => spec_build_table(
                            s,
                            variant as int,
                            spec_palette_image_views(old(self).palettes@),
                        ) == Some(table.entries@),
                        None => spec_build_table(
                            s,
                            variant as int,
                            spec_palette_image_views(old(self).palettes@),
                        ) is None,
                    },
                }
            }),
    {
        let suffix = match part.part_id.palette {
            Some(p) => p,
            None => match inferred_palette_suffix_for_layer(part.part_id.layer) {
                Some(p) => p,
                None => {
                    return None;
                },
            },
        };
        self.table_for(suffix, variant)
    }

    /// The recolored image of a source at a variant, memoized by the
    /// source's key: a memoized image is returned as stored; otherwise
    /// the table is applied, a changed result is stored and returned,
    /// and an unchanged one is returned as the source itself, uncached.
    pub fn remapped_image(
        &mut self,
        source_key: &str,
        variant: usize,
        source: &RgbaImage,
        table: &RemapTable,
    ) -> (r: RgbaImage)
        requires
            old(self).wf(),
            source.wf(),
        ensures
            final(self).wf(),
            final(self).palettes@ == old(self).palettes@,
            final(self).tables@ == old(self).tables@,
            match spec_cached_image(old(self).images@, source_key@, variant) {
                Some(img) => r@ == img && final(self).images@ == old(self).images@,
                None => if spec_remapped_data(source@.data, table.entries@) != source@.data {
                    &&& r@ == (RgbaImageView {
                        width: source@.width,
                        height: source@.height,
                        data: spec_remapped_data(source@.data, table.entries@),
                    })
                    &&& final(self).images@.len() == old(self).images@.len() + 1
                    &&& (forall|t: int|
                        0 <= t < old(self).images@.len() ==> (#[trigger] final(self).images@[t])
                            == old(self).images@[t])
                    &&& final(self).images@.last().key@ == source_key@
                    &&& final(self).images@.last().variant == variant
                    &&& final(self).images@.last().image@ == r@
                } else {
                    &&& r@ == source@
                    &&& final(self).images@ == old(self).images@
                },
            },
    {
        let mut t: usize = 0;
        proof {
            assert(self.images@.skip(0) =~= self.images@);
        }
        while t < self.images.len()
            invariant
                0 <= t <= self.images@.len(),
                self.wf(),
                spec_cached_image(self.images@, source_key@, variant) == spec_cached_image(
                    self.images@.skip(t as int),
                    source_key@,
                    variant,
                ),
            decreases self.images@.len() - t,
        {
            let hit = crate::order::str_cmp(self.images[t].key.as_str(), source_key) == 0
                && self.images[t].variant == variant;
            proof {
                assert(self.images@.skip(t as int)[0] == self.images@[t as int]);
                assert(self.images@.skip(t as int).skip(1) =~= self.images@.skip(t + 1));
            }
            if hit {
                return self.images[t].image.clone_image();
            }
            t = t + 1;
        }
        match remap_image_colors(source, table) {
            Some(remapped) => {
                let stored = remapped.clone_image();
                let ghost images_before = self.images@;
                self.images.push(
                    CachedImage { key: source_key.to_owned(), variant, image: stored },
                );
                proof {
                    assert forall|t2: int| 0 <= t2 < self.images@.len() implies (#[trigger] self.images@[t2]).image.wf() by {
                        if t2 < images_before.len() {
                            assert(self.images@[t2] == images_before[t2]);
                        }
                    }
                }
                remapped
            },
            None => source.clone_image(),
        }
    }

    /// How many recolor variants the palette at a position of the loaded
    /// reference list offers: its own band count when it has more than
    /// one band, else the canonical ramp family's count; a position
    /// outside the list counts one.
    pub fn palette_variant_count(&self, palette_index: usize) -> (r: usize)
        ensures
            r >= 1,
            palette_index >= self.palettes@.len() ==> r == 1,
            palette_index < self.palettes@.len() ==> {
                let own = (self.palettes@[palette_index as int]@.image.height as int) / 2;
                if own > 1 {
                    r == own
                } else {
                    r == spec_canonical_variant_count(spec_palette_image_views(self.palettes@))
                }
            },
    {
        if palette_index >= self.palettes.len() {
            return 1;
        }
        let h = self.palettes[palette_index].image.height;
        let count = h / 2;
        if count > 1 {
            count as usize
        } else {
            self.canonical_variant_count()
        }
    }

    /// The canonical variant count: the bands of the generic three-color
    /// ramp family, or one when that reference is not loaded.
    pub fn canonical_variant_count(&self) -> (r: usize)
        ensures
            r >= 1,
            r == spec_canonical_variant_count(spec_palette_image_views(self.palettes@)),
            match spec_find_image_from(
                spec_palette_image_views(self.palettes@),
                "palettes/mana seed 3-color ramps"@,
                0,
            ) {
                Some(img) => r == if (img.height as int) / 2 >= 1 {
                    (img.height as int) / 2
                } else {
                    1int
                },
                None => r == 1,
            },
    {
        match find_palette_image(&self.palettes, "palettes/mana seed 3-color ramps") {
            Some(img) => {
                let count = img.height / 2;
                if count >= 1 {
                    count as usize
                } else {
                    1
                }
            },
            None => 1,
        }
    }
}

} // verus!
