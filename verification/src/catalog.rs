//! The part catalog: records, stable part keys, outfit-set keys, and the
//! ordering in which each layer's parts are browsed.

use vstd::prelude::*;

use crate::ident::{PartId, PartIdView};
use crate::layers::{LayerCode, Slot, Special};
use crate::order::{lex_lt, lemma_lex_lt_transitive, lemma_lex_lt_trichotomy, str_cmp};

verus! {

/// Identity of an outfit set: all parts sharing a name, version and
/// palette across layers belong to one designed outfit.
#[derive(Debug, Clone)]
pub struct OutfitSetKey {
    pub name: String,
    pub version: u8,
    pub palette: Option<char>,
}

/// Mathematical image of an [`OutfitSetKey`].
pub struct SetKeyView {
    pub name: Seq<char>,
    pub version: u8,
    pub palette: Option<char>,
}

impl View for OutfitSetKey {
    type V = SetKeyView;

    open spec fn view(&self) -> SetKeyView {
        SetKeyView { name: self.name@, version: self.version, palette: self.palette }
    }
}

/// One catalog entry: the stable part key, the parsed identity, the
/// mutual-exclusion slot of its layer, and the root-relative image path.
#[derive(Debug, Clone)]
pub struct PartDef {
    pub part_key: String,
    pub part_id: PartId,
    pub slot: Option<Slot>,
    pub image_path: String,
}

/// Mathematical image of a [`PartDef`].
pub struct PartDefView {
    pub part_key: Seq<char>,
    pub part_id: PartIdView,
    pub slot: Option<Slot>,
    pub image_path: Seq<char>,
}

impl View for PartDef {
    type V = PartDefView;

    open spec fn view(&self) -> PartDefView {
        PartDefView {
            part_key: self.part_key@,
            part_id: self.part_id@,
            slot: self.slot,
            image_path: self.image_path@,
        }
    }
}

/// The outfit-set key of an identity: its name, version and palette.
pub open spec fn spec_set_key_of(id: PartIdView) -> SetKeyView {
    SetKeyView { name: id.name, version: id.version, palette: id.palette }
}

impl PartDef {
    /// The outfit-set key this part belongs to.
    pub fn set_key(&self) -> (r: OutfitSetKey)
        ensures
            r@ == spec_set_key_of(self.part_id@),
    {
        OutfitSetKey {
            name: self.part_id.name.clone(),
            version: self.part_id.version,
            palette: self.part_id.palette,
        }
    }
}

/// Whether two option characters are the same.
pub fn opt_char_eq(a: Option<char>, b: Option<char>) -> (r: bool)
    ensures
        r == (a == b),
{
    match (a, b) {
        (None, None) => true,
        (Some(x), Some(y)) => x == y,
        _ => false,
    }
}

/// Whether two outfit-set keys are the same.
pub fn set_key_eq(a: &OutfitSetKey, b: &OutfitSetKey) -> (r: bool)
    ensures
        r == (a@ == b@),
{
    let names_eq = a.name == b.name;
    let r = names_eq && a.version == b.version && opt_char_eq(a.palette, b.palette);
    proof {
        if r {
            assert(a@ == b@);
        }
    }
    r
}

/// The character spelling a decimal digit.
pub open spec fn spec_digit_char(d: int) -> char {
    ((48 + d) as u8) as char
}

/// The version token inside a part key: two decimal digits, then the
/// palette letter when one is present.
pub open spec fn spec_version_token(version: u8, palette: Option<char>) -> Seq<char> {
    let digits = seq![spec_digit_char(version as int / 10), spec_digit_char(version as int % 10)];
    match palette {
        Some(p) => digits.push(p),
        None => digits,
    }
}

/// The stable part key of an identity:
/// `<layercode>/<name>/<vv>[<p>][/e]`.
pub open spec fn spec_part_key(id: PartIdView) -> Seq<char> {
    let head = crate::layers::spec_layer_code_str(id.layer) + seq!['/'] + id.name + seq!['/']
        + spec_version_token(id.version, id.palette);
    match id.special {
        Some(Special::E) => head + seq!['/', 'e'],
        None => head,
    }
}

/// Append every character of a string to a vector.
pub fn push_str_chars(dst: &mut Vec<char>, src: &str)
    ensures
        final(dst)@ == old(dst)@ + src@,
{
    let n = src.unicode_len();
    let mut i: usize = 0;
    while i < n
        invariant
            0 <= i <= n,
            n == src@.len(),
            dst@ == old(dst)@ + src@.subrange(0, i as int),
        decreases n - i,
    {
        let c = src.get_char(i);
        dst.push(c);
        proof {
            assert(dst@ =~= old(dst)@ + src@.subrange(0, i + 1));
        }
        i = i + 1;
    }
    proof {
        assert(dst@ =~= old(dst)@ + src@);
    }
}

/// Format the stable part key of an identity.
pub fn make_part_key(id: &PartId) -> (r: String)
    ensures
        r@ == spec_part_key(id@),
{
    let mut key: Vec<char> = Vec::new();
    push_str_chars(&mut key, id.layer.as_str());
    key.push('/');
    push_str_chars(&mut key, id.name.as_str());
    key.push('/');
    let d10 = (48 + id.version / 10) as u8;
    let d1 = (48 + id.version % 10) as u8;
    key.push(d10 as char);
    key.push(d1 as char);
    if let Some(p) = id.palette {
        key.push(p);
    }
    if let Some(Special::E) = id.special {
        key.push('/');
        key.push('e');
    }
    proof {
        assert(key@ =~= spec_part_key(id@));
    }
    crate::ident::string_from_chars(&key)
}

/// Option characters in the order the catalog sorts by: absent before
/// present, present ones by code point.
pub open spec fn spec_opt_char_lt(a: Option<char>, b: Option<char>) -> bool {
    match (a, b) {
        (Option::None, Option::Some(_)) => true,
        (Option::Some(x), Option::Some(y)) => (x as u32) < (y as u32),
        _ => false,
    }
}

/// Special markers in the order the catalog sorts by: absent before
/// present.
pub open spec fn spec_opt_special_lt(a: Option<Special>, b: Option<Special>) -> bool {
    a is None && b is Some
}

/// The browsing order of two identities within one layer: by name, then
/// version, then palette, then special marker.
pub open spec fn spec_id_lt(a: PartIdView, b: PartIdView) -> bool {
    ||| lex_lt(a.name, b.name)
    ||| (a.name == b.name && (a.version < b.version || (a.version == b.version && (spec_opt_char_lt(
        a.palette,
        b.palette,
    ) || (a.palette == b.palette && spec_opt_special_lt(a.special, b.special))))))
}

/// Whether two identities share all four sort fields.
pub open spec fn spec_id_sort_eq(a: PartIdView, b: PartIdView) -> bool {
    a.name == b.name && a.version == b.version && a.palette == b.palette && a.special == b.special
}

/// Exactly one of `spec_id_lt(a, b)`, `spec_id_sort_eq(a, b)`,
/// `spec_id_lt(b, a)` holds.
pub proof fn lemma_id_lt_trichotomy(a: PartIdView, b: PartIdView)
    ensures
        spec_id_lt(a, b) || spec_id_sort_eq(a, b) || spec_id_lt(b, a),
        spec_id_lt(a, b) ==> !spec_id_sort_eq(a, b) && !spec_id_lt(b, a),
        spec_id_sort_eq(a, b) ==> !spec_id_lt(a, b) && !spec_id_lt(b, a),
{
    lemma_lex_lt_trichotomy(a.name, b.name);
    if a.palette is Some && b.palette is Some {
        vstd::utf8::char_u32_cast(a.palette->0, a.palette->0 as u32);
        vstd::utf8::char_u32_cast(b.palette->0, b.palette->0 as u32);
        if a.palette->0 as u32 == b.palette->0 as u32 {
            assert(a.palette == b.palette);
        }
    }
    if a.special is Some && b.special is Some {
        assert(a.special->0 == Special::E && b.special->0 == Special::E);
        assert(a.special == b.special);
    }
}

/// The browsing order is transitive.
pub proof fn lemma_id_lt_transitive(a: PartIdView, b: PartIdView, c: PartIdView)
    requires
        spec_id_lt(a, b),
        spec_id_lt(b, c),
    ensures
        spec_id_lt(a, c),
{
    if lex_lt(a.name, b.name) && lex_lt(b.name, c.name) {
        lemma_lex_lt_transitive(a.name, b.name, c.name);
    }
}

/// Order under shared sort fields on the left.
pub proof fn lemma_id_lt_eq_left(a: PartIdView, b: PartIdView, c: PartIdView)
    requires
        spec_id_sort_eq(a, b),
        spec_id_lt(b, c),
    ensures
        spec_id_lt(a, c),
{
}

/// Order under shared sort fields on the right.
pub proof fn lemma_id_lt_eq_right(a: PartIdView, b: PartIdView, c: PartIdView)
    requires
        spec_id_lt(a, b),
        spec_id_sort_eq(b, c),
    ensures
        spec_id_lt(a, c),
{
}

/// Three-way comparison of two identities in the browsing order: `-1`
/// when `a` comes first, `0` when the sort fields coincide, `1` when `b`
/// comes first.
pub fn id_cmp(a: &PartId, b: &PartId) -> (r: i8)
    ensures
        r == -1 || r == 0 || r == 1,
        (r == -1) <==> spec_id_lt(a@, b@),
        (r == 0) <==> spec_id_sort_eq(a@, b@),
        (r == 1) <==> spec_id_lt(b@, a@),
{
    proof {
        lemma_id_lt_trichotomy(a@, b@);
    }
    let names = str_cmp(a.name.as_str(), b.name.as_str());
    if names != 0 {
        return names;
    }
    if a.version != b.version {
        return if a.version < b.version {
            -1
        } else {
            1
        };
    }
    match (a.palette, b.palette) {
        (None, Some(_)) => {
            return -1;
        },
        (Some(_), None) => {
            return 1;
        },
        (Some(x), Some(y)) => {
            let ux = x as u32;
            let uy = y as u32;
            if ux != uy {
                proof {
                    vstd::utf8::char_u32_cast(x, ux);
                    vstd::utf8::char_u32_cast(y, uy);
                }
                return if ux < uy {
                    -1
                } else {
                    1
                };
            }
        },
        (None, None) => {},
    }
    match (a.special, b.special) {
        (None, Some(_)) => -1,
        (Some(_), None) => 1,
        _ => 0,
    }
}

/// The browsing order of two catalog positions: by identity sort fields,
/// ties broken by position, so that the order is total and the sorted
/// lists of the catalog are unique.
pub open spec fn spec_browse_before(parts: Seq<PartDef>, i: int, j: int) -> bool {
    ||| spec_id_lt(parts[i]@.part_id, parts[j]@.part_id)
    ||| (spec_id_sort_eq(parts[i]@.part_id, parts[j]@.part_id) && i < j)
}

/// One entry of the key index: a part key and the catalog position it
/// resolves to.
#[derive(Debug, Clone)]
pub struct KeyIndex {
    pub key: String,
    pub index: usize,
}

/// One outfit set: its key and the positions of every member, in
/// ascending position order.
#[derive(Debug, Clone)]
pub struct OutfitSet {
    pub key: OutfitSetKey,
    pub indices: Vec<usize>,
}

/// The part catalog: the owned records and the derived indexes, all
/// rebuilt together by [`build_catalog`].
#[derive(Debug, Clone)]
pub struct PartCatalog {
    pub parts: Vec<PartDef>,
    pub by_key: Vec<KeyIndex>,
    pub by_layer: Vec<Vec<usize>>,
    pub sets: Vec<OutfitSet>,
    pub paired_required_sets: Vec<OutfitSetKey>,
}

/// The key index resolves every present part key to the last catalog
/// position bearing it, holds each key once, and covers every part.
pub open spec fn spec_by_key_wf(parts: Seq<PartDef>, by_key: Seq<KeyIndex>) -> bool {
    &&& forall|j: int|
        0 <= j < by_key.len() ==> (#[trigger] by_key[j]).index < parts.len()
            && parts[by_key[j].index as int]@.part_key == by_key[j].key@ && (forall|i: int|
            by_key[j].index < i < parts.len() ==> parts[i]@.part_key != by_key[j].key@)
    &&& forall|j1: int, j2: int|
        0 <= j1 < j2 < by_key.len() ==> (#[trigger] by_key[j1]).key@ != (#[trigger] by_key[j2]).key@
    &&& forall|i: int|
        0 <= i < parts.len() ==> exists|j: int|
            0 <= j < by_key.len() && (#[trigger] by_key[j]).key@ == (#[trigger] parts[i])@.part_key
}

/// Each layer's list holds exactly the positions of that layer's parts,
/// in browsing order.
pub open spec fn spec_by_layer_wf(parts: Seq<PartDef>, by_layer: Seq<Vec<usize>>) -> bool {
    &&& by_layer.len() == 16
    &&& forall|l: int, k: int|
        0 <= l < 16 && 0 <= k < by_layer[l]@.len() ==> (#[trigger] by_layer[l]@[k]) < parts.len()
            && crate::layers::spec_layer_index(parts[by_layer[l]@[k] as int]@.part_id.layer) == l
    &&& forall|l: int, k1: int, k2: int|
        0 <= l < 16 && 0 <= k1 < k2 < by_layer[l]@.len() ==> spec_browse_before(
            parts,
            #[trigger] by_layer[l]@[k1] as int,
            #[trigger] by_layer[l]@[k2] as int,
        )
    &&& forall|i: usize|
        i < parts.len() ==> by_layer[crate::layers::spec_layer_index(
            (#[trigger] parts[i as int])@.part_id.layer,
        )]@.contains(i)
}

/// Every set holds exactly the positions sharing its key, in ascending
/// position order; keys are unique, no set is empty, and every part
/// belongs to a set.
pub open spec fn spec_sets_wf(parts: Seq<PartDef>, sets: Seq<OutfitSet>) -> bool {
    &&& forall|t: int| 0 <= t < sets.len() ==> (#[trigger] sets[t].indices)@.len() >= 1
    &&& forall|t: int, k: int|
        0 <= t < sets.len() && 0 <= k < sets[t].indices@.len() ==> (#[trigger] sets[t].indices@[k])
            < parts.len() && spec_set_key_of(parts[sets[t].indices@[k] as int]@.part_id)
            == sets[t].key@
    &&& forall|t: int, k1: int, k2: int|
        0 <= t < sets.len() && 0 <= k1 < k2 < sets[t].indices@.len() ==> (#[trigger] sets[
            t
        ].indices@[k1]) < (#[trigger] sets[t].indices@[k2])
    &&& forall|t1: int, t2: int|
        0 <= t1 < t2 < sets.len() ==> (#[trigger] sets[t1].key)@ != (#[trigger] sets[t2].key)@
    &&& forall|t: int, i: usize|
        0 <= t < sets.len() && i < parts.len() && spec_set_key_of((#[trigger] parts[i as int])@.part_id)
            == (#[trigger] sets[t].key)@ ==> sets[t].indices@.contains(i)
    &&& forall|i: int|
        0 <= i < parts.len() ==> exists|t: int|
            0 <= t < sets.len() && (#[trigger] sets[t].key)@ == spec_set_key_of(
                (#[trigger] parts[i])@.part_id,
            )
}

/// Whether a set's members span both the under layer and the neck layer:
/// such garments must travel together.
pub open spec fn spec_set_spans_pair(parts: Seq<PartDef>, set: OutfitSet) -> bool {
    &&& exists|k: int|
        0 <= k < set.indices@.len() && 0 <= (#[trigger] set.indices@[k]) < parts.len()
            && parts[set.indices@[k] as int]@.part_id.layer == LayerCode::Undr00
    &&& exists|k: int|
        0 <= k < set.indices@.len() && 0 <= (#[trigger] set.indices@[k]) < parts.len()
            && parts[set.indices@[k] as int]@.part_id.layer == LayerCode::Neck11
}

/// Whether one of the first `t` sets bears this key and spans the pair.
pub open spec fn spec_spanning_set_with_key(
    parts: Seq<PartDef>,
    sets: Seq<OutfitSet>,
    t: int,
    key: SetKeyView,
) -> bool {
    exists|t2: int|
        0 <= t2 < t && (#[trigger] sets[t2].key)@ == key && spec_set_spans_pair(parts, sets[t2])
}

/// Whether the collection holds this key.
pub open spec fn spec_paired_has_key(paired: Seq<OutfitSetKey>, key: SetKeyView) -> bool {
    exists|q: int| 0 <= q < paired.len() && (#[trigger] paired[q])@ == key
}

/// The paired-required list holds exactly the keys of the sets that span
/// the under and neck layers, each once.
pub open spec fn spec_paired_wf(
    parts: Seq<PartDef>,
    sets: Seq<OutfitSet>,
    paired: Seq<OutfitSetKey>,
) -> bool {
    &&& forall|q: int|
        0 <= q < paired.len() ==> spec_spanning_set_with_key(
            parts,
            sets,
            sets.len() as int,
            (#[trigger] paired[q])@,
        )
    &&& forall|t: int|
        0 <= t < sets.len() && spec_set_spans_pair(parts, #[trigger] sets[t]) ==> spec_paired_has_key(
            paired,
            sets[t].key@,
        )
    &&& forall|q1: int, q2: int|
        0 <= q1 < q2 < paired.len() ==> (#[trigger] paired[q1])@ != (#[trigger] paired[q2])@
}

impl PartCatalog {
    /// All derived indexes agree with the owned records.
    pub open spec fn wf(self) -> bool {
        &&& spec_by_key_wf(self.parts@, self.by_key@)
        &&& spec_by_layer_wf(self.parts@, self.by_layer@)
        &&& spec_sets_wf(self.parts@, self.sets@)
        &&& spec_paired_wf(self.parts@, self.sets@, self.paired_required_sets@)
    }

    /// Whether the given key is flagged paired-required.
    pub open spec fn spec_is_paired_required(self, key: SetKeyView) -> bool {
        exists|q: int|
            0 <= q < self.paired_required_sets@.len() && (#[trigger] self.paired_required_sets@[q])@
                == key
    }

    /// The members of the set with the given key, or the empty sequence
    /// when no set bears it.
    pub open spec fn spec_set_members(self, key: SetKeyView) -> Seq<usize> {
        if exists|t: int| 0 <= t < self.sets@.len() && (#[trigger] self.sets@[t].key)@ == key {
            let t = choose|t: int|
                0 <= t < self.sets@.len() && (#[trigger] self.sets@[t].key)@ == key;
            self.sets@[t].indices@
        } else {
            Seq::empty()
        }
    }
}

/// First entry of the key index bearing the key, as a catalog position.
pub open spec fn spec_lookup_key(by_key: Seq<KeyIndex>, key: Seq<char>) -> Option<usize>
    decreases by_key.len(),
{
    if by_key.len() == 0 {
        None
    } else if by_key[0].key@ == key {
        Some(by_key[0].index)
    } else {
        spec_lookup_key(by_key.skip(1), key)
    }
}

pub proof fn lemma_lookup_key_properties(by_key: Seq<KeyIndex>, key: Seq<char>)
    ensures
        spec_lookup_key(by_key, key) is Some <==> exists|j: int|
            0 <= j < by_key.len() && (#[trigger] by_key[j]).key@ == key,
        spec_lookup_key(by_key, key) is Some ==> exists|j: int|
            0 <= j < by_key.len() && (#[trigger] by_key[j]).key@ == key && by_key[j].index
                == spec_lookup_key(by_key, key)->0,
    decreases by_key.len(),
{
    if by_key.len() > 0 && by_key[0].key@ != key {
        lemma_lookup_key_properties(by_key.skip(1), key);
        if spec_lookup_key(by_key, key) is Some {
            let j = choose|j: int|
                0 <= j < by_key.skip(1).len() && (#[trigger] by_key.skip(1)[j]).key@ == key
                    && by_key.skip(1)[j].index == spec_lookup_key(by_key.skip(1), key)->0;
            assert(by_key[j + 1].key@ == key && by_key[j + 1].index == spec_lookup_key(by_key, key)->0);
        }
        if exists|j: int| 0 <= j < by_key.len() && (#[trigger] by_key[j]).key@ == key {
            let j = choose|j: int| 0 <= j < by_key.len() && (#[trigger] by_key[j]).key@ == key;
            assert(by_key.skip(1)[j - 1].key@ == key);
        }
    }
}

impl PartCatalog {
    /// Resolve a part key to its catalog position.
    pub fn index_by_key(&self, key: &str) -> (r: Option<usize>)
        ensures
            r == spec_lookup_key(self.by_key@, key@),
            r is Some && self.wf() ==> r->0 < self.parts@.len() && self.parts@[r->0 as int]@.part_key
                == key@,
    {
        let mut j: usize = 0;
        proof {
            assert(self.by_key@.skip(0) =~= self.by_key@);
        }
        while j < self.by_key.len()
            invariant
                0 <= j <= self.by_key@.len(),
                spec_lookup_key(self.by_key@, key@) == spec_lookup_key(self.by_key@.skip(j as int), key@),
            decreases self.by_key@.len() - j,
        {
            if str_cmp(self.by_key[j].key.as_str(), key) == 0 {
                proof {
                    assert(self.by_key@.skip(j as int)[0] == self.by_key@[j as int]);
                }
                proof {
                    lemma_lookup_key_properties(self.by_key@, key@);
                }
                return Some(self.by_key[j].index);
            }
            proof {
                assert(self.by_key@.skip(j as int)[0] == self.by_key@[j as int]);
                assert(self.by_key@.skip(j as int).skip(1) =~= self.by_key@.skip(j + 1));
            }
            j = j + 1;
        }
        None
    }

    /// The positions of a layer's parts, in browsing order.
    pub fn layer_indices(&self, layer: LayerCode) -> (r: &Vec<usize>)
        requires
            self.wf(),
        ensures
            r@ == self.by_layer@[crate::layers::spec_layer_index(layer) as int]@,
    {
        let l = crate::layers::layer_index(layer);
        &self.by_layer[l]
    }
}

} // verus!
