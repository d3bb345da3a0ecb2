//! The equip state machine's guarantees, stated and proved on their own:
//! slot exclusivity, paired-set completeness, and the visibility rule
//! between head and hair.

use vstd::prelude::*;

use crate::catalog::{spec_set_key_of, PartCatalog, PartDef};
use crate::equip::{
    spec_apply_keys, spec_clear_slot, spec_equip, spec_insert_members, spec_keys_from,
    spec_visible_map,
};
use crate::layers::{spec_layer_index, Slot, Special};

verus! {

/// Only the target layer can wear the slot after members are inserted,
/// provided it was so before and every member either avoids the slot or
/// lives on the target layer.
proof fn lemma_insert_members_slot(
    parts: Seq<PartDef>,
    m: Seq<Option<usize>>,
    indices: Seq<usize>,
    k: int,
    s: Slot,
    ltarget: int,
)
    requires
        m.len() == 16,
        0 <= ltarget < 16,
        forall|l: int|
            0 <= l < 16 && m[l] is Some && (m[l]->0 as int) < parts.len() && (#[trigger] parts[
                m[l]->0 as int
            ])@.slot == Some(s) ==> l == ltarget,
        forall|k2: int|
            k <= k2 < indices.len() ==> (#[trigger] indices[k2]) < parts.len() && (parts[
                indices[k2] as int
            ]@.slot == Some(s) ==> spec_layer_index(parts[indices[k2] as int]@.part_id.layer)
                == ltarget),
    ensures
        spec_insert_members(parts, m, indices, k).len() == 16,
        forall|l: int|
            0 <= l < 16 && spec_insert_members(parts, m, indices, k)[l] is Some && (
            spec_insert_members(parts, m, indices, k)[l]->0 as int) < parts.len() && (#[trigger] parts[
                spec_insert_members(parts, m, indices, k)[l]->0 as int
            ])@.slot == Some(s) ==> l == ltarget,
    decreases indices.len() - k,
{
    if 0 <= k < indices.len() {
        let j = indices[k];
        let m2 = if j < parts.len() {
            m.update(spec_layer_index(parts[j as int]@.part_id.layer), Some(j))
        } else {
            m
        };
        lemma_insert_members_slot(parts, m2, indices, k + 1, s, ltarget);
    }
}

/// Equipping a part whose layer owns a slot leaves that slot worn on the
/// part's own layer at most: every other layer's previous wearer of the
/// slot is removed by the same call. The one assumption beyond catalog
/// validity is that the part's paired set does not spread the slot over
/// several layers, which no well-formed asset set does.
#[verifier::rlimit(100)]
#[verifier::spinoff_prover]
pub proof fn lemma_equip_slot_exclusive(
    cat: PartCatalog,
    m: Seq<Option<usize>>,
    index: usize,
    s: Slot,
)
    requires
        cat.wf(),
        m.len() == 16,
        (index as int) < cat.parts@.len(),
        cat.parts@[index as int]@.slot == Some(s),
        forall|k: int|
            0 <= k < cat.spec_set_members(spec_set_key_of(cat.parts@[index as int]@.part_id)).len()
                ==> ((#[trigger] cat.spec_set_members(
                spec_set_key_of(cat.parts@[index as int]@.part_id),
            )[k]) as int) < cat.parts@.len() && (cat.parts@[
                cat.spec_set_members(spec_set_key_of(cat.parts@[index as int]@.part_id))[k] as int
            ]@.slot == Some(s) ==> cat.parts@[
                cat.spec_set_members(spec_set_key_of(cat.parts@[index as int]@.part_id))[k] as int
            ]@.part_id.layer == cat.parts@[index as int]@.part_id.layer),
    ensures
        forall|l: int|
            0 <= l < 16 && spec_equip(cat, m, index)[l] is Some && (spec_equip(cat, m, index)[l]->0
                as int) < cat.parts@.len() && (#[trigger] cat.parts@[
                spec_equip(cat, m, index)[l]->0 as int
            ])@.slot == Some(s) ==> l == spec_layer_index(cat.parts@[index as int]@.part_id.layer),
{
    let parts = cat.parts@;
    let part = parts[index as int];
    let ltarget = spec_layer_index(part@.part_id.layer);
    let m1 = spec_clear_slot(parts, m, s);
    let m2 = m1.update(ltarget, Some(index));
    assert forall|l: int|
        0 <= l < 16 && m2[l] is Some && (m2[l]->0 as int) < parts.len() && (#[trigger] parts[
            m2[l]->0 as int
        ])@.slot == Some(s) implies l == ltarget by {
        if l != ltarget {
            assert(m2[l] == m1[l]);
        }
    }
    let key = spec_set_key_of(part@.part_id);
    if cat.spec_is_paired_required(key) {
        let members = cat.spec_set_members(key);
        lemma_insert_members_slot(parts, m2, members, 0, s, ltarget);
    }
}

/// Inserting members from position `k` on wears each of them on its own
/// layer, provided the members' layers are pairwise distinct; layers no
/// member occupies keep what they wore.
proof fn lemma_insert_members_complete(
    parts: Seq<PartDef>,
    m: Seq<Option<usize>>,
    indices: Seq<usize>,
    k: int,
)
    requires
        0 <= k,
        m.len() == 16,
        forall|k2: int| 0 <= k2 < indices.len() ==> (#[trigger] indices[k2]) < parts.len(),
        forall|k1: int, k2: int|
            0 <= k1 < k2 < indices.len() ==> spec_layer_index(
                parts[(#[trigger] indices[k1]) as int]@.part_id.layer,
            ) != spec_layer_index(parts[(#[trigger] indices[k2]) as int]@.part_id.layer),
    ensures
        spec_insert_members(parts, m, indices, k).len() == 16,
        forall|k2: int|
            k <= k2 < indices.len() ==> spec_insert_members(parts, m, indices, k)[spec_layer_index(
                parts[(#[trigger] indices[k2]) as int]@.part_id.layer,
            )] == Some(indices[k2]),
        forall|l: int|
            0 <= l < 16 && (forall|k2: int|
                k <= k2 < indices.len() ==> spec_layer_index(
                    parts[(#[trigger] indices[k2]) as int]@.part_id.layer,
                ) != l) ==> spec_insert_members(parts, m, indices, k)[l] == m[l],
    decreases indices.len() - k,
{
    if 0 <= k < indices.len() {
        let j = indices[k];
        let lj = spec_layer_index(parts[j as int]@.part_id.layer);
        let m2 = m.update(lj, Some(j));
        lemma_insert_members_complete(parts, m2, indices, k + 1);
        assert forall|k2: int|
            k <= k2 < indices.len() implies spec_insert_members(parts, m, indices, k)[
            spec_layer_index(parts[(#[trigger] indices[k2]) as int]@.part_id.layer)] == Some(
            indices[k2],
        ) by {
            if k2 == k {
                assert(forall|k3: int|
                    k + 1 <= k3 < indices.len() ==> spec_layer_index(
                        parts[(#[trigger] indices[k3]) as int]@.part_id.layer,
                    ) != lj);
                assert(spec_insert_members(parts, m2, indices, k + 1)[lj] == m2[lj]);
            }
        }
        assert forall|l: int|
            0 <= l < 16 && (forall|k2: int|
                k <= k2 < indices.len() ==> spec_layer_index(
                    parts[(#[trigger] indices[k2]) as int]@.part_id.layer,
                ) != l) implies spec_insert_members(parts, m, indices, k)[l] == m[l] by {
            assert(spec_layer_index(parts[indices[k] as int]@.part_id.layer) != l);
            assert(m2[l] == m[l]);
            assert(spec_insert_members(parts, m2, indices, k + 1)[l] == m2[l]);
        }
    }
}

/// Equipping a part of a paired-required set wears every member of that
/// set afterwards, each on its own layer, provided the members' layers
/// are pairwise distinct.
pub proof fn lemma_paired_set_fully_equipped(cat: PartCatalog, m: Seq<Option<usize>>, index: usize)
    requires
        cat.wf(),
        m.len() == 16,
        (index as int) < cat.parts@.len(),
        cat.spec_is_paired_required(spec_set_key_of(cat.parts@[index as int]@.part_id)),
        forall|k1: int, k2: int|
            0 <= k1 < k2 < cat.spec_set_members(
                spec_set_key_of(cat.parts@[index as int]@.part_id),
            ).len() ==> spec_layer_index(
                cat.parts@[(#[trigger] cat.spec_set_members(
                    spec_set_key_of(cat.parts@[index as int]@.part_id),
                )[k1]) as int]@.part_id.layer,
            ) != spec_layer_index(
                cat.parts@[(#[trigger] cat.spec_set_members(
                    spec_set_key_of(cat.parts@[index as int]@.part_id),
                )[k2]) as int]@.part_id.layer,
            ),
    ensures
        forall|k: int|
            0 <= k < cat.spec_set_members(spec_set_key_of(cat.parts@[index as int]@.part_id)).len()
                ==> spec_equip(cat, m, index)[spec_layer_index(
                cat.parts@[(#[trigger] cat.spec_set_members(
                    spec_set_key_of(cat.parts@[index as int]@.part_id),
                )[k]) as int]@.part_id.layer,
            )] == Some(
                cat.spec_set_members(spec_set_key_of(cat.parts@[index as int]@.part_id))[k],
            ),
{
    let parts = cat.parts@;
    let part = parts[index as int];
    let key = spec_set_key_of(part@.part_id);
    let members = cat.spec_set_members(key);
    let ltarget = spec_layer_index(part@.part_id.layer);
    let m1 = match part@.slot {
        Some(s) => spec_clear_slot(parts, m, s),
        None => m,
    };
    let m2 = m1.update(ltarget, Some(index));
    let t = choose|t: int| 0 <= t < cat.sets@.len() && (#[trigger] cat.sets@[t].key)@ == key;
    assert(members == cat.sets@[t].indices@);
    assert(forall|k: int|
        0 <= k < members.len() ==> (#[trigger] cat.sets@[t].indices@[k]) < parts.len());
    lemma_insert_members_complete(parts, m2, members, 0);
}

/// A worn head part flagged exclusive hides the hair layer from the
/// rendering view, while the worn map itself keeps its hair entry; every
/// other layer shows exactly what is worn.
pub proof fn lemma_exclusive_head_hides_hair(cat: PartCatalog, m: Seq<Option<usize>>)
    requires
        m.len() == 16,
        m[14] is Some,
        (m[14]->0 as int) < cat.parts@.len(),
        cat.parts@[m[14]->0 as int]@.part_id.special == Some(Special::E),
    ensures
        spec_visible_map(cat, m)[13] is None,
        forall|l: int| 0 <= l < 16 && l != 13 ==> spec_visible_map(cat, m)[l] == m[l],
{
}

/// A worn hair part flagged exclusive is hidden from the rendering view
/// whenever any head part is worn over it.
pub proof fn lemma_exclusive_hair_hidden_by_head(cat: PartCatalog, m: Seq<Option<usize>>)
    requires
        m.len() == 16,
        m[14] is Some,
        (m[14]->0 as int) < cat.parts@.len(),
        m[13] is Some,
        (m[13]->0 as int) < cat.parts@.len(),
        cat.parts@[m[13]->0 as int]@.part_id.special == Some(Special::E),
    ensures
        spec_visible_map(cat, m)[13] is None,
        forall|l: int| 0 <= l < 16 && l != 13 ==> spec_visible_map(cat, m)[l] == m[l],
{
}

/// Without a worn head part the rendering view is the worn map itself,
/// whatever the hair wears.
pub proof fn lemma_no_head_shows_all(cat: PartCatalog, m: Seq<Option<usize>>)
    requires
        m.len() == 16,
        m[14] is None || (m[14]->0 as int) >= cat.parts@.len(),
    ensures
        spec_visible_map(cat, m) == m,
{
}


/// Every worn entry points at a valid part worn on its own layer.
pub open spec fn spec_worn_valid(cat: PartCatalog, m: Seq<Option<usize>>) -> bool {
    forall|l: int|
        0 <= l < 16 && (#[trigger] m[l]) is Some ==> (m[l]->0 as int) < cat.parts@.len()
            && spec_layer_index(cat.parts@[m[l]->0 as int]@.part_id.layer) == l
}

/// No two worn parts share a mutual-exclusion slot.
pub open spec fn spec_worn_slot_exclusive(cat: PartCatalog, m: Seq<Option<usize>>) -> bool {
    forall|l1: int, l2: int|
        0 <= l1 < 16 && 0 <= l2 < 16 && l1 != l2 && (#[trigger] m[l1]) is Some && (#[trigger] m[
            l2
        ]) is Some && (m[l1]->0 as int) < cat.parts@.len() && (m[l2]->0 as int)
            < cat.parts@.len() ==> !(cat.parts@[m[l1]->0 as int]@.slot is Some && cat.parts@[m[l1]->0
            as int]@.slot == cat.parts@[m[l2]->0 as int]@.slot)
}

/// Every worn member of a paired-required set brings the whole set: the
/// selection wears each member on its layer.
pub open spec fn spec_worn_pairing_complete(cat: PartCatalog, m: Seq<Option<usize>>) -> bool {
    forall|l: int, k: int|
        0 <= l < 16 && (#[trigger] m[l]) is Some && (m[l]->0 as int) < cat.parts@.len()
            && cat.spec_is_paired_required(spec_set_key_of(cat.parts@[m[l]->0 as int]@.part_id)) && 0
            <= k < cat.spec_set_members(
            spec_set_key_of(cat.parts@[m[l]->0 as int]@.part_id),
        ).len() ==> m[spec_layer_index(
            cat.parts@[(#[trigger] cat.spec_set_members(
                spec_set_key_of(cat.parts@[m[l]->0 as int]@.part_id),
            )[k]) as int]@.part_id.layer,
        )] == Some(
            cat.spec_set_members(spec_set_key_of(cat.parts@[m[l]->0 as int]@.part_id))[k],
        )
}

/// Part keys are unique across the catalog.
pub open spec fn spec_keys_unique(cat: PartCatalog) -> bool {
    forall|i1: int, i2: int|
        0 <= i1 < i2 < cat.parts@.len() ==> (#[trigger] cat.parts@[i1])@.part_key != (
        #[trigger] cat.parts@[i2])@.part_key
}

/// The members of every set occupy pairwise distinct layers.
pub open spec fn spec_sets_layer_distinct(cat: PartCatalog) -> bool {
    forall|t: int, k1: int, k2: int|
        0 <= t < cat.sets@.len() && 0 <= k1 < k2 < cat.sets@[t].indices@.len()
            ==> spec_layer_index(
            cat.parts@[(#[trigger] cat.sets@[t].indices@[k1]) as int]@.part_id.layer,
        ) != spec_layer_index(
            cat.parts@[(#[trigger] cat.sets@[t].indices@[k2]) as int]@.part_id.layer,
        )
}

/// A selection the equip calls themselves could have produced.
pub open spec fn spec_selection_coherent(cat: PartCatalog, m: Seq<Option<usize>>) -> bool {
    &&& m.len() == 16
    &&& spec_worn_valid(cat, m)
    &&& spec_worn_slot_exclusive(cat, m)
    &&& spec_worn_pairing_complete(cat, m)
}

/// Below: every worn layer of `c` wears what `m` wears.
pub open spec fn spec_below(c: Seq<Option<usize>>, m: Seq<Option<usize>>) -> bool {
    forall|l: int| 0 <= l < 16 && (#[trigger] c[l]) is Some ==> c[l] == m[l]
}

/// Looking a worn part's key up resolves to that very part when keys are
/// unique.
proof fn lemma_lookup_own_key(cat: PartCatalog, j: usize)
    requires
        cat.wf(),
        spec_keys_unique(cat),
        (j as int) < cat.parts@.len(),
    ensures
        crate::catalog::spec_lookup_key(cat.by_key@, cat.parts@[j as int]@.part_key) == Some(j),
{
    let key = cat.parts@[j as int]@.part_key;
    crate::catalog::lemma_lookup_key_properties(cat.by_key@, key);
    assert(exists|jj: int| 0 <= jj < cat.by_key@.len() && (#[trigger] cat.by_key@[jj]).key@ == key);
    let jj = choose|jj: int|
        0 <= jj < cat.by_key@.len() && (#[trigger] cat.by_key@[jj]).key@ == key && cat.by_key@[jj].index
            == crate::catalog::spec_lookup_key(cat.by_key@, key)->0;
    let found = cat.by_key@[jj].index;
    assert(cat.parts@[found as int]@.part_key == key);
    if found != j {
        if (found as int) < (j as int) {
            assert(cat.parts@[found as int]@.part_key != cat.parts@[j as int]@.part_key);
        } else {
            assert(cat.parts@[j as int]@.part_key != cat.parts@[found as int]@.part_key);
        }
    }
}


/// Stepping the key cursor is the same as dropping the first key.
proof fn lemma_apply_keys_shift(
    cat: PartCatalog,
    c: Seq<Option<usize>>,
    ks: Seq<Seq<char>>,
    k: int,
)
    requires
        0 <= k,
        ks.len() >= 1,
    ensures
        spec_apply_keys(cat, c, ks, k + 1) == spec_apply_keys(cat, c, ks.skip(1), k),
    decreases ks.len() - k,
{
    if k + 1 < ks.len() {
        assert(ks.skip(1)[k] == ks[k + 1]);
        match crate::catalog::spec_lookup_key(cat.by_key@, ks[k + 1]) {
            Some(index) => {
                lemma_apply_keys_shift(cat, spec_equip(cat, c, index), ks, k + 1);
            },
            None => {
                lemma_apply_keys_shift(cat, c, ks, k + 1);
            },
        }
    }
}

/// Replaying the worn part of layer `l` onto a partial replay keeps it
/// below the original selection and extends the agreed prefix by one
/// layer.
#[verifier::rlimit(100)]
#[verifier::spinoff_prover]
proof fn lemma_replay_equip(
    cat: PartCatalog,
    m: Seq<Option<usize>>,
    c: Seq<Option<usize>>,
    j: usize,
    l: int,
)
    requires
        cat.wf(),
        spec_selection_coherent(cat, m),
        spec_sets_layer_distinct(cat),
        c.len() == 16,
        spec_below(c, m),
        forall|l2: int| 0 <= l2 < l ==> c[l2] == m[l2],
        0 <= l < 16,
        m[l] == Some(j),
        (j as int) < cat.parts@.len(),
        spec_layer_index(cat.parts@[j as int]@.part_id.layer) == l,
    ensures
        spec_equip(cat, c, j).len() == 16,
        spec_below(spec_equip(cat, c, j), m),
        forall|l2: int| 0 <= l2 < l + 1 ==> spec_equip(cat, c, j)[l2] == m[l2],
{
    let parts = cat.parts@;
    let part = parts[j as int];
    let m1 = match part@.slot {
        Some(s) => spec_clear_slot(parts, c, s),
        None => c,
    };
    assert forall|l2: int| 0 <= l2 < 16 && l2 != l implies m1[l2] == c[l2] by {
        if part@.slot is Some && c[l2] is Some && (c[l2]->0 as int) < parts.len() && parts[c[l2]->0
            as int]@.slot == part@.slot {
            assert(c[l2] == m[l2]);
            assert(!(parts[m[l2]->0 as int]@.slot is Some && parts[m[l2]->0 as int]@.slot
                == parts[m[l as int]->0 as int]@.slot));
        }
    }
    let m2 = m1.update(l, Some(j));
    let key = spec_set_key_of(part@.part_id);
    if cat.spec_is_paired_required(key) {
        let members = cat.spec_set_members(key);
        let t = choose|t: int| 0 <= t < cat.sets@.len() && (#[trigger] cat.sets@[t].key)@ == key;
        assert(members == cat.sets@[t].indices@);
        assert(forall|k: int|
            0 <= k < members.len() ==> (#[trigger] cat.sets@[t].indices@[k]) < parts.len());
        assert forall|k1: int, k2: int|
            0 <= k1 < k2 < members.len() implies spec_layer_index(
            parts[(#[trigger] members[k1]) as int]@.part_id.layer,
        ) != spec_layer_index(parts[(#[trigger] members[k2]) as int]@.part_id.layer) by {
            assert(cat.sets@[t].indices@[k1] == members[k1]);
            assert(cat.sets@[t].indices@[k2] == members[k2]);
        }
        lemma_insert_members_complete(parts, m2, members, 0);
        let r = spec_insert_members(parts, m2, members, 0);
        assert(r == spec_equip(cat, c, j));
        assert forall|l2: int| 0 <= l2 < 16 && (#[trigger] r[l2]) is Some implies r[l2] == m[l2] by {
            if exists|k: int|
                0 <= k < members.len() && spec_layer_index(
                    parts[(#[trigger] members[k]) as int]@.part_id.layer,
                ) == l2 {
                let k = choose|k: int|
                    0 <= k < members.len() && spec_layer_index(
                        parts[(#[trigger] members[k]) as int]@.part_id.layer,
                    ) == l2;
                assert(r[l2] == Some(members[k]));
                assert(m[spec_layer_index(
                    parts[(#[trigger] cat.spec_set_members(
                        spec_set_key_of(parts[m[l as int]->0 as int]@.part_id),
                    )[k]) as int]@.part_id.layer,
                )] == Some(
                    cat.spec_set_members(spec_set_key_of(parts[m[l as int]->0 as int]@.part_id))[k],
                ));
            } else {
                assert(r[l2] == m2[l2]);
                if l2 != l {
                    assert(m2[l2] == c[l2]);
                }
            }
        }
        assert forall|l2: int| 0 <= l2 < l + 1 implies (#[trigger] r[l2]) == m[l2] by {
            if exists|k: int|
                0 <= k < members.len() && spec_layer_index(
                    parts[(#[trigger] members[k]) as int]@.part_id.layer,
                ) == l2 {
                let k = choose|k: int|
                    0 <= k < members.len() && spec_layer_index(
                        parts[(#[trigger] members[k]) as int]@.part_id.layer,
                    ) == l2;
                assert(r[l2] == Some(members[k]));
                assert(m[spec_layer_index(
                    parts[(#[trigger] cat.spec_set_members(
                        spec_set_key_of(parts[m[l as int]->0 as int]@.part_id),
                    )[k]) as int]@.part_id.layer,
                )] == Some(
                    cat.spec_set_members(spec_set_key_of(parts[m[l as int]->0 as int]@.part_id))[k],
                ));
            } else {
                assert(r[l2] == m2[l2]);
                if l2 != l {
                    assert(m2[l2] == c[l2]);
                }
            }
        }
    } else {
        assert(m2 == spec_equip(cat, c, j));
    }
}

/// Replaying the worn keys from layer `l` on, onto a partial replay that
/// already agrees below `l`, rebuilds the whole selection.
proof fn lemma_replay_from(cat: PartCatalog, m: Seq<Option<usize>>, c: Seq<Option<usize>>, l: int)
    requires
        cat.wf(),
        spec_keys_unique(cat),
        spec_sets_layer_distinct(cat),
        spec_selection_coherent(cat, m),
        c.len() == 16,
        spec_below(c, m),
        forall|l2: int| 0 <= l2 < l ==> c[l2] == m[l2],
        0 <= l <= 16,
    ensures
        spec_apply_keys(cat, c, spec_keys_from(cat, m, l), 0) == m,
    decreases 16 - l,
{
    let ks = spec_keys_from(cat, m, l);
    if l == 16 {
        assert(c =~= m);
    } else {
        match m[l] {
            Some(j) => {
                assert((j as int) < cat.parts@.len() && spec_layer_index(
                    cat.parts@[j as int]@.part_id.layer,
                ) == l);
                let rest = spec_keys_from(cat, m, l + 1);
                assert(ks == seq![cat.parts@[j as int]@.part_key] + rest);
                assert(ks[0] == cat.parts@[j as int]@.part_key);
                lemma_lookup_own_key(cat, j);
                let c2 = spec_equip(cat, c, j);
                assert(spec_apply_keys(cat, c, ks, 0) == spec_apply_keys(cat, c2, ks, 1));
                lemma_apply_keys_shift(cat, c2, ks, 0);
                assert(ks.skip(1) =~= rest);
                lemma_replay_equip(cat, m, c, j, l);
                lemma_replay_from(cat, m, c2, l + 1);
            },
            None => {
                assert(ks == spec_keys_from(cat, m, l + 1));
                assert(c[l] == m[l]);
                lemma_replay_from(cat, m, c, l + 1);
            },
        }
    }
}

/// The round trip: replaying the worn part keys of a coherent selection
/// onto an empty one, in layer order and through the key index, rebuilds
/// exactly the same selection. Coherence asks only what the equip calls
/// themselves guarantee: worn parts sit on their own layers, no slot is
/// worn twice, and paired-required sets are worn whole; the catalog must
/// not hold two parts under one key.
pub proof fn lemma_selection_round_trip(cat: PartCatalog, m: Seq<Option<usize>>)
    requires
        cat.wf(),
        spec_keys_unique(cat),
        spec_sets_layer_distinct(cat),
        spec_selection_coherent(cat, m),
    ensures
        spec_apply_keys(cat, crate::equip::spec_empty_map(), spec_keys_from(cat, m, 0), 0) == m,
{
    lemma_replay_from(cat, m, crate::equip::spec_empty_map(), 0);
}

} // verus!
