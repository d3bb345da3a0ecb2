//! Building a part catalog out of parsed records: the key index, the
//! per-layer browsing lists, the outfit sets, and the paired-required
//! flags, all established together.

use vstd::prelude::*;

use crate::catalog::{
    spec_browse_before, spec_by_key_wf, spec_by_layer_wf, spec_id_lt, spec_paired_wf,
    spec_set_key_of, spec_set_spans_pair, spec_sets_wf, id_cmp, lemma_id_lt_eq_right,
    lemma_id_lt_transitive, lemma_id_lt_trichotomy, set_key_eq, KeyIndex, OutfitSet, OutfitSetKey,
    PartCatalog, PartDef,
};
use crate::layers::{layer_index, LayerCode};
use crate::order::str_cmp;

verus! {

/// Build the key index: the last catalog position of every present part
/// key.
fn build_by_key(parts: &Vec<PartDef>) -> (r: Vec<KeyIndex>)
    ensures
        spec_by_key_wf(parts@, r@),
{
    let mut by_key: Vec<KeyIndex> = Vec::new();
    let mut i: usize = 0;
    while i < parts.len()
        invariant
            0 <= i <= parts@.len(),
            forall|j: int|
                0 <= j < by_key@.len() ==> (#[trigger] by_key@[j]).index < i
                    && parts@[by_key@[j].index as int]@.part_key == by_key@[j].key@ && (forall|i2: int|
                    by_key@[j].index < i2 < i ==> parts@[i2]@.part_key != by_key@[j].key@),
            forall|j1: int, j2: int|
                0 <= j1 < j2 < by_key@.len() ==> (#[trigger] by_key@[j1]).key@ != (#[trigger] by_key@[j2]).key@,
            forall|i2: int|
                0 <= i2 < i ==> exists|j: int|
                    0 <= j < by_key@.len() && (#[trigger] by_key@[j]).key@ == (#[trigger] parts@[i2])@.part_key,
        decreases parts@.len() - i,
    {
        let mut j: usize = 0;
        let mut found = false;
        while j < by_key.len() && !found
            invariant
                0 <= j <= by_key@.len(),
                !found ==> forall|j2: int|
                    0 <= j2 < j ==> (#[trigger] by_key@[j2]).key@ != parts@[i as int]@.part_key,
                found ==> j < by_key@.len() && by_key@[j as int].key@ == parts@[i as int]@.part_key,
                i < parts@.len(),
            decreases by_key@.len() - j + if found {
                0int
            } else {
                1int
            },
        {
            if str_cmp(by_key[j].key.as_str(), parts[i].part_key.as_str()) == 0 {
                found = true;
            } else {
                j = j + 1;
            }
        }
        if found {
            let entry = KeyIndex { key: parts[i].part_key.clone(), index: i };
            let ghost before = by_key@;
            by_key.set(j, entry);
            proof {
                assert(by_key@[j as int].key@ == before[j as int].key@);
                assert forall|j2: int| 0 <= j2 < by_key@.len() implies (#[trigger] by_key@[j2]).key@
                    == before[j2].key@ by {}
                assert forall|i2: int| 0 <= i2 <= i implies exists|j2: int|
                    0 <= j2 < by_key@.len() && (#[trigger] by_key@[j2]).key@
                        == (#[trigger] parts@[i2])@.part_key by {
                    if i2 < i {
                        let j2 = choose|j2: int|
                            0 <= j2 < before.len() && (#[trigger] before[j2]).key@
                                == parts@[i2]@.part_key;
                        assert(by_key@[j2].key@ == parts@[i2]@.part_key);
                    } else {
                        assert(by_key@[j as int].key@ == parts@[i as int]@.part_key);
                    }
                }
            }
        } else {
            let entry = KeyIndex { key: parts[i].part_key.clone(), index: i };
            let ghost before = by_key@;
            by_key.push(entry);
            proof {
                assert forall|i2: int| 0 <= i2 <= i implies exists|j2: int|
                    0 <= j2 < by_key@.len() && (#[trigger] by_key@[j2]).key@
                        == (#[trigger] parts@[i2])@.part_key by {
                    if i2 < i {
                        let j2 = choose|j2: int|
                            0 <= j2 < before.len() && (#[trigger] before[j2]).key@
                                == parts@[i2]@.part_key;
                        assert(by_key@[j2].key@ == parts@[i2]@.part_key);
                    } else {
                        assert(by_key@[by_key@.len() - 1].key@ == parts@[i as int]@.part_key);
                    }
                }
            }
        }
        i = i + 1;
    }
    by_key
}

/// Insert a new, largest position into a browsing-ordered list.
fn insert_sorted(parts: &Vec<PartDef>, list: &mut Vec<usize>, i: usize)
    requires
        i < parts@.len(),
        forall|k: int| 0 <= k < old(list)@.len() ==> (#[trigger] old(list)@[k]) < i,
        forall|k1: int, k2: int|
            0 <= k1 < k2 < old(list)@.len() ==> spec_browse_before(
                parts@,
                #[trigger] old(list)@[k1] as int,
                #[trigger] old(list)@[k2] as int,
            ),
    ensures
        final(list)@.len() == old(list)@.len() + 1,
        forall|k1: int, k2: int|
            0 <= k1 < k2 < final(list)@.len() ==> spec_browse_before(
                parts@,
                #[trigger] final(list)@[k1] as int,
                #[trigger] final(list)@[k2] as int,
            ),
        forall|x: usize| final(list)@.contains(x) <==> (x == i || old(list)@.contains(x)),
        forall|k: int| 0 <= k < final(list)@.len() ==> (#[trigger] final(list)@[k]) <= i,
{
    let mut p: usize = 0;
    let mut stop = false;
    while p < list.len() && !stop
        invariant
            0 <= p <= list@.len(),
            i < parts@.len(),
            list@ == old(list)@,
            forall|k: int| 0 <= k < list@.len() ==> (#[trigger] list@[k]) < i,
            forall|k: int|
                0 <= k < p ==> !spec_id_lt(
                    parts@[i as int]@.part_id,
                    parts@[#[trigger] list@[k] as int]@.part_id,
                ),
            stop ==> p < list@.len() && spec_id_lt(
                parts@[i as int]@.part_id,
                parts@[list@[p as int] as int]@.part_id,
            ),
        decreases list@.len() - p + if stop {
            0int
        } else {
            1int
        },
    {
        let e = list[p];
        if id_cmp(&parts[i].part_id, &parts[e].part_id) == -1 {
            stop = true;
        } else {
            p = p + 1;
        }
    }
    let ghost old_seq = list@;
    let ghost pos = p as int;
    list.insert(p, i);
    proof {
        old_seq.insert_ensures(pos, i);
        assert(list@ == old_seq.insert(pos, i));
        // order around the inserted element
        assert forall|k1: int, k2: int| 0 <= k1 < k2 < list@.len() implies spec_browse_before(
            parts@,
            #[trigger] list@[k1] as int,
            #[trigger] list@[k2] as int,
        ) by {
            lemma_id_lt_trichotomy(
                parts@[i as int]@.part_id,
                parts@[i as int]@.part_id,
            );
            if k1 == pos {
                // list[k1] == i, list[k2] is an old element at k2 - 1 >= pos
                let e = old_seq[k2 - 1];
                assert(list@[k2] == e);
                assert(spec_id_lt(parts@[i as int]@.part_id, parts@[old_seq[pos] as int]@.part_id));
                if k2 - 1 > pos {
                    let m = old_seq[pos];
                    assert(spec_browse_before(parts@, m as int, e as int));
                    if spec_id_lt(parts@[m as int]@.part_id, parts@[e as int]@.part_id) {
                        lemma_id_lt_transitive(
                            parts@[i as int]@.part_id,
                            parts@[m as int]@.part_id,
                            parts@[e as int]@.part_id,
                        );
                    } else {
                        lemma_id_lt_eq_right(
                            parts@[i as int]@.part_id,
                            parts@[m as int]@.part_id,
                            parts@[e as int]@.part_id,
                        );
                    }
                }
            } else if k2 == pos {
                // list[k2] == i, list[k1] is an old element at k1 < pos
                let e = old_seq[k1];
                assert(list@[k1] == e);
                assert(!spec_id_lt(parts@[i as int]@.part_id, parts@[e as int]@.part_id));
                lemma_id_lt_trichotomy(parts@[i as int]@.part_id, parts@[e as int]@.part_id);
                assert(e < i);
            } else if k1 < pos && k2 < pos {
                assert(list@[k1] == old_seq[k1] && list@[k2] == old_seq[k2]);
            } else if k1 < pos && k2 > pos {
                assert(list@[k1] == old_seq[k1] && list@[k2] == old_seq[k2 - 1]);
            } else {
                assert(list@[k1] == old_seq[k1 - 1] && list@[k2] == old_seq[k2 - 1]);
            }
        }
        // membership both ways
        assert forall|x: usize| list@.contains(x) implies (x == i || old_seq.contains(x)) by {
            let k = choose|k: int| 0 <= k < list@.len() && list@[k] == x;
            if k < pos {
                assert(old_seq[k] == x);
            } else if k > pos {
                assert(old_seq[k - 1] == x);
            }
        }
        assert forall|x: usize| (x == i || old_seq.contains(x)) implies list@.contains(x) by {
            if x == i {
                assert(list@[pos] == i);
            } else {
                let k = choose|k: int| 0 <= k < old_seq.len() && old_seq[k] == x;
                if k < pos {
                    assert(list@[k] == x);
                } else {
                    assert(list@[k + 1] == x);
                }
            }
        }
        assert forall|k: int| 0 <= k < list@.len() implies (#[trigger] list@[k]) <= i by {
            if k < pos {
                assert(list@[k] == old_seq[k]);
            } else if k > pos {
                assert(list@[k] == old_seq[k - 1]);
            }
        }
    }
}

/// Build the browsing lists: each layer's positions, sorted.
fn build_by_layer(parts: &Vec<PartDef>) -> (r: Vec<Vec<usize>>)
    ensures
        spec_by_layer_wf(parts@, r@),
{
    let mut by_layer: Vec<Vec<usize>> = Vec::new();
    let mut l: usize = 0;
    while l < 16
        invariant
            0 <= l <= 16,
            by_layer@.len() == l,
            forall|l2: int, k: int|
                0 <= l2 < l && 0 <= k < by_layer@[l2]@.len() ==> (#[trigger] by_layer@[l2]@[k])
                    < parts@.len() && crate::layers::spec_layer_index(
                    parts@[by_layer@[l2]@[k] as int]@.part_id.layer,
                ) == l2,
            forall|l2: int, k1: int, k2: int|
                0 <= l2 < l && 0 <= k1 < k2 < by_layer@[l2]@.len() ==> spec_browse_before(
                    parts@,
                    #[trigger] by_layer@[l2]@[k1] as int,
                    #[trigger] by_layer@[l2]@[k2] as int,
                ),
            forall|i: usize|
                i < parts@.len() && crate::layers::spec_layer_index(
                    (#[trigger] parts@[i as int])@.part_id.layer,
                ) < l ==> by_layer@[crate::layers::spec_layer_index(
                    parts@[i as int]@.part_id.layer,
                )]@.contains(i),
        decreases 16 - l,
    {
        let mut list: Vec<usize> = Vec::new();
        let mut i: usize = 0;
        while i < parts.len()
            invariant
                0 <= i <= parts@.len(),
                l < 16,
                forall|k: int|
                    0 <= k < list@.len() ==> (#[trigger] list@[k]) < i
                        && crate::layers::spec_layer_index(
                        parts@[list@[k] as int]@.part_id.layer,
                    ) == l,
                forall|k1: int, k2: int|
                    0 <= k1 < k2 < list@.len() ==> spec_browse_before(
                        parts@,
                        #[trigger] list@[k1] as int,
                        #[trigger] list@[k2] as int,
                    ),
                forall|i2: usize|
                    i2 < i && crate::layers::spec_layer_index(
                        (#[trigger] parts@[i2 as int])@.part_id.layer,
                    ) == l ==> list@.contains(i2),
            decreases parts@.len() - i,
        {
            if layer_index(parts[i].part_id.layer) == l {
                let ghost before = list@;
                insert_sorted(parts, &mut list, i);
                proof {
                    assert forall|k: int| 0 <= k < list@.len() implies (#[trigger] list@[k]) < i + 1
                        && crate::layers::spec_layer_index(
                        parts@[list@[k] as int]@.part_id.layer,
                    ) == l by {
                        assert(list@.contains(list@[k]));
                        if list@[k] != i {
                            assert(before.contains(list@[k]));
                            let k2 = choose|k2: int| 0 <= k2 < before.len() && before[k2] == list@[k];
                            assert(before[k2] < i);
                        }
                    }
                    assert forall|i2: usize|
                        i2 < i + 1 && crate::layers::spec_layer_index(
                            (#[trigger] parts@[i2 as int])@.part_id.layer,
                        ) == l implies list@.contains(i2) by {
                        if i2 < i {
                            assert(before.contains(i2));
                        }
                    }
                }
            }
            i = i + 1;
        }
        by_layer.push(list);
        l = l + 1;
    }
    by_layer
}

/// Build the outfit sets: group positions by their set key.
fn build_sets(parts: &Vec<PartDef>) -> (r: Vec<OutfitSet>)
    ensures
        spec_sets_wf(parts@, r@),
{
    let mut sets: Vec<OutfitSet> = Vec::new();
    let mut i: usize = 0;
    while i < parts.len()
        invariant
            0 <= i <= parts@.len(),
            forall|t: int| 0 <= t < sets@.len() ==> (#[trigger] sets@[t].indices)@.len() >= 1,
            forall|t: int, k: int|
                0 <= t < sets@.len() && 0 <= k < sets@[t].indices@.len() ==> (#[trigger] sets@[t].indices@[k])
                    < i && spec_set_key_of(parts@[sets@[t].indices@[k] as int]@.part_id)
                    == sets@[t].key@,
            forall|t: int, k1: int, k2: int|
                0 <= t < sets@.len() && 0 <= k1 < k2 < sets@[t].indices@.len() ==> (#[trigger] sets@[
                    t
                ].indices@[k1]) < (#[trigger] sets@[t].indices@[k2]),
            forall|t1: int, t2: int|
                0 <= t1 < t2 < sets@.len() ==> (#[trigger] sets@[t1].key)@ != (#[trigger] sets@[t2].key)@,
            forall|t: int, i2: usize|
                0 <= t < sets@.len() && i2 < i && spec_set_key_of(
                    (#[trigger] parts@[i2 as int])@.part_id,
                ) == (#[trigger] sets@[t].key)@ ==> sets@[t].indices@.contains(i2),
            forall|i2: int|
                0 <= i2 < i ==> exists|t: int|
                    0 <= t < sets@.len() && (#[trigger] sets@[t].key)@ == spec_set_key_of(
                        (#[trigger] parts@[i2])@.part_id,
                    ),
        decreases parts@.len() - i,
    {
        let key = parts[i].set_key();
        let mut t: usize = 0;
        let mut found = false;
        while t < sets.len() && !found
            invariant
                0 <= t <= sets@.len(),
                !found ==> forall|t2: int| 0 <= t2 < t ==> (#[trigger] sets@[t2].key)@ != key@,
                found ==> t < sets@.len() && sets@[t as int].key@ == key@,
            decreases sets@.len() - t + if found {
                0int
            } else {
                1int
            },
        {
            if set_key_eq(&sets[t].key, &key) {
                found = true;
            } else {
                t = t + 1;
            }
        }
        if found {
            let ghost before = sets@;
            sets[t].indices.push(i);
            proof {
                assert(sets@[t as int].indices@ == before[t as int].indices@.push(i));
                assert(sets@[t as int].key == before[t as int].key);
                assert forall|i2: int| 0 <= i2 <= i implies exists|t2: int|
                    0 <= t2 < sets@.len() && (#[trigger] sets@[t2].key)@ == spec_set_key_of(
                        (#[trigger] parts@[i2])@.part_id,
                    ) by {
                    if i2 < i {
                        let t2 = choose|t2: int|
                            0 <= t2 < before.len() && (#[trigger] before[t2].key)@ == spec_set_key_of(
                                parts@[i2]@.part_id,
                            );
                        assert(sets@[t2].key@ == spec_set_key_of(parts@[i2]@.part_id));
                    } else {
                        assert(sets@[t as int].key@ == spec_set_key_of(parts@[i2]@.part_id));
                    }
                }
                assert forall|t2: int, i2: usize|
                    0 <= t2 < sets@.len() && i2 < i + 1 && spec_set_key_of(
                        (#[trigger] parts@[i2 as int])@.part_id,
                    ) == (#[trigger] sets@[t2].key)@ implies sets@[t2].indices@.contains(i2) by {
                    if t2 == t as int {
                        if i2 < i {
                            assert(before[t2].indices@.contains(i2));
                            let k = choose|k: int|
                                0 <= k < before[t2].indices@.len() && before[t2].indices@[k] == i2;
                            assert(sets@[t2].indices@[k] == i2);
                        } else {
                            assert(sets@[t2].indices@.last() == i);
                        }
                    } else {
                        assert(i2 < i);
                        assert(before[t2].indices@.contains(i2));
                    }
                }
            }
        } else {
            let mut indices: Vec<usize> = Vec::new();
            indices.push(i);
            let ghost before = sets@;
            sets.push(OutfitSet { key, indices });
            proof {
                assert forall|i2: int| 0 <= i2 <= i implies exists|t2: int|
                    0 <= t2 < sets@.len() && (#[trigger] sets@[t2].key)@ == spec_set_key_of(
                        (#[trigger] parts@[i2])@.part_id,
                    ) by {
                    if i2 < i {
                        let t2 = choose|t2: int|
                            0 <= t2 < before.len() && (#[trigger] before[t2].key)@ == spec_set_key_of(
                                parts@[i2]@.part_id,
                            );
                        assert(sets@[t2].key@ == spec_set_key_of(parts@[i2]@.part_id));
                    } else {
                        assert(sets@[sets@.len() - 1].key@ == spec_set_key_of(parts@[i2]@.part_id));
                    }
                }
                assert forall|t2: int, i2: usize|
                    0 <= t2 < sets@.len() && i2 < i + 1 && spec_set_key_of(
                        (#[trigger] parts@[i2 as int])@.part_id,
                    ) == (#[trigger] sets@[t2].key)@ implies sets@[t2].indices@.contains(i2) by {
                    if t2 == sets@.len() - 1 {
                        assert(sets@[t2].indices@[0] == i);
                    } else {
                        assert(i2 < i);
                        assert(before[t2].indices@.contains(i2));
                    }
                }
            }
        }
        i = i + 1;
    }
    sets
}

/// Whether a set's members span both the under and the neck layer.
fn set_spans_pair(parts: &Vec<PartDef>, set: &OutfitSet) -> (r: bool)
    requires
        forall|k: int| 0 <= k < set.indices@.len() ==> (#[trigger] set.indices@[k]) < parts@.len(),
    ensures
        r == spec_set_spans_pair(parts@, *set),
{
    let mut has_under = false;
    let mut has_neck = false;
    let mut k: usize = 0;
    while k < set.indices.len()
        invariant
            0 <= k <= set.indices@.len(),
            forall|k2: int| 0 <= k2 < set.indices@.len() ==> (#[trigger] set.indices@[k2]) < parts@.len(),
            has_under == exists|k2: int|
                0 <= k2 < k && parts@[(#[trigger] set.indices@[k2]) as int]@.part_id.layer
                    == LayerCode::Undr00,
            has_neck == exists|k2: int|
                0 <= k2 < k && parts@[(#[trigger] set.indices@[k2]) as int]@.part_id.layer
                    == LayerCode::Neck11,
        decreases set.indices@.len() - k,
    {
        let idx = set.indices[k];
        match parts[idx].part_id.layer {
            LayerCode::Undr00 => {
                has_under = true;
            },
            LayerCode::Neck11 => {
                has_neck = true;
            },
            _ => {},
        }
        k = k + 1;
    }
    has_under && has_neck
}

/// The paired-required collection is correct for the first `t` sets:
/// it holds exactly the keys of the pair-spanning sets among them, each
/// once.
pub open spec fn spec_paired_inv(
    parts: Seq<PartDef>,
    sets: Seq<OutfitSet>,
    paired: Seq<OutfitSetKey>,
    t: int,
) -> bool {
    &&& forall|q: int|
        0 <= q < paired.len() ==> crate::catalog::spec_spanning_set_with_key(
            parts,
            sets,
            t,
            (#[trigger] paired[q])@,
        )
    &&& forall|t2: int|
        0 <= t2 < t && spec_set_spans_pair(parts, #[trigger] sets[t2])
            ==> crate::catalog::spec_paired_has_key(paired, sets[t2].key@)
    &&& forall|q1: int, q2: int|
        0 <= q1 < q2 < paired.len() ==> (#[trigger] paired[q1])@ != (#[trigger] paired[q2])@
}

/// Appending the key of a pair-spanning set keeps the collection correct.
proof fn lemma_paired_push(
    parts: Seq<PartDef>,
    sets: Seq<OutfitSet>,
    paired: Seq<OutfitSetKey>,
    t: int,
    k: OutfitSetKey,
)
    requires
        spec_paired_inv(parts, sets, paired, t),
        0 <= t < sets.len(),
        spec_set_spans_pair(parts, sets[t]),
        k@ == sets[t].key@,
        forall|t1: int, t2: int|
            0 <= t1 < t2 < sets.len() ==> (#[trigger] sets[t1].key)@ != (#[trigger] sets[t2].key)@,
    ensures
        spec_paired_inv(parts, sets, paired.push(k), t + 1),
{
    let after = paired.push(k);
    assert forall|q: int| 0 <= q < after.len() implies crate::catalog::spec_spanning_set_with_key(
        parts,
        sets,
        t + 1,
        (#[trigger] after[q])@,
    ) by {
        if q < paired.len() {
            assert(crate::catalog::spec_spanning_set_with_key(parts, sets, t, paired[q]@));
            let t2 = choose|t2: int|
                0 <= t2 < t && (#[trigger] sets[t2].key)@ == paired[q]@ && spec_set_spans_pair(
                    parts,
                    sets[t2],
                );
            assert(after[q]@ == paired[q]@);
            assert(0 <= t2 < t + 1 && sets[t2].key@ == after[q]@ && spec_set_spans_pair(
                parts,
                sets[t2],
            ));
        } else {
            assert(after[q]@ == k@);
            assert(0 <= t < t + 1 && sets[t].key@ == after[q]@ && spec_set_spans_pair(
                parts,
                sets[t],
            ));
        }
    }
    assert forall|t2: int|
        0 <= t2 < t + 1 && spec_set_spans_pair(parts, #[trigger] sets[t2])
            implies crate::catalog::spec_paired_has_key(after, sets[t2].key@) by {
        if t2 < t {
            assert(crate::catalog::spec_paired_has_key(paired, sets[t2].key@));
            let q = choose|q: int| 0 <= q < paired.len() && (#[trigger] paired[q])@ == sets[t2].key@;
            assert(after[q]@ == sets[t2].key@);
        } else {
            assert(after[after.len() - 1]@ == sets[t2].key@);
        }
    }
    assert forall|q1: int, q2: int| 0 <= q1 < q2 < after.len() implies (#[trigger] after[q1])@
        != (#[trigger] after[q2])@ by {
        if q2 == after.len() - 1 {
            assert(crate::catalog::spec_spanning_set_with_key(parts, sets, t, paired[q1]@));
            let t2 = choose|t2: int|
                0 <= t2 < t && (#[trigger] sets[t2].key)@ == paired[q1]@ && spec_set_spans_pair(
                    parts,
                    sets[t2],
                );
            assert(sets[t2].key@ != sets[t].key@);
        }
    }
}

/// Passing a set that does not span the pair changes nothing.
proof fn lemma_paired_skip(
    parts: Seq<PartDef>,
    sets: Seq<OutfitSet>,
    paired: Seq<OutfitSetKey>,
    t: int,
)
    requires
        spec_paired_inv(parts, sets, paired, t),
        0 <= t < sets.len(),
        !spec_set_spans_pair(parts, sets[t]),
    ensures
        spec_paired_inv(parts, sets, paired, t + 1),
{
    assert forall|q: int| 0 <= q < paired.len() implies crate::catalog::spec_spanning_set_with_key(
        parts,
        sets,
        t + 1,
        (#[trigger] paired[q])@,
    ) by {
        assert(crate::catalog::spec_spanning_set_with_key(parts, sets, t, paired[q]@));
        let t2 = choose|t2: int|
            0 <= t2 < t && (#[trigger] sets[t2].key)@ == paired[q]@ && spec_set_spans_pair(
                parts,
                sets[t2],
            );
        assert(0 <= t2 < t + 1 && sets[t2].key@ == paired[q]@ && spec_set_spans_pair(
            parts,
            sets[t2],
        ));
    }
}

/// Collect the keys of the sets that must be equipped as a unit.
fn build_paired(parts: &Vec<PartDef>, sets: &Vec<OutfitSet>) -> (r: Vec<OutfitSetKey>)
    requires
        spec_sets_wf(parts@, sets@),
    ensures
        spec_paired_wf(parts@, sets@, r@),
{
    let mut paired: Vec<OutfitSetKey> = Vec::new();
    let mut t: usize = 0;
    while t < sets.len()
        invariant
            0 <= t <= sets@.len(),
            forall|t2: int, k: int|
                0 <= t2 < sets@.len() && 0 <= k < sets@[t2].indices@.len() ==> (#[trigger] sets@[
                    t2
                ].indices@[k]) < parts@.len(),
            forall|t1: int, t2: int|
                0 <= t1 < t2 < sets@.len() ==> (#[trigger] sets@[t1].key)@ != (#[trigger] sets@[t2].key)@,
            spec_paired_inv(parts@, sets@, paired@, t as int),
        decreases sets@.len() - t,
    {
        let spans = set_spans_pair(parts, &sets[t]);
        if spans {
            let k = sets[t].key.clone_key();
            let ghost before = paired@;
            proof {
                lemma_paired_push(parts@, sets@, before, t as int, k);
            }
            paired.push(k);
            proof {
                assert(paired@ == before.push(k));
            }
        } else {
            proof {
                lemma_paired_skip(parts@, sets@, paired@, t as int);
            }
        }
        t = t + 1;
    }
    paired
}

impl OutfitSetKey {
    /// A copy of this key.
    pub fn clone_key(&self) -> (r: OutfitSetKey)
        ensures
            r@ == self@,
    {
        OutfitSetKey { name: self.name.clone(), version: self.version, palette: self.palette }
    }
}

/// Build a catalog out of parsed part records: the records are kept as
/// given, and every derived index is established at once.
pub fn build_catalog(parts: Vec<PartDef>) -> (r: PartCatalog)
    ensures
        r.parts@ == parts@,
        r.wf(),
{
    let by_key = build_by_key(&parts);
    let by_layer = build_by_layer(&parts);
    let sets = build_sets(&parts);
    let paired_required_sets = build_paired(&parts, &sets);
    PartCatalog { parts, by_key, by_layer, sets, paired_required_sets }
}

} // verus!
