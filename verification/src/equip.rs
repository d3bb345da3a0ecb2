//! The equip state machine: which part is worn on each layer, with slot
//! exclusivity, paired-set expansion, and the derived visibility view.

use vstd::prelude::*;

use crate::catalog::{
    set_key_eq, spec_set_key_of, OutfitSetKey, PartCatalog, PartDef, SetKeyView,
};
use crate::layers::{layer_index, spec_layer_index, LayerCode, Slot, Special};

verus! {

/// What is worn: at most one catalog position per layer, indexed by the
/// fixed draw order.
#[derive(Debug, Clone)]
pub struct EquippedParts {
    pub by_layer: Vec<Option<usize>>,
}

/// The empty selection: nothing worn on any layer.
pub open spec fn spec_empty_map() -> Seq<Option<usize>> {
    Seq::new(16, |l: int| None)
}

/// Clearing every layer whose worn part occupies the given slot. Entries
/// out of range of the catalog are left alone, as the catalog cannot say
/// what they wear.
pub open spec fn spec_clear_slot(
    parts: Seq<PartDef>,
    m: Seq<Option<usize>>,
    s: Slot,
) -> Seq<Option<usize>> {
    Seq::new(
        m.len() as nat,
        |l: int|
            match m[l] {
                Some(j) => if j < parts.len() && parts[j as int]@.slot == Some(s) {
                    None
                } else {
                    m[l]
                },
                None => None,
            },
    )
}

/// Equipping every valid member of a set on its own layer, in member
/// order from position `k` on.
pub open spec fn spec_insert_members(
    parts: Seq<PartDef>,
    m: Seq<Option<usize>>,
    indices: Seq<usize>,
    k: int,
) -> Seq<Option<usize>>
    decreases indices.len() - k,
{
    if k < 0 || k >= indices.len() {
        m
    } else {
        let j = indices[k];
        let m2 = if j < parts.len() {
            m.update(spec_layer_index(parts[j as int]@.part_id.layer), Some(j))
        } else {
            m
        };
        spec_insert_members(parts, m2, indices, k + 1)
    }
}

/// What one equip call does to the worn map: nothing when the position is
/// out of range; otherwise clear the part's slot everywhere, wear the
/// part on its layer, and when its set is flagged paired-required, wear
/// every member of that set too.
pub open spec fn spec_equip(
    cat: PartCatalog,
    m: Seq<Option<usize>>,
    index: usize,
) -> Seq<Option<usize>> {
    if index >= cat.parts@.len() {
        m
    } else {
        let part = cat.parts@[index as int];
        let m1 = match part@.slot {
            Some(s) => spec_clear_slot(cat.parts@, m, s),
            None => m,
        };
        let m2 = m1.update(spec_layer_index(part@.part_id.layer), Some(index));
        let key = spec_set_key_of(part@.part_id);
        if cat.spec_is_paired_required(key) {
            spec_insert_members(cat.parts@, m2, cat.spec_set_members(key), 0)
        } else {
            m2
        }
    }
}

/// Whether the hair layer is hidden: a worn head part flagged exclusive
/// hides it, and a worn hair part flagged exclusive is hidden by any worn
/// head part.
pub open spec fn spec_hide_hair(cat: PartCatalog, m: Seq<Option<usize>>) -> bool {
    let hat_valid = m[14] is Some && (m[14]->0 as int) < cat.parts@.len();
    let hat_e = hat_valid && cat.parts@[m[14]->0 as int]@.part_id.special == Some(Special::E);
    let hair_valid = m[13] is Some && (m[13]->0 as int) < cat.parts@.len();
    let hair_e = hair_valid && cat.parts@[m[13]->0 as int]@.part_id.special == Some(Special::E);
    hat_e || (hat_valid && hair_e)
}

/// The rendering view derived from the worn map: the same map, with the
/// hair layer taken out when [`spec_hide_hair`] holds.
pub open spec fn spec_visible_map(cat: PartCatalog, m: Seq<Option<usize>>) -> Seq<Option<usize>> {
    if spec_hide_hair(cat, m) {
        m.update(13, None)
    } else {
        m
    }
}

/// Whether a worn part's slot is this one.
fn slot_matches(a: Option<Slot>, s: Slot) -> (r: bool)
    ensures
        r == (a == Some(s)),
{
    match a {
        Some(x) => x == s,
        None => false,
    }
}

/// Whether the catalog flags this set key paired-required.
fn is_paired_required(cat: &PartCatalog, key: &OutfitSetKey) -> (r: bool)
    ensures
        r == cat.spec_is_paired_required(key@),
{
    let mut q: usize = 0;
    while q < cat.paired_required_sets.len()
        invariant
            0 <= q <= cat.paired_required_sets@.len(),
            forall|q2: int|
                0 <= q2 < q ==> (#[trigger] cat.paired_required_sets@[q2])@ != key@,
        decreases cat.paired_required_sets@.len() - q,
    {
        if set_key_eq(&cat.paired_required_sets[q], key) {
            return true;
        }
        q = q + 1;
    }
    false
}

/// The position of the set bearing this key, if any.
fn find_set(cat: &PartCatalog, key: &OutfitSetKey) -> (r: Option<usize>)
    ensures
        match r {
            Some(t) => t < cat.sets@.len() && cat.sets@[t as int].key@ == key@,
            None => forall|t: int| 0 <= t < cat.sets@.len() ==> (#[trigger] cat.sets@[t].key)@ != key@,
        },
{
    let mut t: usize = 0;
    while t < cat.sets.len()
        invariant
            0 <= t <= cat.sets@.len(),
            forall|t2: int| 0 <= t2 < t ==> (#[trigger] cat.sets@[t2].key)@ != key@,
        decreases cat.sets@.len() - t,
    {
        if set_key_eq(&cat.sets[t].key, key) {
            return Some(t);
        }
        t = t + 1;
    }
    None
}

impl EquippedParts {
    /// One slot per layer.
    pub open spec fn wf(self) -> bool {
        self.by_layer@.len() == 16
    }

    /// A selection with nothing worn.
    pub fn new_empty() -> (r: EquippedParts)
        ensures
            r.wf(),
            r.by_layer@ == spec_empty_map(),
    {
        let mut by_layer: Vec<Option<usize>> = Vec::new();
        let mut l: usize = 0;
        while l < 16
            invariant
                0 <= l <= 16,
                by_layer@.len() == l,
                forall|l2: int| 0 <= l2 < l ==> by_layer@[l2] is None,
            decreases 16 - l,
        {
            by_layer.push(None);
            l = l + 1;
        }
        proof {
            assert(by_layer@ =~= spec_empty_map());
        }
        EquippedParts { by_layer }
    }

    /// Equip the part at a catalog position: a no-op when the position is
    /// out of range; otherwise every part sharing its slot is removed
    /// first, the part is worn on its layer, and a paired-required set is
    /// worn as a whole.
    pub fn equip_by_index(&mut self, catalog: &PartCatalog, index: usize)
        requires
            old(self).wf(),
            catalog.wf(),
        ensures
            final(self).wf(),
            final(self).by_layer@ == spec_equip(*catalog, old(self).by_layer@, index),
    {
        if index >= catalog.parts.len() {
            return;
        }
        let ghost m0 = self.by_layer@;
        if let Some(slot) = catalog.parts[index].slot {
            let mut l: usize = 0;
            while l < 16
                invariant
                    0 <= l <= 16,
                    self.by_layer@.len() == 16,
                    index < catalog.parts@.len(),
                    catalog.parts@[index as int]@.slot == Some(slot),
                    m0.len() == 16,
                    forall|l2: int| l <= l2 < 16 ==> self.by_layer@[l2] == m0[l2],
                    forall|l2: int|
                        0 <= l2 < l ==> self.by_layer@[l2] == spec_clear_slot(
                            catalog.parts@,
                            m0,
                            slot,
                        )[l2],
                decreases 16 - l,
            {
                if let Some(j) = self.by_layer[l] {
                    if j < catalog.parts.len() {
                        if slot_matches(catalog.parts[j].slot, slot) {
                            self.by_layer.set(l, None);
                        }
                    }
                }
                l = l + 1;
            }
            proof {
                assert(self.by_layer@ =~= spec_clear_slot(catalog.parts@, m0, slot));
            }
        }
        let ghost m1 = self.by_layer@;
        let layer = catalog.parts[index].part_id.layer;
        let li = layer_index(layer);
        self.by_layer.set(li, Some(index));
        let ghost m2 = self.by_layer@;
        let key = catalog.parts[index].set_key();
        if is_paired_required(catalog, &key) {
            if let Some(t) = find_set(catalog, &key) {
                proof {
                    // the unique set bearing this key is the one found
                    let members = catalog.spec_set_members(key@);
                    let t2 = choose|t2: int|
                        0 <= t2 < catalog.sets@.len() && (#[trigger] catalog.sets@[t2].key)@ == key@;
                    assert(t2 == t as int);
                    assert(members == catalog.sets@[t as int].indices@);
                }
                let ghost members = catalog.sets@[t as int].indices@;
                let count = catalog.sets[t].indices.len();
                let mut k: usize = 0;
                while k < count
                    invariant
                        0 <= k <= count,
                        t < catalog.sets@.len(),
                        count == members.len(),
                        members == catalog.sets@[t as int].indices@,
                        self.by_layer@.len() == 16,
                        spec_insert_members(catalog.parts@, self.by_layer@, members, k as int)
                            == spec_insert_members(catalog.parts@, m2, members, 0),
                    decreases count - k,
                {
                    let j = catalog.sets[t].indices[k];
                    if j < catalog.parts.len() {
                        let lj = layer_index(catalog.parts[j].part_id.layer);
                        self.by_layer.set(lj, Some(j));
                    }
                    k = k + 1;
                }
                proof {
                    assert(spec_insert_members(catalog.parts@, self.by_layer@, members, count as int)
                        == self.by_layer@);
                }
            } else {
                proof {
                    // a well-formed catalog flags only keys that some set bears
                    let t2 = choose|t2: int|
                        0 <= t2 < catalog.sets@.len() && (#[trigger] catalog.sets@[t2].key)@ == key@;
                    assert(false);
                }
            }
        }
    }

    /// Clear the selection and wear the canonical minimal outfit: the
    /// first catalog entry of each default layer that has one.
    pub fn set_defaults(&mut self, catalog: &PartCatalog)
        requires
            catalog.wf(),
        ensures
            final(self).wf(),
            final(self).by_layer@ == spec_apply_defaults(*catalog, spec_empty_map(), 0),
    {
        let empty = EquippedParts::new_empty();
        self.by_layer = empty.by_layer;
        let mut k: usize = 0;
        while k < 6
            invariant
                0 <= k <= 6,
                self.wf(),
                catalog.wf(),
                spec_apply_defaults(*catalog, self.by_layer@, k as int) == spec_apply_defaults(
                    *catalog,
                    spec_empty_map(),
                    0,
                ),
            decreases 6 - k,
        {
            let layer = default_layer(k);
            let list = catalog.layer_indices(layer);
            if list.len() > 0 {
                let first = list[0];
                self.equip_by_index(catalog, first);
            }
            k = k + 1;
        }
    }

    /// Clear the selection, then equip each key that resolves in the
    /// catalog; unknown keys are dropped without error.
    pub fn apply_equipped_keys(&mut self, catalog: &PartCatalog, keys: &Vec<String>)
        requires
            catalog.wf(),
        ensures
            final(self).wf(),
            final(self).by_layer@ == spec_apply_keys(
                *catalog,
                spec_empty_map(),
                spec_str_views(keys@),
                0,
            ),
    {
        let empty = EquippedParts::new_empty();
        self.by_layer = empty.by_layer;
        let mut k: usize = 0;
        while k < keys.len()
            invariant
                0 <= k <= keys@.len(),
                self.wf(),
                catalog.wf(),
                spec_apply_keys(*catalog, self.by_layer@, spec_str_views(keys@), k as int)
                    == spec_apply_keys(*catalog, spec_empty_map(), spec_str_views(keys@), 0),
            decreases keys@.len() - k,
        {
            if let Some(index) = catalog.index_by_key(keys[k].as_str()) {
                self.equip_by_index(catalog, index);
            }
            k = k + 1;
        }
    }

    /// The part keys of everything worn, ordered by the fixed layer
    /// enumeration, undermost first.
    pub fn equipped_part_keys(&self, catalog: &PartCatalog) -> (r: Vec<String>)
        requires
            self.wf(),
            catalog.wf(),
        ensures
            spec_str_views(r@) == spec_keys_from(*catalog, self.by_layer@, 0),
    {
        let mut keys: Vec<String> = Vec::new();
        let mut l: usize = 0;
        while l < 16
            invariant
                0 <= l <= 16,
                self.wf(),
                catalog.wf(),
                spec_keys_from(*catalog, self.by_layer@, 0) == spec_str_views(keys@)
                    + spec_keys_from(*catalog, self.by_layer@, l as int),
            decreases 16 - l,
        {
            let ghost before = keys@;
            if let Some(j) = self.by_layer[l] {
                if j < catalog.parts.len() {
                    keys.push(catalog.parts[j].part_key.clone());
                    proof {
                        assert(spec_str_views(keys@) =~= spec_str_views(before).push(
                            catalog.parts@[j as int]@.part_key,
                        ));
                    }
                }
            }
            proof {
                assert(spec_str_views(keys@) + spec_keys_from(*catalog, self.by_layer@, l + 1)
                    =~= spec_str_views(before) + spec_keys_from(*catalog, self.by_layer@, l as int));
            }
            l = l + 1;
        }
        proof {
            assert(spec_keys_from(*catalog, self.by_layer@, 16) =~= Seq::<Seq<char>>::empty());
            assert(spec_str_views(keys@) =~= spec_str_views(keys@) + spec_keys_from(
                *catalog,
                self.by_layer@,
                16,
            ));
        }
        keys
    }

    /// The rendering view: the worn map with the hair layer hidden when
    /// an exclusive head part is worn, or when a head part is worn over
    /// an exclusive hair part. The worn map itself is left untouched.
    pub fn visible_layer_map(&self, catalog: &PartCatalog) -> (r: Vec<Option<usize>>)
        requires
            self.wf(),
            catalog.wf(),
        ensures
            r@ == spec_visible_map(*catalog, self.by_layer@),
            r@.len() == 16,
    {
        let mut map: Vec<Option<usize>> = Vec::new();
        let mut l: usize = 0;
        while l < 16
            invariant
                0 <= l <= 16,
                self.wf(),
                map@.len() == l,
                forall|l2: int| 0 <= l2 < l ==> map@[l2] == self.by_layer@[l2],
            decreases 16 - l,
        {
            map.push(self.by_layer[l]);
            l = l + 1;
        }
        let (hat_valid, hat_e) = entry_exclusive(catalog, map[14]);
        let (_, hair_e) = entry_exclusive(catalog, map[13]);
        let hide = hat_e || (hat_valid && hair_e);
        proof {
            assert(map@ =~= self.by_layer@);
            assert(hide == spec_hide_hair(*catalog, self.by_layer@));
        }
        if hide {
            map.set(13, None);
            proof {
                assert(map@ =~= spec_visible_map(*catalog, self.by_layer@));
            }
        }
        map
    }
}

/// Whether a worn map entry points at a valid part, and whether that
/// part carries the exclusive marker.
fn entry_exclusive(catalog: &PartCatalog, e: Option<usize>) -> (r: (bool, bool))
    ensures
        r.0 == (e is Some && (e->0 as int) < catalog.parts@.len()),
        r.1 == (e is Some && (e->0 as int) < catalog.parts@.len()
            && catalog.parts@[e->0 as int]@.part_id.special == Some(Special::E)),
{
    match e {
        Some(j) => {
            if j < catalog.parts.len() {
                let ex = match catalog.parts[j].part_id.special {
                    Some(s) => s == Special::E,
                    None => false,
                };
                proof {
                    let sp = catalog.parts@[j as int]@.part_id.special;
                    if sp is Some && sp->0 == Special::E {
                        assert(sp == Some(Special::E));
                    }
                }
                (true, ex)
            } else {
                (false, false)
            }
        },
        None => (false, false),
    }
}

/// The six layers seeded by `set_defaults`, in seeding order.
pub open spec fn spec_default_layer(k: int) -> LayerCode {
    if k == 0 {
        LayerCode::Body01
    } else if k == 1 {
        LayerCode::Sock02
    } else if k == 2 {
        LayerCode::Fot103
    } else if k == 3 {
        LayerCode::Lwr104
    } else if k == 4 {
        LayerCode::Shrt05
    } else {
        LayerCode::Hair13
    }
}

fn default_layer(k: usize) -> (r: LayerCode)
    requires
        k < 6,
    ensures
        r == spec_default_layer(k as int),
{
    if k == 0 {
        LayerCode::Body01
    } else if k == 1 {
        LayerCode::Sock02
    } else if k == 2 {
        LayerCode::Fot103
    } else if k == 3 {
        LayerCode::Lwr104
    } else if k == 4 {
        LayerCode::Shrt05
    } else {
        LayerCode::Hair13
    }
}

/// Seeding the default outfit from layer `k` of the default list on.
pub open spec fn spec_apply_defaults(
    cat: PartCatalog,
    m: Seq<Option<usize>>,
    k: int,
) -> Seq<Option<usize>>
    decreases 6 - k,
{
    if k < 0 || k >= 6 {
        m
    } else {
        let list = cat.by_layer@[spec_layer_index(spec_default_layer(k)) as int]@;
        let m2 = if list.len() > 0 {
            spec_equip(cat, m, list[0])
        } else {
            m
        };
        spec_apply_defaults(cat, m2, k + 1)
    }
}

/// The views of a sequence of strings.
pub open spec fn spec_str_views(keys: Seq<String>) -> Seq<Seq<char>> {
    Seq::new(keys.len(), |k: int| keys[k]@)
}

/// Equipping each key that resolves, from position `k` of the list on.
pub open spec fn spec_apply_keys(
    cat: PartCatalog,
    m: Seq<Option<usize>>,
    keys: Seq<Seq<char>>,
    k: int,
) -> Seq<Option<usize>>
    decreases keys.len() - k,
{
    if k < 0 || k >= keys.len() {
        m
    } else {
        let m2 = match crate::catalog::spec_lookup_key(cat.by_key@, keys[k]) {
            Some(index) => spec_equip(cat, m, index),
            None => m,
        };
        spec_apply_keys(cat, m2, keys, k + 1)
    }
}

/// The worn part keys from layer `l` of the draw order on.
pub open spec fn spec_keys_from(cat: PartCatalog, m: Seq<Option<usize>>, l: int) -> Seq<Seq<char>>
    decreases 16 - l,
{
    if l < 0 || l >= 16 {
        Seq::empty()
    } else {
        let rest = spec_keys_from(cat, m, l + 1);
        match m[l] {
            Some(j) => if j < cat.parts@.len() {
                seq![cat.parts@[j as int]@.part_key] + rest
            } else {
                rest
            },
            None => rest,
        }
    }
}

} // verus!
