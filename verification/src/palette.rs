//! The palette catalog: ramp reference images discovered under a
//! `palettes` folder, keyed by their path with the image extension
//! stripped, and sorted so indexing is deterministic across rebuilds.

use vstd::prelude::*;

use crate::catalog::KeyIndex;
use crate::ident::{spec_lower_char, lower_char, string_from_chars, str_to_chars};
use crate::order::{lex_lt, lemma_lex_lt_trichotomy, lemma_lex_lt_transitive, str_cmp};

verus! {

/// One discovered palette image: its key and its root-relative path.
#[derive(Debug, Clone)]
pub struct PaletteDef {
    pub palette_key: String,
    pub image_path: String,
}

/// Mathematical image of a [`PaletteDef`].
pub struct PaletteDefView {
    pub palette_key: Seq<char>,
    pub image_path: Seq<char>,
}

impl View for PaletteDef {
    type V = PaletteDefView;

    open spec fn view(&self) -> PaletteDefView {
        PaletteDefView { palette_key: self.palette_key@, image_path: self.image_path@ }
    }
}

/// The palette catalog: the discovered images sorted by key, plus the
/// key index.
#[derive(Debug, Clone)]
pub struct PaletteCatalog {
    pub palettes: Vec<PaletteDef>,
    pub by_key: Vec<KeyIndex>,
}

/// ASCII lowercasing of a whole sequence.
pub open spec fn spec_lower_seq(p: Seq<char>) -> Seq<char> {
    Seq::new(p.len(), |i: int| spec_lower_char(p[i]))
}

/// Whether a root-relative path lies under a folder named `palettes`, in
/// any letter case: it starts with `palettes/` or holds `/palettes/`.
pub open spec fn spec_is_palette_asset_path(p: Seq<char>) -> bool {
    let lp = spec_lower_seq(p);
    ||| (lp.len() >= 9 && lp.subrange(0, 9) == "palettes/"@)
    ||| exists|i: int| 0 <= i && i + 10 <= lp.len() && #[trigger] lp.subrange(i, i + 10) == "/palettes/"@
}

/// Whether the lowercased characters of `v` spell `s` starting at `i`.
pub fn lower_match_at(v: &Vec<char>, i: usize, s: &str) -> (r: bool)
    requires
        i + s@.len() <= v@.len(),
    ensures
        r == (spec_lower_seq(v@).subrange(i as int, i + s@.len()) == s@),
{
    let n = s.unicode_len();
    let total = v.len();
    proof {
        assert(total == v@.len());
    }
    let mut k: usize = 0;
    while k < n
        invariant
            0 <= k <= n,
            n == s@.len(),
            i + n <= v@.len(),
            v@.len() <= usize::MAX,
            forall|k2: int|
                0 <= k2 < k ==> spec_lower_char(v@[i + k2]) == s@[k2],
        decreases n - k,
    {
        if lower_char(v[i + k]) != s.get_char(k) {
            proof {
                assert(spec_lower_seq(v@).subrange(i as int, i + s@.len())[k as int]
                    == spec_lower_char(v@[i + k]));
            }
            return false;
        }
        k = k + 1;
    }
    proof {
        assert(spec_lower_seq(v@).subrange(i as int, i + s@.len()) =~= s@);
    }
    true
}

/// Whether a root-relative, slash-normalized path lies under a folder
/// named `palettes`, in any letter case.
pub fn is_palette_asset_path(asset_path: &str) -> (r: bool)
    ensures
        r == spec_is_palette_asset_path(asset_path@),
{
    let v = str_to_chars(asset_path);
    let prefix = "palettes/";
    let needle = "/palettes/";
    proof {
        reveal_strlit("palettes/");
        reveal_strlit("/palettes/");
    }
    if v.len() >= 9 {
        if lower_match_at(&v, 0, prefix) {
            return true;
        }
    }
    if v.len() >= 10 {
        let last = v.len() - 10;
        let mut i: usize = 0;
        while i <= last
            invariant
                0 <= i,
                i <= v@.len(),
                v@ == asset_path@,
                v@.len() >= 10,
                last == v@.len() - 10,
                v@.len() <= usize::MAX,
                needle@ == "/palettes/"@,
                needle@.len() == 10,
                forall|i2: int|
                    0 <= i2 < i ==> #[trigger] spec_lower_seq(v@).subrange(i2, i2 + 10)
                        != "/palettes/"@,
            decreases v@.len() - i,
        {
            if lower_match_at(&v, i, needle) {
                return true;
            }
            i = i + 1;
        }
        proof {
            assert(forall|i2: int|
                0 <= i2 && i2 + 10 <= v@.len() ==> #[trigger] spec_lower_seq(v@).subrange(
                    i2,
                    i2 + 10,
                ) != "/palettes/"@);
        }
        proof {
            assert(spec_lower_seq(v@).len() == v@.len());
        }
    }
    false
}

/// The key of a palette image: its path with a trailing `.png`, in any
/// letter case, stripped.
pub open spec fn spec_palette_key(p: Seq<char>) -> Seq<char> {
    let lp = spec_lower_seq(p);
    if lp.len() >= 4 && lp.subrange(lp.len() - 4, lp.len() as int) == ".png"@ {
        p.subrange(0, p.len() - 4)
    } else {
        p
    }
}

/// Derive the palette key of an asset path.
pub fn palette_key_from_asset_path(asset_path: &str) -> (r: String)
    ensures
        r@ == spec_palette_key(asset_path@),
{
    let v = str_to_chars(asset_path);
    proof {
        reveal_strlit(".png");
    }
    if v.len() >= 4 && lower_match_at(&v, v.len() - 4, ".png") {
        let mut stem = v;
        let keep = stem.len() - 4;
        stem.truncate(keep);
        proof {
            assert(stem@ =~= asset_path@.subrange(0, asset_path@.len() - 4));
        }
        string_from_chars(&stem)
    } else {
        string_from_chars(&v)
    }
}

/// Sorted ascending by key; equal keys keep their relative order by
/// construction.
pub open spec fn spec_palettes_sorted(ps: Seq<PaletteDef>) -> bool {
    forall|k1: int, k2: int|
        0 <= k1 < k2 < ps.len() ==> !lex_lt(
            (#[trigger] ps[k2])@.palette_key,
            (#[trigger] ps[k1])@.palette_key,
        )
}

/// The views of a palette record list.
pub open spec fn spec_palette_views(ps: Seq<PaletteDef>) -> Seq<PaletteDefView> {
    Seq::new(ps.len(), |k: int| ps[k]@)
}

/// Whether the key index holds this key.
pub open spec fn spec_has_palette_key(by_key: Seq<KeyIndex>, key: Seq<char>) -> bool {
    exists|j: int| 0 <= j < by_key.len() && (#[trigger] by_key[j]).key@ == key
}

/// Whether a record with this view stands in the list.
pub open spec fn spec_palette_from(palettes: Seq<PaletteDef>, v: PaletteDefView) -> bool {
    exists|k2: int| 0 <= k2 < palettes.len() && (#[trigger] palettes[k2])@ == v
}

/// The key index of the palette catalog: every present key resolves to
/// the last position bearing it.
pub open spec fn spec_palette_by_key_wf(ps: Seq<PaletteDef>, by_key: Seq<KeyIndex>) -> bool {
    &&& forall|j: int|
        0 <= j < by_key.len() ==> (#[trigger] by_key[j]).index < ps.len()
            && ps[by_key[j].index as int]@.palette_key == by_key[j].key@ && (forall|i: int|
            by_key[j].index < i < ps.len() ==> ps[i]@.palette_key != by_key[j].key@)
    &&& forall|j1: int, j2: int|
        0 <= j1 < j2 < by_key.len() ==> (#[trigger] by_key[j1]).key@ != (#[trigger] by_key[j2]).key@
    &&& forall|i: int|
        0 <= i < ps.len() ==> spec_has_palette_key(by_key, (#[trigger] ps[i])@.palette_key)
}

impl PaletteCatalog {
    /// The catalog is sorted and its key index agrees with it.
    pub open spec fn wf(self) -> bool {
        &&& spec_palettes_sorted(self.palettes@)
        &&& spec_palette_by_key_wf(self.palettes@, self.by_key@)
    }
}

/// Build the palette catalog: sort the discovered images by key and
/// derive the key index. Every given image ends up in the catalog and
/// nothing else does.
#[verifier::rlimit(100)]
pub fn build_palette_catalog(palettes: Vec<PaletteDef>) -> (r: PaletteCatalog)
    ensures
        r.wf(),
        r.palettes@.len() == palettes@.len(),
        spec_palette_views(r.palettes@).to_multiset() == spec_palette_views(palettes@).to_multiset(),
        forall|k: int|
            0 <= k < r.palettes@.len() ==> spec_palette_from(palettes@, (#[trigger] r.palettes@[k])@),
        forall|k2: int|
            0 <= k2 < palettes@.len() ==> spec_palette_from(
                r.palettes@,
                (#[trigger] palettes@[k2])@,
            ),
{
    let mut sorted: Vec<PaletteDef> = Vec::new();
    let mut i: usize = 0;
    proof {
        assert(spec_palette_views(sorted@) =~= Seq::<PaletteDefView>::empty());
        assert(spec_palette_views(palettes@).subrange(0, 0) =~= Seq::<PaletteDefView>::empty());
    }
    while i < palettes.len()
        invariant
            0 <= i <= palettes@.len(),
            sorted@.len() == i,
            spec_palettes_sorted(sorted@),
            forall|k: int|
                0 <= k < sorted@.len() ==> spec_palette_from(palettes@, (#[trigger] sorted@[k])@),
            forall|k2: int|
                0 <= k2 < i ==> spec_palette_from(sorted@, (#[trigger] palettes@[k2])@),
            spec_palette_views(sorted@).to_multiset() == spec_palette_views(palettes@).subrange(
                0,
                i as int,
            ).to_multiset(),
        decreases palettes@.len() - i,
    {
        let item = palettes[i].clone_def();
        let ghost before = sorted@;
        insert_palette_sorted(&mut sorted, item);
        proof {
            assert forall|k: int| 0 <= k < sorted@.len() implies spec_palette_from(
                palettes@,
                (#[trigger] sorted@[k])@,
            ) by {
                if sorted@[k]@ == palettes@[i as int]@ {
                    assert(palettes@[i as int]@ == sorted@[k]@);
                } else {
                    let kb = choose|kb: int|
                        0 <= kb < before.len() && (#[trigger] before[kb])@ == sorted@[k]@;
                    assert(spec_palette_from(palettes@, before[kb]@));
                }
            }
            assert forall|k2: int| 0 <= k2 < i + 1 implies spec_palette_from(
                sorted@,
                (#[trigger] palettes@[k2])@,
            ) by {
                if k2 < i {
                    assert(spec_palette_from(before, palettes@[k2]@));
                    let kb = choose|kb: int|
                        0 <= kb < before.len() && (#[trigger] before[kb])@ == palettes@[k2]@;
                    assert(spec_palette_from(sorted@, before[kb]@));
                } else {
                    assert(spec_palette_from(sorted@, item@));
                    assert(item@ == palettes@[i as int]@);
                }
            }
            broadcast use vstd::seq_lib::group_to_multiset_ensures;

            let pv = spec_palette_views(palettes@);
            assert(pv.subrange(0, i + 1) =~= pv.subrange(0, i as int).push(pv[i as int]));
            assert(pv.subrange(0, i as int).push(pv[i as int]).to_multiset() == pv.subrange(
                0,
                i as int,
            ).to_multiset().insert(pv[i as int]));
        }
        i = i + 1;
    }
    proof {
        assert(spec_palette_views(palettes@).subrange(0, i as int) =~= spec_palette_views(
            palettes@,
        ));
    }
    let by_key = build_palette_by_key(&sorted);
    PaletteCatalog { palettes: sorted, by_key }
}

impl PaletteDef {
    /// A copy of this record.
    pub fn clone_def(&self) -> (r: PaletteDef)
        ensures
            r@ == self@,
    {
        PaletteDef { palette_key: self.palette_key.clone(), image_path: self.image_path.clone() }
    }
}

/// Insert a record into a key-sorted list, after every record whose key
/// is not greater.
fn insert_palette_sorted(sorted: &mut Vec<PaletteDef>, item: PaletteDef)
    requires
        spec_palettes_sorted(old(sorted)@),
    ensures
        final(sorted)@.len() == old(sorted)@.len() + 1,
        spec_palettes_sorted(final(sorted)@),
        forall|k: int|
            0 <= k < final(sorted)@.len() ==> (#[trigger] final(sorted)@[k])@ == item@
                || spec_palette_from(old(sorted)@, final(sorted)@[k]@),
        spec_palette_from(final(sorted)@, item@),
        forall|kb: int|
            0 <= kb < old(sorted)@.len() ==> spec_palette_from(
                final(sorted)@,
                (#[trigger] old(sorted)@[kb])@,
            ),
        spec_palette_views(final(sorted)@).to_multiset() == spec_palette_views(
            old(sorted)@,
        ).to_multiset().insert(item@),
{
    let mut p: usize = 0;
    let mut stop = false;
    while p < sorted.len() && !stop
        invariant
            0 <= p <= sorted@.len(),
            sorted@ == old(sorted)@,
            forall|k: int|
                0 <= k < p ==> !lex_lt(item@.palette_key, (#[trigger] sorted@[k])@.palette_key),
            stop ==> p < sorted@.len() && lex_lt(
                item@.palette_key,
                sorted@[p as int]@.palette_key,
            ),
        decreases sorted@.len() - p + if stop {
            0int
        } else {
            1int
        },
    {
        if str_cmp(item.palette_key.as_str(), sorted[p].palette_key.as_str()) == -1 {
            stop = true;
        } else {
            p = p + 1;
        }
    }
    let ghost old_seq = sorted@;
    let ghost pos = p as int;
    sorted.insert(p, item);
    proof {
        old_seq.insert_ensures(pos, item);
        assert forall|k1: int, k2: int| 0 <= k1 < k2 < sorted@.len() implies !lex_lt(
            (#[trigger] sorted@[k2])@.palette_key,
            (#[trigger] sorted@[k1])@.palette_key,
        ) by {
            lemma_lex_lt_trichotomy(item@.palette_key, item@.palette_key);
            if k1 == pos {
                let e = old_seq[k2 - 1];
                assert(sorted@[k2] == e);
                lemma_lex_lt_trichotomy(item@.palette_key, old_seq[pos]@.palette_key);
                if k2 - 1 > pos {
                    lemma_lex_lt_trichotomy(item@.palette_key, e@.palette_key);
                    if lex_lt(e@.palette_key, item@.palette_key) {
                        lemma_lex_lt_transitive(
                            e@.palette_key,
                            item@.palette_key,
                            old_seq[pos]@.palette_key,
                        );
                    }
                }
            } else if k2 == pos {
                let e = old_seq[k1];
                assert(sorted@[k1] == e);
                lemma_lex_lt_trichotomy(item@.palette_key, e@.palette_key);
            } else if k1 < pos && k2 < pos {
                assert(sorted@[k1] == old_seq[k1] && sorted@[k2] == old_seq[k2]);
            } else if k1 < pos && k2 > pos {
                assert(sorted@[k1] == old_seq[k1] && sorted@[k2] == old_seq[k2 - 1]);
            } else {
                assert(sorted@[k1] == old_seq[k1 - 1] && sorted@[k2] == old_seq[k2 - 1]);
            }
        }
        assert(sorted@[pos]@ == item@);
        assert forall|k: int| 0 <= k < sorted@.len() implies (#[trigger] sorted@[k])@ == item@
            || spec_palette_from(old_seq, sorted@[k]@) by {
            if k < pos {
                assert(old_seq[k]@ == sorted@[k]@);
            } else if k > pos {
                assert(old_seq[k - 1]@ == sorted@[k]@);
            }
        }
        assert forall|kb: int| 0 <= kb < old_seq.len() implies spec_palette_from(
            sorted@,
            (#[trigger] old_seq[kb])@,
        ) by {
            if kb < pos {
                assert(sorted@[kb]@ == old_seq[kb]@);
            } else {
                assert(sorted@[kb + 1]@ == old_seq[kb]@);
            }
        }
        let vold = spec_palette_views(old_seq);
        vold.insert_ensures(pos, item@);
        assert(spec_palette_views(sorted@) =~= vold.insert(pos, item@));
        vstd::seq_lib::to_multiset_insert(vold, pos, item@);
    }
}

/// Build the key index of the sorted palette list.
#[verifier::rlimit(100)]
fn build_palette_by_key(ps: &Vec<PaletteDef>) -> (r: Vec<KeyIndex>)
    ensures
        spec_palette_by_key_wf(ps@, r@),
{
    let mut by_key: Vec<KeyIndex> = Vec::new();
    let mut i: usize = 0;
    while i < ps.len()
        invariant
            0 <= i <= ps@.len(),
            forall|j: int|
                0 <= j < by_key@.len() ==> (#[trigger] by_key@[j]).index < i
                    && ps@[by_key@[j].index as int]@.palette_key == by_key@[j].key@ && (forall|i2: int|
                    by_key@[j].index < i2 < i ==> ps@[i2]@.palette_key != by_key@[j].key@),
            forall|j1: int, j2: int|
                0 <= j1 < j2 < by_key@.len() ==> (#[trigger] by_key@[j1]).key@ != (#[trigger] by_key@[j2]).key@,
            forall|i2: int|
                0 <= i2 < i ==> spec_has_palette_key(by_key@, (#[trigger] ps@[i2])@.palette_key),
        decreases ps@.len() - i,
    {
        let mut j: usize = 0;
        let mut found = false;
        while j < by_key.len() && !found
            invariant
                0 <= j <= by_key@.len(),
                i < ps@.len(),
                !found ==> forall|j2: int|
                    0 <= j2 < j ==> (#[trigger] by_key@[j2]).key@ != ps@[i as int]@.palette_key,
                found ==> j < by_key@.len() && by_key@[j as int].key@ == ps@[i as int]@.palette_key,
            decreases by_key@.len() - j + if found {
                0int
            } else {
                1int
            },
        {
            if str_cmp(by_key[j].key.as_str(), ps[i].palette_key.as_str()) == 0 {
                found = true;
            } else {
                j = j + 1;
            }
        }
        let entry = KeyIndex { key: ps[i].palette_key.clone(), index: i };
        let ghost before = by_key@;
        if found {
            by_key.set(j, entry);
            proof {
                assert forall|j2: int| 0 <= j2 < by_key@.len() implies (#[trigger] by_key@[j2]).key@
                    == before[j2].key@ by {}
                assert forall|i2: int| 0 <= i2 <= i implies spec_has_palette_key(
                    by_key@,
                    (#[trigger] ps@[i2])@.palette_key,
                ) by {
                    if i2 < i {
                        assert(spec_has_palette_key(before, ps@[i2]@.palette_key));
                        let j2 = choose|j2: int|
                            0 <= j2 < before.len() && (#[trigger] before[j2]).key@
                                == ps@[i2]@.palette_key;
                        assert(by_key@[j2].key@ == ps@[i2]@.palette_key);
                    } else {
                        assert(by_key@[j as int].key@ == ps@[i as int]@.palette_key);
                    }
                }
            }
        } else {
            by_key.push(entry);
            proof {
                assert forall|i2: int| 0 <= i2 <= i implies spec_has_palette_key(
                    by_key@,
                    (#[trigger] ps@[i2])@.palette_key,
                ) by {
                    if i2 < i {
                        assert(spec_has_palette_key(before, ps@[i2]@.palette_key));
                        let j2 = choose|j2: int|
                            0 <= j2 < before.len() && (#[trigger] before[j2]).key@
                                == ps@[i2]@.palette_key;
                        assert(by_key@[j2].key@ == ps@[i2]@.palette_key);
                    } else {
                        assert(by_key@[by_key@.len() - 1].key@ == ps@[i as int]@.palette_key);
                    }
                }
            }
        }
        i = i + 1;
    }
    by_key
}

} // verus!
