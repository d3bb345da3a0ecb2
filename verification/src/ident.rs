//! Part identity parsing: decoding the structured identity of a part out
//! of its file name, `fbas_<layercode>_<name..>_<vv>[<p>][_e].png`.

use vstd::prelude::*;

use crate::layers::{BaseType, LayerCode, Special};

verus! {

/// Everything a part file name encodes.
///
/// Invariant of well-formed identities: a palette suffix is only present
/// when the version is zero.
#[derive(Debug, Clone)]
pub struct PartId {
    pub base: BaseType,
    pub layer: LayerCode,
    pub name: String,
    pub version: u8,
    pub palette: Option<char>,
    pub special: Option<Special>,
}

/// Mathematical image of a [`PartId`]: the same fields with the name as a
/// character sequence.
pub struct PartIdView {
    pub base: BaseType,
    pub layer: LayerCode,
    pub name: Seq<char>,
    pub version: u8,
    pub palette: Option<char>,
    pub special: Option<Special>,
}

impl View for PartId {
    type V = PartIdView;

    open spec fn view(&self) -> PartIdView {
        PartIdView {
            base: self.base,
            layer: self.layer,
            name: self.name@,
            version: self.version,
            palette: self.palette,
            special: self.special,
        }
    }
}

/// Why a candidate file name was rejected. Each rejection of the grammar
/// has its own variant; the catalog builder collects these per file
/// instead of aborting a scan.
#[derive(Debug, Clone, Copy, PartialEq, Eq, Structural)]
pub enum ParseError {
    MissingExtension,
    NotPng,
    TooFewSegments,
    BadBasePrefix,
    UnknownLayerCode,
    MissingNameVersion,
    EmptyName,
    BadVersionDigits,
    VersionTokenTooLong,
    InvalidPaletteSuffix,
    PaletteOnNonZeroVersion,
}

/// The human-readable description of a rejection.
pub open spec fn spec_parse_error_message(e: ParseError) -> Seq<char> {
    match e {
        ParseError::MissingExtension => "Missing extension"@,
        ParseError::NotPng => "Not a png file"@,
        ParseError::TooFewSegments => "Expected at least 4 filename segments"@,
        ParseError::BadBasePrefix => "Base prefix must be fbas"@,
        ParseError::UnknownLayerCode => "Unknown layer code"@,
        ParseError::MissingNameVersion => "Missing name/version segments"@,
        ParseError::EmptyName => "Part name is empty"@,
        ParseError::BadVersionDigits => "Version token must start with two digits"@,
        ParseError::VersionTokenTooLong => "Version token must be 2 digits, optional palette suffix"@,
        ParseError::InvalidPaletteSuffix => "Invalid palette suffix"@,
        ParseError::PaletteOnNonZeroVersion => "Palette suffix is only valid on version 00"@,
    }
}

impl ParseError {
    /// The human-readable description of this rejection.
    pub fn message(self) -> (r: &'static str)
        ensures
            r@ == spec_parse_error_message(self),
    {
        match self {
            ParseError::MissingExtension => "Missing extension",
            ParseError::NotPng => "Not a png file",
            ParseError::TooFewSegments => "Expected at least 4 filename segments",
            ParseError::BadBasePrefix => "Base prefix must be fbas",
            ParseError::UnknownLayerCode => "Unknown layer code",
            ParseError::MissingNameVersion => "Missing name/version segments",
            ParseError::EmptyName => "Part name is empty",
            ParseError::BadVersionDigits => "Version token must start with two digits",
            ParseError::VersionTokenTooLong => "Version token must be 2 digits, optional palette suffix",
            ParseError::InvalidPaletteSuffix => "Invalid palette suffix",
            ParseError::PaletteOnNonZeroVersion => "Palette suffix is only valid on version 00",
        }
    }
}

/// ASCII decimal digit.
pub open spec fn spec_is_digit(c: char) -> bool {
    48 <= (c as u32) && (c as u32) <= 57
}

/// Numeric value of an ASCII decimal digit.
pub open spec fn spec_digit_value(c: char) -> int {
    (c as u32) - 48
}

/// ASCII lowercasing of a single character; everything but `A`..`Z` is
/// left as it is.
pub open spec fn spec_lower_char(c: char) -> char {
    if 65 <= (c as u32) && (c as u32) <= 90 {
        (((c as u32) + 32) as u8) as char
    } else {
        c
    }
}

pub fn lower_char(c: char) -> (r: char)
    ensures
        r == spec_lower_char(c),
{
    let u = c as u32;
    if 65 <= u && u <= 90 {
        ((u + 32) as u8) as char
    } else {
        c
    }
}

/// The five palette suffix letters of the asset scheme.
pub open spec fn spec_is_palette_letter(c: char) -> bool {
    c == 'a' || c == 'b' || c == 'c' || c == 'd' || c == 'f'
}

pub fn is_palette_letter(c: char) -> (r: bool)
    ensures
        r == spec_is_palette_letter(c),
{
    c == 'a' || c == 'b' || c == 'c' || c == 'd' || c == 'f'
}

/// Splitting `s` on `sep`, read from position `i` on, with `start` the
/// beginning of the segment `i` stands in. `spec_split(s, sep)` is the
/// whole split.
pub open spec fn spec_split_from(s: Seq<char>, sep: char, i: int, start: int) -> Seq<Seq<char>>
    decreases s.len() - i,
{
    if i < start || start < 0 || i >= s.len() {
        seq![s.subrange(if 0 <= start <= s.len() { start } else { 0 }, s.len() as int)]
    } else if s[i] == sep {
        seq![s.subrange(start, i)] + spec_split_from(s, sep, i + 1, i + 1)
    } else {
        spec_split_from(s, sep, i + 1, start)
    }
}

/// The segments of `s` between occurrences of `sep`. Always at least one
/// segment; separators at the edges or doubled yield empty segments.
pub open spec fn spec_split(s: Seq<char>, sep: char) -> Seq<Seq<char>> {
    spec_split_from(s, sep, 0, 0)
}

/// The join of `parts[i..hi]` with `sep` between consecutive segments.
pub open spec fn spec_join_range(parts: Seq<Seq<char>>, sep: char, i: int, hi: int) -> Seq<char>
    decreases hi - i,
{
    if i >= hi || hi > parts.len() || i < 0 {
        Seq::empty()
    } else if i == hi - 1 {
        parts[i]
    } else {
        parts[i] + seq![sep] + spec_join_range(parts, sep, i + 1, hi)
    }
}

/// Peeling the last segment off a join.
proof fn lemma_join_range_snoc(parts: Seq<Seq<char>>, sep: char, i: int, hi: int)
    requires
        0 <= i < hi,
        hi <= parts.len(),
    ensures
        hi - 1 == i ==> spec_join_range(parts, sep, i, hi) == parts[i],
        hi - 1 > i ==> spec_join_range(parts, sep, i, hi) == spec_join_range(parts, sep, i, hi - 1)
            + seq![sep] + parts[hi - 1],
    decreases hi - i,
{
    if i < hi - 1 {
        lemma_join_range_snoc(parts, sep, i + 1, hi);
        if hi - 1 > i + 1 {
            assert(spec_join_range(parts, sep, i, hi) == parts[i] + seq![sep] + (spec_join_range(
                parts,
                sep,
                i + 1,
                hi - 1,
            ) + seq![sep] + parts[hi - 1]));
            assert(parts[i] + seq![sep] + (spec_join_range(parts, sep, i + 1, hi - 1) + seq![sep]
                + parts[hi - 1]) =~= (parts[i] + seq![sep] + spec_join_range(parts, sep, i + 1, hi - 1))
                + seq![sep] + parts[hi - 1]);
        }
    }
}

/// The index of the last `.` in `s`, or `-1` when none occurs.
pub open spec fn spec_last_dot(s: Seq<char>) -> int
    decreases s.len(),
{
    if s.len() == 0 {
        -1
    } else if s[s.len() - 1] == '.' {
        s.len() - 1
    } else {
        spec_last_dot(s.drop_last())
    }
}

proof fn lemma_last_dot_bounds(s: Seq<char>)
    ensures
        -1 <= spec_last_dot(s) < s.len(),
        spec_last_dot(s) >= 0 ==> s[spec_last_dot(s)] == '.',
        forall|j: int| spec_last_dot(s) < j < s.len() ==> s[j] != '.',
    decreases s.len(),
{
    if s.len() > 0 && s[s.len() - 1] != '.' {
        lemma_last_dot_bounds(s.drop_last());
        assert forall|j: int| spec_last_dot(s) < j < s.len() implies s[j] != '.' by {
            if j < s.len() - 1 {
                assert(s.drop_last()[j] != '.');
                assert(s.drop_last()[j] == s[j]);
            }
        }
    }
}

/// The views of a sequence of character vectors.
pub open spec fn views_of(segs: Seq<Vec<char>>) -> Seq<Seq<char>> {
    Seq::new(segs.len(), |i: int| segs[i]@)
}

/// The extension the grammar accepts: `png` in any letter case.
pub open spec fn spec_ext_is_png(ext: Seq<char>) -> bool {
    &&& ext.len() == 3
    &&& spec_lower_char(ext[0]) == 'p'
    &&& spec_lower_char(ext[1]) == 'n'
    &&& spec_lower_char(ext[2]) == 'g'
}

/// Reverse lookup of a layer from its code string.
pub open spec fn spec_layer_from_code(s: Seq<char>) -> Option<LayerCode> {
    if s == "00undr"@ {
        Some(LayerCode::Undr00)
    } else if s == "01body"@ {
        Some(LayerCode::Body01)
    } else if s == "02sock"@ {
        Some(LayerCode::Sock02)
    } else if s == "03fot1"@ {
        Some(LayerCode::Fot103)
    } else if s == "04lwr1"@ {
        Some(LayerCode::Lwr104)
    } else if s == "05shrt"@ {
        Some(LayerCode::Shrt05)
    } else if s == "06lwr2"@ {
        Some(LayerCode::Lwr206)
    } else if s == "07fot2"@ {
        Some(LayerCode::Fot207)
    } else if s == "08lwr3"@ {
        Some(LayerCode::Lwr308)
    } else if s == "09hand"@ {
        Some(LayerCode::Hand09)
    } else if s == "10outr"@ {
        Some(LayerCode::Outr10)
    } else if s == "11neck"@ {
        Some(LayerCode::Neck11)
    } else if s == "12face"@ {
        Some(LayerCode::Face12)
    } else if s == "13hair"@ {
        Some(LayerCode::Hair13)
    } else if s == "14head"@ {
        Some(LayerCode::Head14)
    } else if s == "15over"@ {
        Some(LayerCode::Over15)
    } else {
        None
    }
}

/// What parsing a file name yields, decided wholly by the character
/// sequence: the identity of a well-formed name, or the first rejection
/// the grammar meets.
pub open spec fn spec_parse_part_filename(s: Seq<char>) -> Result<PartIdView, ParseError> {
    let dot = spec_last_dot(s);
    if dot <= 0 {
        Err(ParseError::MissingExtension)
    } else if !spec_ext_is_png(s.subrange(dot + 1, s.len() as int)) {
        Err(ParseError::NotPng)
    } else {
        let stem = s.subrange(0, dot);
        let segs = spec_split(stem, '_');
        if segs.len() < 4 {
            Err(ParseError::TooFewSegments)
        } else if segs[0] != "fbas"@ {
            Err(ParseError::BadBasePrefix)
        } else if spec_layer_from_code(segs[1]) is None {
            Err(ParseError::UnknownLayerCode)
        } else {
            let layer = spec_layer_from_code(segs[1])->Some_0;
            let end = if segs.last() == "e"@ {
                segs.len() - 1
            } else {
                segs.len() as int
            };
            let special = if segs.last() == "e"@ {
                Some(Special::E)
            } else {
                None
            };
            if end < 4 {
                Err(ParseError::MissingNameVersion)
            } else {
                let vp = segs[end - 1];
                let name = spec_join_range(segs, '_', 2, end - 1);
                if name.len() == 0 {
                    Err(ParseError::EmptyName)
                } else if vp.len() < 2 || !spec_is_digit(vp[0]) || !spec_is_digit(vp[1]) {
                    Err(ParseError::BadVersionDigits)
                } else if vp.len() > 3 {
                    Err(ParseError::VersionTokenTooLong)
                } else {
                    let version = 10 * spec_digit_value(vp[0]) + spec_digit_value(vp[1]);
                    if vp.len() == 3 {
                        let p = spec_lower_char(vp[2]);
                        if !spec_is_palette_letter(p) {
                            Err(ParseError::InvalidPaletteSuffix)
                        } else if version != 0 {
                            Err(ParseError::PaletteOnNonZeroVersion)
                        } else {
                            Ok(PartIdView {
                                base: BaseType::Fbas,
                                layer: layer,
                                name: name,
                                version: version as u8,
                                palette: Some(p),
                                special: special,
                            })
                        }
                    } else {
                        Ok(PartIdView {
                            base: BaseType::Fbas,
                            layer: layer,
                            name: name,
                            version: version as u8,
                            palette: None,
                            special: special,
                        })
                    }
                }
            }
        }
    }
}

/// The characters of a string, in order.
pub fn str_to_chars(s: &str) -> (r: Vec<char>)
    ensures
        r@ == s@,
{
    let n = s.unicode_len();
    let mut r: Vec<char> = Vec::new();
    let mut i: usize = 0;
    while i < n
        invariant
            0 <= i <= n,
            n == s@.len(),
            r@ == s@.subrange(0, i as int),
        decreases n - i,
    {
        let c = s.get_char(i);
        r.push(c);
        proof {
            assert(r@ =~= s@.subrange(0, i + 1));
        }
        i = i + 1;
    }
    proof {
        assert(r@ =~= s@);
    }
    r
}

/// Relies on `core::iter::Iterator::collect` for `String`: the collected
/// string holds exactly the iterated characters, in order.
#[verifier::external_body]
pub fn string_from_chars(v: &Vec<char>) -> (r: String)
    ensures
        r@ == v@,
{
    v.iter().collect()
}

/// Whether a character vector spells the same sequence as a string.
pub fn chars_eq_str(v: &[char], s: &str) -> (r: bool)
    ensures
        r == (v@ == s@),
{
    let n = s.unicode_len();
    if v.len() != n {
        proof {
            assert(v@.len() != s@.len());
        }
        return false;
    }
    let mut i: usize = 0;
    while i < n
        invariant
            0 <= i <= n,
            n == s@.len(),
            n == v@.len(),
            forall|j: int| 0 <= j < i ==> v@[j] == s@[j],
        decreases n - i,
    {
        if v[i] != s.get_char(i) {
            return false;
        }
        i = i + 1;
    }
    proof {
        assert(v@ =~= s@);
    }
    true
}

/// Reverse lookup of a layer from a code segment.
pub fn layer_from_code_chars(v: &[char]) -> (r: Option<LayerCode>)
    ensures
        r == spec_layer_from_code(v@),
{
    if chars_eq_str(v, "00undr") {
        Some(LayerCode::Undr00)
    } else if chars_eq_str(v, "01body") {
        Some(LayerCode::Body01)
    } else if chars_eq_str(v, "02sock") {
        Some(LayerCode::Sock02)
    } else if chars_eq_str(v, "03fot1") {
        Some(LayerCode::Fot103)
    } else if chars_eq_str(v, "04lwr1") {
        Some(LayerCode::Lwr104)
    } else if chars_eq_str(v, "05shrt") {
        Some(LayerCode::Shrt05)
    } else if chars_eq_str(v, "06lwr2") {
        Some(LayerCode::Lwr206)
    } else if chars_eq_str(v, "07fot2") {
        Some(LayerCode::Fot207)
    } else if chars_eq_str(v, "08lwr3") {
        Some(LayerCode::Lwr308)
    } else if chars_eq_str(v, "09hand") {
        Some(LayerCode::Hand09)
    } else if chars_eq_str(v, "10outr") {
        Some(LayerCode::Outr10)
    } else if chars_eq_str(v, "11neck") {
        Some(LayerCode::Neck11)
    } else if chars_eq_str(v, "12face") {
        Some(LayerCode::Face12)
    } else if chars_eq_str(v, "13hair") {
        Some(LayerCode::Hair13)
    } else if chars_eq_str(v, "14head") {
        Some(LayerCode::Head14)
    } else if chars_eq_str(v, "15over") {
        Some(LayerCode::Over15)
    } else {
        None
    }
}

impl LayerCode {
    /// Reverse lookup of a layer from its code string.
    pub fn from_code(raw: &str) -> (r: Option<LayerCode>)
        ensures
            r == spec_layer_from_code(raw@),
    {
        let chars = str_to_chars(raw);
        layer_from_code_chars(chars.as_slice())
    }
}

/// The index just past the last `.` of `v`, or `None` when `v` holds no
/// `.` at all.
fn find_last_dot(v: &Vec<char>) -> (r: Option<usize>)
    ensures
        match r {
            Some(i) => i == spec_last_dot(v@),
            None => spec_last_dot(v@) == -1,
        },
{
    let mut i: usize = v.len();
    while i > 0
        invariant
            0 <= i <= v@.len(),
            forall|j: int| i <= j < v@.len() ==> v@[j] != '.',
        decreases i,
    {
        i = i - 1;
        if v[i] == '.' {
            proof {
                lemma_last_dot_bounds(v@);
                assert(spec_last_dot(v@) >= 0 ==> v@[spec_last_dot(v@)] == '.');
                if spec_last_dot(v@) > i {
                    assert(v@[spec_last_dot(v@)] != '.');
                }
                if spec_last_dot(v@) < i {
                    assert(v@[i as int] != '.');
                }
            }
            return Some(i);
        }
    }
    proof {
        lemma_last_dot_bounds(v@);
        if spec_last_dot(v@) >= 0 {
            assert(v@[spec_last_dot(v@)] != '.');
        }
    }
    None
}

/// Splitting a character vector on a separator.
fn split_chars(s: &Vec<char>, sep: char) -> (r: Vec<Vec<char>>)
    ensures
        views_of(r@) == spec_split(s@, sep),
        r.len() >= 1,
{
    let mut segs: Vec<Vec<char>> = Vec::new();
    let mut cur: Vec<char> = Vec::new();
    let ghost mut start: int = 0;
    let mut i: usize = 0;
    while i < s.len()
        invariant
            0 <= start <= i <= s@.len(),
            cur@ == s@.subrange(start, i as int),
            spec_split(s@, sep) == views_of(segs@) + spec_split_from(s@, sep, i as int, start),
        decreases s@.len() - i,
    {
        let c = s[i];
        if c == sep {
            proof {
                assert(spec_split_from(s@, sep, i as int, start) == seq![s@.subrange(start, i as int)]
                    + spec_split_from(s@, sep, i + 1, i + 1));
            }
            let ghost segs_before = segs@;
            segs.push(cur);
            cur = Vec::new();
            proof {
                assert(views_of(segs@) =~= views_of(segs_before).push(s@.subrange(start, i as int)));
                assert(spec_split(s@, sep) =~= views_of(segs@) + spec_split_from(s@, sep, i + 1, i + 1));
                start = i + 1;
                assert(cur@ =~= s@.subrange(start, i + 1));
            }
        } else {
            cur.push(c);
            proof {
                assert(spec_split_from(s@, sep, i as int, start) == spec_split_from(s@, sep, i + 1, start));
                assert(cur@ =~= s@.subrange(start, i + 1));
            }
        }
        i = i + 1;
    }
    proof {
        assert(spec_split_from(s@, sep, i as int, start) == seq![s@.subrange(start, s@.len() as int)]);
        assert(cur@ =~= s@.subrange(start, s@.len() as int));
    }
    let ghost segs_before = segs@;
    segs.push(cur);
    proof {
        assert(views_of(segs@) =~= views_of(segs_before).push(s@.subrange(start, s@.len() as int)));
        assert(views_of(segs@) =~= spec_split(s@, sep));
    }
    segs
}

/// The join of `segs[lo..hi]` with `sep` between consecutive segments.
fn join_range(segs: &Vec<Vec<char>>, sep: char, lo: usize, hi: usize) -> (r: Vec<char>)
    requires
        lo <= hi <= segs@.len(),
    ensures
        r@ == spec_join_range(views_of(segs@), sep, lo as int, hi as int),
{
    let mut out: Vec<char> = Vec::new();
    let mut j: usize = lo;
    while j < hi
        invariant
            lo <= j <= hi <= segs@.len(),
            j == lo ==> out@ == Seq::<char>::empty(),
            j > lo ==> out@ == spec_join_range(views_of(segs@), sep, lo as int, j as int),
        decreases hi - j,
    {
        if j > lo {
            out.push(sep);
        }
        let mut k: usize = 0;
        let ghost out_before: Seq<char> = out@;
        while k < segs[j].len()
            invariant
                0 <= k <= segs@[j as int]@.len(),
                j < segs@.len(),
                out@ == out_before + segs@[j as int]@.subrange(0, k as int),
            decreases segs@[j as int]@.len() - k,
        {
            let c = segs[j][k];
            out.push(c);
            proof {
                assert(out@ =~= out_before + segs@[j as int]@.subrange(0, k + 1));
            }
            k = k + 1;
        }
        proof {
            assert(segs@[j as int]@.subrange(0, segs@[j as int]@.len() as int) =~= views_of(segs@)[j as int]);
            lemma_join_range_snoc(views_of(segs@), sep, lo as int, j + 1);
            if j == lo {
                assert(out@ =~= spec_join_range(views_of(segs@), sep, lo as int, j + 1));
            } else {
                assert(out@ =~= spec_join_range(views_of(segs@), sep, lo as int, j as int) + seq![sep]
                    + views_of(segs@)[j as int]);
            }
        }
        j = j + 1;
    }
    out
}

/// Parse one file name (not a path) into a part identity, or say exactly
/// why the grammar rejects it. Never panics; the result is decided by
/// [`spec_parse_part_filename`] on the characters of the name.
pub fn parse_part_filename(file_name: &str) -> (r: Result<PartId, ParseError>)
    ensures
        r is Ok <==> spec_parse_part_filename(file_name@) is Ok,
        r is Ok ==> r->Ok_0@ == spec_parse_part_filename(file_name@)->Ok_0,
        r is Err ==> r->Err_0 == spec_parse_part_filename(file_name@)->Err_0,
{
    let chars = str_to_chars(file_name);
    let dot = match find_last_dot(&chars) {
        Some(d) => d,
        None => {
            return Err(ParseError::MissingExtension);
        },
    };
    if dot == 0 {
        return Err(ParseError::MissingExtension);
    }
    proof {
        lemma_last_dot_bounds(chars@);
    }
    let ext_ok = {
        let len = chars.len();
        len - dot == 4 && lower_char(chars[dot + 1]) == 'p' && lower_char(chars[dot + 2]) == 'n'
            && lower_char(chars[dot + 3]) == 'g'
    };
    proof {
        let ext = chars@.subrange(dot + 1, chars@.len() as int);
        assert(ext.len() == chars@.len() - dot - 1);
        if chars@.len() - dot == 4 {
            assert(ext[0] == chars@[dot + 1]);
            assert(ext[1] == chars@[dot + 2]);
            assert(ext[2] == chars@[dot + 3]);
        }
        assert(ext_ok == spec_ext_is_png(ext));
    }
    if !ext_ok {
        return Err(ParseError::NotPng);
    }
    let mut stem = chars;
    stem.truncate(dot);
    proof {
        assert(stem@ =~= chars@.subrange(0, dot as int));
    }
    let segs = split_chars(&stem, '_');
    if segs.len() < 4 {
        return Err(ParseError::TooFewSegments);
    }
    if !chars_eq_str(segs[0].as_slice(), "fbas") {
        return Err(ParseError::BadBasePrefix);
    }
    let layer = match layer_from_code_chars(segs[1].as_slice()) {
        Some(layer) => layer,
        None => {
            return Err(ParseError::UnknownLayerCode);
        },
    };
    let has_special = chars_eq_str(segs[segs.len() - 1].as_slice(), "e");
    proof {
        assert(views_of(segs@).last() == views_of(segs@)[segs@.len() - 1]);
    }
    let special = if has_special {
        Some(Special::E)
    } else {
        None
    };
    let end = if has_special {
        segs.len() - 1
    } else {
        segs.len()
    };
    if end < 4 {
        return Err(ParseError::MissingNameVersion);
    }
    let name_chars = join_range(&segs, '_', 2, end - 1);
    if name_chars.len() == 0 {
        return Err(ParseError::EmptyName);
    }
    let vp = &segs[end - 1];
    if vp.len() < 2 {
        return Err(ParseError::BadVersionDigits);
    }
    let d0 = vp[0] as u32;
    let d1 = vp[1] as u32;
    if !(48 <= d0 && d0 <= 57 && 48 <= d1 && d1 <= 57) {
        return Err(ParseError::BadVersionDigits);
    }
    if vp.len() > 3 {
        return Err(ParseError::VersionTokenTooLong);
    }
    let version: u8 = (10 * (d0 - 48) + (d1 - 48)) as u8;
    let palette = if vp.len() == 3 {
        let p = lower_char(vp[2]);
        if !is_palette_letter(p) {
            return Err(ParseError::InvalidPaletteSuffix);
        }
        if version != 0 {
            return Err(ParseError::PaletteOnNonZeroVersion);
        }
        Some(p)
    } else {
        None
    };
    let name = string_from_chars(&name_chars);
    Ok(PartId { base: BaseType::Fbas, layer, name, version, palette, special })
}

} // verus!
