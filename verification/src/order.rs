//! Lexicographic ordering of character sequences, the order in which part
//! names and palette keys are browsed, together with the comparison
//! function the catalog builder sorts with.

use vstd::prelude::*;

verus! {

/// Strict lexicographic order on character sequences by code point:
/// a proper prefix comes first, otherwise the first differing character
/// decides.
pub open spec fn lex_lt(a: Seq<char>, b: Seq<char>) -> bool
    decreases a.len(),
{
    if b.len() == 0 {
        false
    } else if a.len() == 0 {
        true
    } else if a[0] == b[0] {
        lex_lt(a.skip(1), b.skip(1))
    } else {
        (a[0] as u32) < (b[0] as u32)
    }
}

/// Of two character sequences, exactly one of `lex_lt(a, b)`, `a == b`,
/// `lex_lt(b, a)` holds.
pub proof fn lemma_lex_lt_trichotomy(a: Seq<char>, b: Seq<char>)
    ensures
        lex_lt(a, b) || a == b || lex_lt(b, a),
        lex_lt(a, b) ==> a != b && !lex_lt(b, a),
        a == b ==> !lex_lt(a, b) && !lex_lt(b, a),
    decreases a.len(),
{
    if a.len() == 0 && b.len() == 0 {
        assert(a =~= b);
    } else if a.len() > 0 && b.len() > 0 {
        if a[0] == b[0] {
            lemma_lex_lt_trichotomy(a.skip(1), b.skip(1));
            if a.skip(1) == b.skip(1) {
                assert forall|j: int| 0 <= j < a.len() implies a[j] == b[j] by {
                    if j > 0 {
                        assert(a.skip(1)[j - 1] == b.skip(1)[j - 1]);
                        assert(a.skip(1)[j - 1] == a[j]);
                        assert(b.skip(1)[j - 1] == b[j]);
                    }
                }
                assert(a =~= b);
            }
            if a == b {
                assert(a.skip(1) =~= b.skip(1));
            }
        } else {
            vstd::utf8::char_u32_cast(a[0], a[0] as u32);
            vstd::utf8::char_u32_cast(b[0], b[0] as u32);
            assert(a[0] as u32 != b[0] as u32);
            assert(a != b);
        }
    }
}

/// Lexicographic order is transitive.
pub proof fn lemma_lex_lt_transitive(a: Seq<char>, b: Seq<char>, c: Seq<char>)
    requires
        lex_lt(a, b),
        lex_lt(b, c),
    ensures
        lex_lt(a, c),
    decreases a.len(),
{
    if a.len() == 0 {
        // b is nonempty since lex_lt(a, b); c is nonempty since lex_lt(b, c).
    } else {
        if a[0] == b[0] {
            if b[0] == c[0] {
                lemma_lex_lt_transitive(a.skip(1), b.skip(1), c.skip(1));
            }
        } else {
            if b[0] == c[0] {
            } else {
                // both head comparisons strict
            }
        }
    }
}

/// Equal prefixes up to `i` reduce the order of the whole sequences to the
/// order of what stands at and after position `i`.
pub proof fn lemma_lex_lt_from_prefix(a: Seq<char>, b: Seq<char>, i: int)
    requires
        0 <= i <= a.len(),
        i <= b.len(),
        forall|j: int| 0 <= j < i ==> a[j] == b[j],
    ensures
        i == a.len() && i == b.len() ==> a == b,
        i == a.len() && i < b.len() ==> lex_lt(a, b) && a != b && !lex_lt(b, a),
        i < a.len() && i < b.len() && (a[i] as u32) < (b[i] as u32) ==> lex_lt(a, b) && a != b
            && !lex_lt(b, a),
    decreases i,
{
    if i == 0 {
        if a.len() == 0 && b.len() == 0 {
            assert(a =~= b);
        } else if a.len() == 0 && b.len() > 0 {
            lemma_lex_lt_trichotomy(a, b);
        } else if a.len() > 0 && b.len() > 0 && (a[0] as u32) < (b[0] as u32) {
            vstd::utf8::char_u32_cast(a[0], a[0] as u32);
            vstd::utf8::char_u32_cast(b[0], b[0] as u32);
            lemma_lex_lt_trichotomy(a, b);
        }
    } else {
        lemma_lex_lt_from_prefix(a.skip(1), b.skip(1), i - 1);
        if i == a.len() && i == b.len() {
            assert(a.skip(1) == b.skip(1));
            assert(a =~= b);
        } else if i == a.len() && i < b.len() {
            lemma_lex_lt_trichotomy(a, b);
        } else if i < a.len() && i < b.len() && (a[i] as u32) < (b[i] as u32) {
            assert(a.skip(1)[i - 1] == a[i]);
            assert(b.skip(1)[i - 1] == b[i]);
            lemma_lex_lt_trichotomy(a, b);
        }
    }
}

/// Three-way comparison of two strings in the order of `lex_lt`:
/// `-1` when `a` comes first, `0` when the views are equal, `1` when `b`
/// comes first.
pub fn str_cmp(a: &str, b: &str) -> (r: i8)
    ensures
        r == -1 || r == 0 || r == 1,
        (r == -1) <==> lex_lt(a@, b@),
        (r == 0) <==> a@ == b@,
        (r == 1) <==> lex_lt(b@, a@),
{
    let a_len = a.unicode_len();
    let b_len = b.unicode_len();
    let n = if a_len < b_len {
        a_len
    } else {
        b_len
    };
    let mut i: usize = 0;
    while i < n
        invariant
            0 <= i <= n,
            n <= a@.len(),
            n <= b@.len(),
            a_len == a@.len(),
            b_len == b@.len(),
            n == if a_len < b_len {
                a_len as int
            } else {
                b_len as int
            },
            forall|j: int| 0 <= j < i ==> a@[j] == b@[j],
        decreases n - i,
    {
        let ca = a.get_char(i);
        let cb = b.get_char(i);
        let ua = ca as u32;
        let ub = cb as u32;
        if ua < ub {
            proof {
                lemma_lex_lt_from_prefix(a@, b@, i as int);
            }
            return -1;
        }
        if ub < ua {
            proof {
                lemma_lex_lt_from_prefix(b@, a@, i as int);
            }
            return 1;
        }
        proof {
            vstd::utf8::char_u32_cast(ca, ca as u32);
            vstd::utf8::char_u32_cast(cb, cb as u32);
        }
        i = i + 1;
    }
    if a_len < b_len {
        proof {
            lemma_lex_lt_from_prefix(a@, b@, a_len as int);
        }
        -1
    } else if b_len < a_len {
        proof {
            lemma_lex_lt_from_prefix(b@, a@, b_len as int);
        }
        1
    } else {
        proof {
            lemma_lex_lt_from_prefix(a@, b@, a_len as int);
            lemma_lex_lt_trichotomy(a@, b@);
        }
        0
    }
}

} // verus!
