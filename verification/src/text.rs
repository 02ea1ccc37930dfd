//! String helpers shared across the gateway core: ASCII-case-insensitive
//! comparison (for header names) and lexicographic ordering by code point
//! (for deterministic, name-sorted merge output).

use vstd::prelude::*;

verus! {

/// Code point of `c`, with ASCII upper-case letters folded to lower case.
pub open spec fn lower_code(c: char) -> u32 {
    if 65 <= c as u32 && c as u32 <= 90 {
        (c as u32 + 32) as u32
    } else {
        c as u32
    }
}

/// Equality of two character sequences up to ASCII case.
pub open spec fn eq_ignore_ascii_case(a: Seq<char>, b: Seq<char>) -> bool {
    a.len() == b.len() && (forall|i: int| 0 <= i < a.len() ==> lower_code(a[i]) == lower_code(b[i]))
}

/// View of an optional string as an optional character sequence.
pub open spec fn opt_text(o: Option<String>) -> Option<Seq<char>> {
    match o {
        Some(s) => Some(s@),
        None => None,
    }
}

/// Strict lexicographic order on character sequences by code point.
/// On UTF-8 strings this coincides with the byte-wise order `String`
/// values sort by, so name-sorted output is well defined.
pub open spec fn lex_lt(a: Seq<char>, b: Seq<char>) -> bool
    decreases a.len(),
{
    if b.len() == 0 {
        false
    } else if a.len() == 0 {
        true
    } else if (a[0] as u32) < (b[0] as u32) {
        true
    } else if (a[0] as u32) > (b[0] as u32) {
        false
    } else {
        lex_lt(a.subrange(1, a.len() as int), b.subrange(1, b.len() as int))
    }
}

/// Characters with equal code points are equal.
proof fn lemma_char_code_injective(x: char, y: char)
    requires
        x as u32 == y as u32,
    ensures
        x == y,
{
}

/// Dropping a common prefix does not change how two sequences compare.
proof fn lemma_lex_lt_common_prefix(a: Seq<char>, b: Seq<char>, i: int)
    requires
        0 <= i <= a.len(),
        i <= b.len(),
        forall|j: int| 0 <= j < i ==> a[j] == b[j],
    ensures
        lex_lt(a, b) == lex_lt(a.subrange(i, a.len() as int), b.subrange(i, b.len() as int)),
    decreases i,
{
    if i == 0 {
        assert(a.subrange(0, a.len() as int) =~= a);
        assert(b.subrange(0, b.len() as int) =~= b);
    } else {
        let a1 = a.subrange(1, a.len() as int);
        let b1 = b.subrange(1, b.len() as int);
        assert(a[0] == b[0]);
        assert(forall|j: int| 0 <= j < i - 1 ==> a1[j] == b1[j]);
        lemma_lex_lt_common_prefix(a1, b1, i - 1);
        assert(a1.subrange(i - 1, a1.len() as int) =~= a.subrange(i, a.len() as int));
        assert(b1.subrange(i - 1, b1.len() as int) =~= b.subrange(i, b.len() as int));
    }
}

/// `lex_lt` is a strict order: at most one direction holds.
pub proof fn lemma_lex_lt_asymmetric(a: Seq<char>, b: Seq<char>)
    requires
        lex_lt(a, b),
    ensures
        !lex_lt(b, a),
    decreases a.len(),
{
    if b.len() == 0 {
        assert(false);
    } else if a.len() == 0 {
    } else if (a[0] as u32) < (b[0] as u32) {
    } else if (a[0] as u32) > (b[0] as u32) {
        assert(false);
    } else {
        lemma_lex_lt_asymmetric(
            a.subrange(1, a.len() as int),
            b.subrange(1, b.len() as int),
        );
    }
}

/// Two sequences neither of which precedes the other are equal.
pub proof fn lemma_lex_lt_connected(a: Seq<char>, b: Seq<char>)
    requires
        !lex_lt(a, b),
        !lex_lt(b, a),
    ensures
        a == b,
    decreases a.len(),
{
    if b.len() == 0 {
        if a.len() > 0 {
            assert(lex_lt(b, a));
        }
        assert(a =~= b);
    } else if a.len() == 0 {
        assert(lex_lt(a, b));
    } else {
        if (a[0] as u32) < (b[0] as u32) {
            assert(lex_lt(a, b));
        }
        if (a[0] as u32) > (b[0] as u32) {
            assert(lex_lt(b, a));
        }
        assert(a[0] as u32 == b[0] as u32);
        lemma_char_code_injective(a[0], b[0]);
        let a1 = a.subrange(1, a.len() as int);
        let b1 = b.subrange(1, b.len() as int);
        lemma_lex_lt_connected(a1, b1);
        assert(a =~= b) by {
            assert(forall|j: int| 1 <= j < a.len() ==> a[j] == a1[j - 1] && b[j] == b1[j - 1]);
        }
    }
}

/// `lex_lt` is transitive.
pub proof fn lemma_lex_lt_transitive(a: Seq<char>, b: Seq<char>, c: Seq<char>)
    requires
        lex_lt(a, b),
        lex_lt(b, c),
    ensures
        lex_lt(a, c),
    decreases a.len(),
{
    if c.len() == 0 {
        assert(false);
    } else if b.len() == 0 {
        assert(false);
    } else if a.len() == 0 {
    } else {
        if (a[0] as u32) < (b[0] as u32) {
            if (b[0] as u32) <= (c[0] as u32) {
            } else {
                assert(false);
            }
        } else if (a[0] as u32) > (b[0] as u32) {
            assert(false);
        } else {
            if (b[0] as u32) < (c[0] as u32) {
                assert((a[0] as u32) < (c[0] as u32));
            } else if (b[0] as u32) > (c[0] as u32) {
                assert(false);
            } else {
                lemma_lex_lt_transitive(
                    a.subrange(1, a.len() as int),
                    b.subrange(1, b.len() as int),
                    c.subrange(1, c.len() as int),
                );
            }
        }
    }
}

/// Character-wise equality test for string slices.
pub fn str_eq(a: &str, b: &str) -> (r: bool)
    ensures
        r == (a@ == b@),
{
    let alen = a.unicode_len();
    let blen = b.unicode_len();
    if alen != blen {
        return false;
    }
    let mut i: usize = 0;
    while i < alen
        invariant
            i <= alen,
            alen == a@.len(),
            blen == b@.len(),
            alen == blen,
            forall|j: int| 0 <= j < i ==> a@[j] == b@[j],
        decreases alen - i,
    {
        let ca = a.get_char(i);
        let cb = b.get_char(i);
        if ca != cb {
            assert(a@[i as int] != b@[i as int]);
            return false;
        }
        i = i + 1;
    }
    assert(a@ =~= b@);
    true
}

/// ASCII-case-insensitive equality test for string slices.
pub fn str_eq_ignore_ascii_case(a: &str, b: &str) -> (r: bool)
    ensures
        r == eq_ignore_ascii_case(a@, b@),
{
    let alen = a.unicode_len();
    let blen = b.unicode_len();
    if alen != blen {
        return false;
    }
    let mut i: usize = 0;
    while i < alen
        invariant
            i <= alen,
            alen == a@.len(),
            blen == b@.len(),
            alen == blen,
            forall|j: int| 0 <= j < i ==> lower_code(a@[j]) == lower_code(b@[j]),
        decreases alen - i,
    {
        let ca = a.get_char(i);
        let cb = b.get_char(i);
        let ua = ca as u32;
        let ub = cb as u32;
        let la = if 65 <= ua && ua <= 90 { ua + 32 } else { ua };
        let lb = if 65 <= ub && ub <= 90 { ub + 32 } else { ub };
        if la != lb {
            assert(lower_code(a@[i as int]) != lower_code(b@[i as int]));
            return false;
        }
        assert(lower_code(a@[i as int]) == lower_code(b@[i as int]));
        i = i + 1;
    }
    true
}

/// Strict lexicographic comparison of string slices by code point.
pub fn str_lt(a: &str, b: &str) -> (r: bool)
    ensures
        r == lex_lt(a@, b@),
{
    let alen = a.unicode_len();
    let blen = b.unicode_len();
    let mut i: usize = 0;
    while i < alen && i < blen
        invariant
            i <= alen,
            i <= blen,
            alen == a@.len(),
            blen == b@.len(),
            forall|j: int| 0 <= j < i ==> a@[j] == b@[j],
        decreases alen - i,
    {
        let ca = a.get_char(i);
        let cb = b.get_char(i);
        let ua = ca as u32;
        let ub = cb as u32;
        if ua < ub {
            proof {
                lemma_lex_lt_common_prefix(a@, b@, i as int);
                assert(a@.subrange(i as int, a@.len() as int)[0] == a@[i as int]);
                assert(b@.subrange(i as int, b@.len() as int)[0] == b@[i as int]);
            }
            return true;
        }
        if ua > ub {
            proof {
                lemma_lex_lt_common_prefix(a@, b@, i as int);
                assert(a@.subrange(i as int, a@.len() as int)[0] == a@[i as int]);
                assert(b@.subrange(i as int, b@.len() as int)[0] == b@[i as int]);
            }
            return false;
        }
        assert(a@[i as int] == b@[i as int]);
        i = i + 1;
    }
    proof {
        lemma_lex_lt_common_prefix(a@, b@, i as int);
    }
    alen < blen
}

} // verus!
