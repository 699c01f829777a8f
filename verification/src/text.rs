//! Character-level text helpers: case folding, substring search and
//! lexicographic comparison, the primitives of the search/ranking engine.

use vstd::prelude::*;

verus! {

/// What `str::to_lowercase` returns for a given sequence of characters.
/// The folding rules take pages to state, but the result depends on the
/// characters alone, so it only gets a name here.
pub uninterp spec fn lower_of(s: Seq<char>) -> Seq<char>;

/// Relies on str::to_lowercase: the result depends on the characters alone,
/// and an empty string stays empty.
#[verifier::external_body]
pub(crate) fn to_lowercase(s: &str) -> (r: String)
    ensures
        r@ == lower_of(s@),
        s@.len() == 0 ==> r@.len() == 0,
{
    s.to_lowercase()
}

/// Relies on String::from_iter over chars: collecting characters into a
/// string keeps them unchanged and in order.
#[verifier::external_body]
pub(crate) fn chars_to_string(v: &Vec<char>) -> (r: String)
    ensures
        r@ == v@,
{
    v.iter().collect()
}

/// The characters of `s`, as a vector.
pub fn str_chars(s: &str) -> (r: Vec<char>)
    ensures
        r@ == s@,
{
    let n = s.unicode_len();
    let mut r: Vec<char> = Vec::new();
    let mut i: usize = 0;
    while i < n
        invariant
            i <= n,
            n == s@.len(),
            r@ == s@.subrange(0, i as int),
        decreases n - i,
    {
        r.push(s.get_char(i));
        i = i + 1;
        proof {
            assert(r@ =~= s@.subrange(0, i as int));
        }
    }
    proof {
        assert(r@ =~= s@);
    }
    r
}

/// Whether the characters of `b` equal those of `a`.
pub fn str_eq(a: &str, b: &str) -> (r: bool)
    ensures
        r == (a@ == b@),
{
    let na = a.unicode_len();
    let nb = b.unicode_len();
    if na != nb {
        return false;
    }
    let mut i: usize = 0;
    while i < na
        invariant
            i <= na,
            na == a@.len(),
            na == b@.len(),
            forall|k: int| 0 <= k < i ==> a@[k] == b@[k],
        decreases na - i,
    {
        if a.get_char(i) != b.get_char(i) {
            return false;
        }
        i = i + 1;
    }
    proof {
        assert(a@ =~= b@);
    }
    true
}

/// `needle` occurs in `hay` starting at position `i`.
pub open spec fn occurs_at(hay: Seq<char>, needle: Seq<char>, i: int) -> bool {
    0 <= i && i + needle.len() <= hay.len() && hay.subrange(i, i + needle.len() as int) == needle
}

/// `needle` is a contiguous substring of `hay`.
pub open spec fn is_substring(hay: Seq<char>, needle: Seq<char>) -> bool {
    exists|i: int| occurs_at(hay, needle, i)
}

/// Whether `needle` occurs in `hay` at position `i` exactly.
fn match_at(hay: &Vec<char>, needle: &Vec<char>, i: usize) -> (r: bool)
    requires
        i + needle@.len() <= hay@.len(),
    ensures
        r == occurs_at(hay@, needle@, i as int),
{
    let nh = hay.len();
    let nn = needle.len();
    let mut j: usize = 0;
    while j < nn
        invariant
            j <= nn,
            i + nn <= nh,
            nh == hay@.len(),
            nn == needle@.len(),
            forall|k: int| 0 <= k < j ==> hay@[i + k] == needle@[k],
        decreases nn - j,
    {
        if hay[i + j] != needle[j] {
            proof {
                assert(hay@.subrange(i as int, i + nn as int)[j as int] == hay@[i + j]);
            }
            return false;
        }
        j = j + 1;
    }
    proof {
        assert(hay@.subrange(i as int, i + nn as int) =~= needle@);
    }
    true
}

/// Whether `needle` occurs contiguously in `hay`.
pub fn contains_chars(hay: &Vec<char>, needle: &Vec<char>) -> (r: bool)
    ensures
        r == is_substring(hay@, needle@),
{
    let nh = hay.len();
    let nn = needle.len();
    if nn == 0 {
        proof {
            assert(hay@.subrange(0, 0) =~= needle@);
            assert(occurs_at(hay@, needle@, 0));
        }
        return true;
    }
    if nn > nh {
        proof {
            assert(forall|i: int| !occurs_at(hay@, needle@, i));
        }
        return false;
    }
    let mut i: usize = 0;
    while i <= nh - nn
        invariant
            0 < nn <= nh,
            nh == hay@.len(),
            nn == needle@.len(),
            i <= nh - nn + 1,
            forall|k: int| 0 <= k < i ==> !occurs_at(hay@, needle@, k),
        decreases nh - nn - i + 1,
    {
        if match_at(hay, needle, i) {
            return true;
        }
        i = i + 1;
    }
    proof {
        assert(forall|k: int| occurs_at(hay@, needle@, k) ==> 0 <= k <= nh - nn);
    }
    false
}

/// Lexicographic order on character sequences, by code point; a proper
/// prefix sorts first. This is the order `str::cmp` gives for Unicode text.
pub open spec fn lex_cmp(a: Seq<char>, b: Seq<char>) -> core::cmp::Ordering
    decreases a.len(),
{
    if a.len() == 0 && b.len() == 0 {
        core::cmp::Ordering::Equal
    } else if a.len() == 0 {
        core::cmp::Ordering::Less
    } else if b.len() == 0 {
        core::cmp::Ordering::Greater
    } else if (a[0] as int) < (b[0] as int) {
        core::cmp::Ordering::Less
    } else if (a[0] as int) > (b[0] as int) {
        core::cmp::Ordering::Greater
    } else {
        lex_cmp(a.skip(1), b.skip(1))
    }
}

/// Compares two character vectors lexicographically.
pub fn chars_cmp(a: &Vec<char>, b: &Vec<char>) -> (r: core::cmp::Ordering)
    ensures
        r == lex_cmp(a@, b@),
{
    let na = a.len();
    let nb = b.len();
    let mut i: usize = 0;
    proof {
        assert(a@.skip(0) =~= a@);
        assert(b@.skip(0) =~= b@);
    }
    loop
        invariant
            i <= na,
            i <= nb,
            na == a@.len(),
            nb == b@.len(),
            lex_cmp(a@, b@) == lex_cmp(a@.skip(i as int), b@.skip(i as int)),
        decreases na - i,
    {
        if i == na && i == nb {
            return core::cmp::Ordering::Equal;
        } else if i == na {
            return core::cmp::Ordering::Less;
        } else if i == nb {
            return core::cmp::Ordering::Greater;
        } else {
            let ca = a[i];
            let cb = b[i];
            proof {
                assert(a@.skip(i as int)[0] == a@[i as int]);
                assert(b@.skip(i as int)[0] == b@[i as int]);
            }
            if ca < cb {
                return core::cmp::Ordering::Less;
            } else if cb < ca {
                return core::cmp::Ordering::Greater;
            }
            proof {
                assert(a@.skip(i as int).skip(1) =~= a@.skip(i + 1));
                assert(b@.skip(i as int).skip(1) =~= b@.skip(i + 1));
            }
            i = i + 1;
        }
    }
}

/// Lexicographic comparison returns `Equal` exactly on equal sequences.
pub proof fn lemma_lex_cmp_equal(a: Seq<char>, b: Seq<char>)
    ensures
        lex_cmp(a, b) == core::cmp::Ordering::Equal <==> a == b,
    decreases a.len(),
{
    if a.len() == 0 && b.len() == 0 {
        assert(a =~= b);
    } else if a.len() == 0 || b.len() == 0 {
    } else if (a[0] as int) == (b[0] as int) {
        assert(a[0] == b[0]);
        lemma_lex_cmp_equal(a.skip(1), b.skip(1));
        if a.skip(1) == b.skip(1) {
            assert(forall|i: int| 1 <= i < a.len() ==> a[i] == a.skip(1)[i - 1]);
            assert(forall|i: int| 1 <= i < b.len() ==> b[i] == b.skip(1)[i - 1]);
            assert(a =~= b);
        }
        if a == b {
            assert(a.skip(1) =~= b.skip(1));
        }
    } else {
        if a == b {
            assert(a[0] == b[0]);
        }
    }
}

/// Swapping the arguments of the lexicographic comparison reverses the
/// answer.
pub proof fn lemma_lex_cmp_flip(a: Seq<char>, b: Seq<char>)
    ensures
        lex_cmp(a, b) == core::cmp::Ordering::Less <==> lex_cmp(b, a) == core::cmp::Ordering::Greater,
    decreases a.len(),
{
    if a.len() != 0 && b.len() != 0 && (a[0] as int) == (b[0] as int) {
        lemma_lex_cmp_flip(a.skip(1), b.skip(1));
    }
}

/// Lexicographic strict order is transitive.
pub proof fn lemma_lex_cmp_trans(a: Seq<char>, b: Seq<char>, c: Seq<char>)
    requires
        lex_cmp(a, b) == core::cmp::Ordering::Less,
        lex_cmp(b, c) == core::cmp::Ordering::Less,
    ensures
        lex_cmp(a, c) == core::cmp::Ordering::Less,
    decreases a.len(),
{
    if a.len() == 0 {
        if c.len() == 0 {
            assert(b.len() > 0);
        }
    } else {
        if a.len() != 0 && b.len() != 0 && (a[0] as int) == (b[0] as int) {
            if (b[0] as int) == (c[0] as int) {
                lemma_lex_cmp_trans(a.skip(1), b.skip(1), c.skip(1));
            }
        }
    }
}

} // verus!
