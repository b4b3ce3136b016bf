//! Verified text comparisons, character by character: equality, suffix
//! testing, and the lexicographic order by code point that file listings are
//! sorted by.

use vstd::prelude::*;
use vstd::string::StrSliceExecFns;

verus! {

/// The two strings hold the same characters.
#[verifier::loop_isolation(false)]
pub fn str_eq(a: &str, b: &str) -> (r: bool)
    ensures
        r == (a@ == b@),
{
    let na = a.unicode_len();
    let nb = b.unicode_len();
    if na != nb {
        return false;
    }
    let mut k: usize = 0;
    while k < na
        invariant
            k <= na,
            na == a@.len(),
            nb == b@.len(),
            na == nb,
            forall|j: int| 0 <= j < k ==> a@[j] == b@[j],
        decreases na - k,
    {
        if a.get_char(k) != b.get_char(k) {
            return false;
        }
        k += 1;
    }
    proof {
        assert(a@ =~= b@);
    }
    true
}

/// `suf` is a suffix of `s`.
pub open spec fn suffix_of(suf: Seq<char>, s: Seq<char>) -> bool {
    suf.len() <= s.len() && s.subrange(s.len() - suf.len(), s.len() as int) == suf
}

/// Whether the string ends with the given suffix.
#[verifier::loop_isolation(false)]
pub fn str_ends_with(s: &str, suffix: &str) -> (r: bool)
    ensures
        r == suffix_of(suffix@, s@),
{
    let n = s.unicode_len();
    let m = suffix.unicode_len();
    if m > n {
        return false;
    }
    let off = n - m;
    let mut k: usize = 0;
    while k < m
        invariant
            k <= m,
            m <= n,
            off == n - m,
            n == s@.len(),
            m == suffix@.len(),
            forall|j: int| 0 <= j < k ==> s@[off + j] == suffix@[j],
        decreases m - k,
    {
        if s.get_char(off + k) != suffix.get_char(k) {
            proof {
                assert(!suffix_of(suffix@, s@)) by {
                    if suffix_of(suffix@, s@) {
                        assert(s@.subrange(n - m, n as int)[k as int] == suffix@[k as int]);
                    }
                }
            }
            return false;
        }
        k += 1;
    }
    proof {
        assert(s@.subrange(n - m, n as int) =~= suffix@);
    }
    true
}

/// `a` comes at or before `b` in the lexicographic order by code point,
/// comparing from position `i` on.
pub open spec fn lex_le_from(a: Seq<char>, b: Seq<char>, i: int) -> bool
    decreases vstd::math::max(0, a.len() - i),
{
    if i >= a.len() {
        true
    } else if i >= b.len() {
        false
    } else if (a[i] as int) < (b[i] as int) {
        true
    } else if (a[i] as int) > (b[i] as int) {
        false
    } else {
        lex_le_from(a, b, i + 1)
    }
}

/// `a` comes at or before `b` in the lexicographic order by code point.
pub open spec fn lex_le(a: Seq<char>, b: Seq<char>) -> bool {
    lex_le_from(a, b, 0)
}

/// The order is total.
pub proof fn lemma_lex_total(a: Seq<char>, b: Seq<char>)
    ensures
        lex_le(a, b) || lex_le(b, a),
{
    lemma_lex_total_from(a, b, 0);
}

proof fn lemma_lex_total_from(a: Seq<char>, b: Seq<char>, i: int)
    requires
        0 <= i,
    ensures
        lex_le_from(a, b, i) || lex_le_from(b, a, i),
    decreases vstd::math::max(0, a.len() - i),
{
    if i < a.len() && i < b.len() && a[i] as int == b[i] as int {
        lemma_lex_total_from(a, b, i + 1);
    }
}

/// The order is transitive.
pub proof fn lemma_lex_trans(a: Seq<char>, b: Seq<char>, c: Seq<char>)
    requires
        lex_le(a, b),
        lex_le(b, c),
    ensures
        lex_le(a, c),
{
    lemma_lex_trans_from(a, b, c, 0);
}

proof fn lemma_lex_trans_from(a: Seq<char>, b: Seq<char>, c: Seq<char>, i: int)
    requires
        0 <= i,
        lex_le_from(a, b, i),
        lex_le_from(b, c, i),
    ensures
        lex_le_from(a, c, i),
    decreases vstd::math::max(0, a.len() - i),
{
    if i < a.len() && i < b.len() && i < c.len() && a[i] as int == b[i] as int && b[i] as int == c[
        i] as int {
        lemma_lex_trans_from(a, b, c, i + 1);
    }
}

/// Executable lexicographic comparison: `a` at or before `b`.
#[verifier::loop_isolation(false)]
pub fn str_lex_le(a: &str, b: &str) -> (r: bool)
    ensures
        r == lex_le(a@, b@),
{
    let na = a.unicode_len();
    let nb = b.unicode_len();
    let mut k: usize = 0;
    while k < na && k < nb
        invariant
            k <= na,
            k <= nb,
            na == a@.len(),
            nb == b@.len(),
            lex_le(a@, b@) == lex_le_from(a@, b@, k as int),
        decreases na - k,
    {
        let ca = a.get_char(k) as u32;
        let cb = b.get_char(k) as u32;
        if ca < cb {
            return true;
        }
        if ca > cb {
            return false;
        }
        k += 1;
    }
    na <= nb
}

} // verus!
