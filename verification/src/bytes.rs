//! Byte strings and their lexicographic order.

use vstd::prelude::*;

verus! {

/// `a` and `b` agree on their first `n` bytes.
pub open spec fn agree_upto(a: Seq<u8>, b: Seq<u8>, n: int) -> bool {
    &&& 0 <= n <= a.len()
    &&& n <= b.len()
    &&& forall|j: int| 0 <= j < n ==> a[j] == b[j]
}

/// Strict lexicographic order on byte strings: `a` is a proper prefix of
/// `b`, or at the first position where they differ `a` holds the smaller byte.
pub open spec fn lex_lt(a: Seq<u8>, b: Seq<u8>) -> bool {
    exists|n: int| #[trigger]
        agree_upto(a, b, n) && n < b.len() && (n == a.len() || a[n] < b[n])
}

/// Non-strict lexicographic order.
pub open spec fn lex_le(a: Seq<u8>, b: Seq<u8>) -> bool {
    a == b || lex_lt(a, b)
}

/// Membership in the half-open interval `[start, end)`.
pub open spec fn in_range(k: Seq<u8>, start: Seq<u8>, end: Seq<u8>) -> bool {
    lex_le(start, k) && lex_lt(k, end)
}

/// No byte string is below itself.
pub proof fn lemma_lex_lt_irreflexive(a: Seq<u8>)
    ensures
        !lex_lt(a, a),
{
}

/// Two byte strings cannot each be below the other.
pub proof fn lemma_lex_lt_asymmetric(a: Seq<u8>, b: Seq<u8>)
    ensures
        !(lex_lt(a, b) && lex_lt(b, a)),
{
    if lex_lt(a, b) && lex_lt(b, a) {
        let n = choose|n: int| #[trigger]
            agree_upto(a, b, n) && n < b.len() && (n == a.len() || a[n] < b[n]);
        let m = choose|m: int| #[trigger]
            agree_upto(b, a, m) && m < a.len() && (m == b.len() || b[m] < a[m]);
        if n < m {
            assert(b[n] == a[n]);
        } else if m < n {
            assert(a[m] == b[m]);
        }
    }
}

/// Any two distinct byte strings are ordered one way or the other.
pub proof fn lemma_lex_lt_total(a: Seq<u8>, b: Seq<u8>)
    ensures
        a == b || lex_lt(a, b) || lex_lt(b, a),
    decreases a.len(),
{
    lemma_first_difference(a, b, 0);
}

proof fn lemma_first_difference(a: Seq<u8>, b: Seq<u8>, n: int)
    requires
        agree_upto(a, b, n),
    ensures
        a == b || lex_lt(a, b) || lex_lt(b, a),
    decreases a.len() - n,
{
    if n == a.len() {
        if n == b.len() {
            assert(a =~= b);
        } else {
            assert(agree_upto(a, b, n));
        }
    } else if n == b.len() {
        assert(agree_upto(b, a, n));
    } else if a[n] < b[n] {
        assert(agree_upto(a, b, n));
    } else if b[n] < a[n] {
        assert(agree_upto(b, a, n));
    } else {
        lemma_first_difference(a, b, n + 1);
    }
}

/// The order is transitive.
pub proof fn lemma_lex_lt_transitive(a: Seq<u8>, b: Seq<u8>, c: Seq<u8>)
    requires
        lex_lt(a, b),
        lex_lt(b, c),
    ensures
        lex_lt(a, c),
{
    let n = choose|n: int| #[trigger]
        agree_upto(a, b, n) && n < b.len() && (n == a.len() || a[n] < b[n]);
    let m = choose|m: int| #[trigger]
        agree_upto(b, c, m) && m < c.len() && (m == b.len() || b[m] < c[m]);
    let k = if n <= m { n } else { m };
    assert(agree_upto(a, c, k));
}

/// Whether two byte strings are equal.
pub fn bytes_eq(a: &[u8], b: &[u8]) -> (r: bool)
    ensures
        r == (a@ == b@),
{
    if a.len() != b.len() {
        return false;
    }
    let mut i: usize = 0;
    while i < a.len()
        invariant
            a.len() == b.len(),
            agree_upto(a@, b@, i as int),
        decreases a.len() - i,
    {
        if a[i] != b[i] {
            return false;
        }
        i += 1;
    }
    assert(a@ =~= b@);
    true
}

/// Whether `a` comes strictly before `b` in lexicographic order.
pub fn bytes_lt(a: &[u8], b: &[u8]) -> (r: bool)
    ensures
        r == lex_lt(a@, b@),
{
    let mut i: usize = 0;
    while i < a.len() && i < b.len()
        invariant
            agree_upto(a@, b@, i as int),
        decreases a.len() - i,
    {
        if a[i] != b[i] {
            proof {
                lemma_decided_at(a@, b@, i as int);
            }
            return a[i] < b[i];
        }
        i += 1;
    }
    proof {
        lemma_decided_at(a@, b@, i as int);
    }
    a.len() < b.len()
}

/// Once the common prefix of `a` and `b` is known to end at `n`, the order of
/// the two is decided there.
proof fn lemma_decided_at(a: Seq<u8>, b: Seq<u8>, n: int)
    requires
        agree_upto(a, b, n),
        n == a.len() || n == b.len() || a[n] != b[n],
    ensures
        lex_lt(a, b) == (n < b.len() && (n == a.len() || a[n] < b[n])),
{
    if lex_lt(a, b) {
        let m = choose|m: int| #[trigger]
            agree_upto(a, b, m) && m < b.len() && (m == a.len() || a[m] < b[m]);
        if m < n {
            assert(a[m] == b[m]);
        } else if n < m {
            assert(a[n] == b[n]);
        }
    }
}

/// Whether `k` lies in the half-open interval `[start, end)`.
pub fn bytes_in_range(k: &[u8], start: &[u8], end: &[u8]) -> (r: bool)
    ensures
        r == in_range(k@, start@, end@),
{
    proof {
        lemma_lex_lt_total(start@, k@);
        lemma_lex_lt_asymmetric(start@, k@);
        lemma_lex_lt_irreflexive(k@);
    }
    !bytes_lt(k, start) && bytes_lt(k, end)
}

} // verus!
