//! Byte-wise lexicographic ordering of keys.
//!
//! Dictionary keys of the wire format must appear in strictly ascending
//! lexicographic order of their UTF-8 bytes. This module defines that order
//! as a specification over byte sequences, proves that it is a strict total
//! order, and provides an executable three-way comparison on byte slices.

use vstd::prelude::*;

verus! {

/// Strict byte-wise lexicographic order: `a` comes before `b`.
pub open spec fn lex_lt(a: Seq<u8>, b: Seq<u8>) -> bool
    decreases a.len(),
{
    if b.len() == 0 {
        false
    } else if a.len() == 0 {
        true
    } else if a[0] < b[0] {
        true
    } else if a[0] == b[0] {
        lex_lt(a.drop_first(), b.drop_first())
    } else {
        false
    }
}

/// Dropping a common prefix of length `n` does not change how two byte
/// sequences compare.
proof fn lemma_lex_lt_skip(a: Seq<u8>, b: Seq<u8>, n: int)
    requires
        0 <= n <= a.len(),
        n <= b.len(),
        forall|j: int| 0 <= j < n ==> a[j] == b[j],
    ensures
        lex_lt(a, b) == lex_lt(a.skip(n), b.skip(n)),
    decreases n,
{
    if n == 0 {
        assert(a.skip(0) =~= a);
        assert(b.skip(0) =~= b);
    } else {
        assert(a[0] == b[0]);
        lemma_lex_lt_skip(a.drop_first(), b.drop_first(), n - 1);
        assert(a.drop_first().skip(n - 1) =~= a.skip(n));
        assert(b.drop_first().skip(n - 1) =~= b.skip(n));
    }
}

/// Of `lex_lt(a, b)`, `a == b` and `lex_lt(b, a)`, exactly one holds.
pub proof fn lemma_lex_lt_trichotomy(a: Seq<u8>, b: Seq<u8>)
    ensures
        lex_lt(a, b) || a == b || lex_lt(b, a),
        lex_lt(a, b) ==> a != b,
        lex_lt(a, b) ==> !lex_lt(b, a),
    decreases a.len(),
{
    if a.len() == 0 && b.len() == 0 {
        assert(a =~= b);
    } else if a.len() > 0 && b.len() > 0 && a[0] == b[0] {
        lemma_lex_lt_trichotomy(a.drop_first(), b.drop_first());
        if a.drop_first() == b.drop_first() {
            assert forall|k: int| 0 <= k < a.len() implies a[k] == b[k] by {
                if k > 0 {
                    assert(a[k] == a.drop_first()[k - 1]);
                    assert(b[k] == b.drop_first()[k - 1]);
                }
            }
            assert(a =~= b);
        }
        if a == b {
            assert(a.drop_first() =~= b.drop_first());
        }
    } else {
        if a == b && a.len() > 0 {
            assert(a[0] == b[0]);
        }
    }
}

/// No byte sequence comes before itself.
pub proof fn lemma_lex_lt_irrefl(a: Seq<u8>)
    ensures
        !lex_lt(a, a),
{
    lemma_lex_lt_trichotomy(a, a);
}

/// Byte-wise lexicographic order is transitive.
pub proof fn lemma_lex_lt_trans(a: Seq<u8>, b: Seq<u8>, c: Seq<u8>)
    requires
        lex_lt(a, b),
        lex_lt(b, c),
    ensures
        lex_lt(a, c),
    decreases a.len(),
{
    if a.len() == 0 {
    } else {
        if a[0] == b[0] && b[0] == c[0] {
            lemma_lex_lt_trans(a.drop_first(), b.drop_first(), c.drop_first());
        }
    }
}

/// Outcome of a three-way key comparison.
#[derive(Clone, Copy, PartialEq, Eq, Structural, Debug)]
pub enum KeyOrder {
    Less,
    Equal,
    Greater,
}

/// Three-way byte-wise lexicographic comparison of two byte slices.
pub fn lex_cmp(a: &[u8], b: &[u8]) -> (r: KeyOrder)
    ensures
        (r == KeyOrder::Less) == lex_lt(a@, b@),
        (r == KeyOrder::Equal) == (a@ == b@),
        (r == KeyOrder::Greater) == lex_lt(b@, a@),
{
    let a_len: usize = a.len();
    let b_len: usize = b.len();
    let mut i: usize = 0;
    while i < a_len && i < b_len
        invariant
            a_len == a@.len(),
            b_len == b@.len(),
            i <= a_len,
            i <= b_len,
            forall|j: int| 0 <= j < i ==> a@[j] == b@[j],
        decreases a_len - i,
    {
        let x = a[i];
        let y = b[i];
        if x < y {
            proof {
                lemma_lex_lt_skip(a@, b@, i as int);
                lemma_lex_lt_skip(b@, a@, i as int);
                assert(lex_lt(a@.skip(i as int), b@.skip(i as int)));
                assert(!lex_lt(b@.skip(i as int), a@.skip(i as int)));
                assert(a@[i as int] != b@[i as int]);
            }
            return KeyOrder::Less;
        }
        if y < x {
            proof {
                lemma_lex_lt_skip(a@, b@, i as int);
                lemma_lex_lt_skip(b@, a@, i as int);
                assert(lex_lt(b@.skip(i as int), a@.skip(i as int)));
                assert(!lex_lt(a@.skip(i as int), b@.skip(i as int)));
                assert(a@[i as int] != b@[i as int]);
            }
            return KeyOrder::Greater;
        }
        i = i + 1;
    }
    proof {
        lemma_lex_lt_skip(a@, b@, i as int);
        lemma_lex_lt_skip(b@, a@, i as int);
    }
    if a_len < b_len {
        KeyOrder::Less
    } else if b_len < a_len {
        KeyOrder::Greater
    } else {
        proof {
            assert(a@ =~= b@);
        }
        KeyOrder::Equal
    }
}

} // verus!
