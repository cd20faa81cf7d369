//! Lexicographic ordering on byte strings.
//!
//! Keys and encoded values are ordered by unsigned lexicographic comparison of
//! their bytes.  This module defines the order as a specification function,
//! proves that it is a strict total order, and provides a verified executable
//! comparator.

use vstd::prelude::*;

verus! {

/// Strict lexicographic order on byte sequences: `a` comes before `b` when `a`
/// is a proper prefix of `b`, or when at the first index where they differ the
/// byte of `a` is smaller.
pub open spec fn lex_lt(a: Seq<u8>, b: Seq<u8>) -> bool
    decreases a.len(),
{
    if b.len() == 0 {
        false
    } else if a.len() == 0 {
        true
    } else if a[0] < b[0] {
        true
    } else if a[0] == b[0] {
        lex_lt(a.drop_first(), b.drop_first())
    } else {
        false
    }
}

/// Reflexive closure of `lex_lt`.
pub open spec fn lex_le(a: Seq<u8>, b: Seq<u8>) -> bool {
    lex_lt(a, b) || a == b
}

/// The order is irreflexive.
pub proof fn lemma_lex_irrefl(a: Seq<u8>)
    ensures
        !lex_lt(a, a),
    decreases a.len(),
{
    if a.len() > 0 {
        lemma_lex_irrefl(a.drop_first());
    }
}

/// Any two byte sequences are comparable.
pub proof fn lemma_lex_trichotomy(a: Seq<u8>, b: Seq<u8>)
    ensures
        lex_lt(a, b) || lex_lt(b, a) || a == b,
    decreases a.len(),
{
    if a.len() == 0 {
        if b.len() == 0 {
            assert(a =~= b);
        }
    } else if b.len() > 0 {
        if a[0] == b[0] {
            lemma_lex_trichotomy(a.drop_first(), b.drop_first());
            if !lex_lt(a, b) && !lex_lt(b, a) {
                assert(a.drop_first() == b.drop_first());
                assert forall|i: int| 0 <= i < a.len() implies a[i] == b[i] by {
                    if i > 0 {
                        assert(a.drop_first()[i - 1] == b.drop_first()[i - 1]);
                    }
                }
                assert(a =~= b);
            }
        }
    }
}

/// At most one of `lex_lt(a, b)` and `lex_lt(b, a)` holds.
pub proof fn lemma_lex_asym(a: Seq<u8>, b: Seq<u8>)
    ensures
        lex_lt(a, b) ==> !lex_lt(b, a),
    decreases a.len(),
{
    if a.len() > 0 && b.len() > 0 && a[0] == b[0] {
        lemma_lex_asym(a.drop_first(), b.drop_first());
    }
}

/// The order is transitive.
pub proof fn lemma_lex_trans(a: Seq<u8>, b: Seq<u8>, c: Seq<u8>)
    ensures
        lex_lt(a, b) && lex_lt(b, c) ==> lex_lt(a, c),
    decreases a.len(),
{
    if lex_lt(a, b) && lex_lt(b, c) {
        if a.len() > 0 && b.len() > 0 && c.len() > 0 {
            if a[0] == b[0] && b[0] == c[0] {
                lemma_lex_trans(a.drop_first(), b.drop_first(), c.drop_first());
            }
        }
    }
}

/// Transitivity for the reflexive closure, in every mixed form.
pub proof fn lemma_lex_le_trans(a: Seq<u8>, b: Seq<u8>, c: Seq<u8>)
    ensures
        lex_le(a, b) && lex_le(b, c) ==> lex_le(a, c),
        lex_lt(a, b) && lex_le(b, c) ==> lex_lt(a, c),
        lex_le(a, b) && lex_lt(b, c) ==> lex_lt(a, c),
{
    lemma_lex_trans(a, b, c);
}

/// Comparing suffixes: once an equal prefix of length `n` is stripped from
/// both sequences, the order is decided by the remainders.
pub proof fn lemma_lex_skip(a: Seq<u8>, b: Seq<u8>, n: int)
    requires
        0 <= n <= a.len(),
        n <= b.len(),
        a.subrange(0, n) == b.subrange(0, n),
    ensures
        lex_lt(a, b) == lex_lt(a.skip(n), b.skip(n)),
    decreases n,
{
    if n > 0 {
        assert(a.subrange(0, n)[0] == a[0]);
        assert(b.subrange(0, n)[0] == b[0]);
        assert(a[0] == b[0]);
        assert(a.len() > 0 && b.len() > 0);
        assert forall|i: int| 0 <= i < n - 1 implies #[trigger] a.drop_first()[i]
            == b.drop_first()[i] by {
            assert(a.subrange(0, n)[i + 1] == a[i + 1]);
            assert(b.subrange(0, n)[i + 1] == b[i + 1]);
        }
        assert(a.drop_first().subrange(0, n - 1) =~= b.drop_first().subrange(0, n - 1));
        lemma_lex_skip(a.drop_first(), b.drop_first(), n - 1);
        assert(a.drop_first().skip(n - 1) =~= a.skip(n));
        assert(b.drop_first().skip(n - 1) =~= b.skip(n));
    } else {
        assert(a.skip(0) =~= a);
        assert(b.skip(0) =~= b);
    }
}

/// Outcome of comparing two byte strings.
#[derive(Debug, PartialEq, Eq, Copy, Clone, Structural)]
pub enum BytesOrder {
    Less,
    Equal,
    Greater,
}

/// Verified three-way lexicographic comparison of two byte strings.
pub fn lex_compare(a: &[u8], b: &[u8]) -> (r: BytesOrder)
    ensures
        (r is Less) == lex_lt(a@, b@),
        (r is Greater) == lex_lt(b@, a@),
        (r is Equal) == (a@ == b@),
{
    let a_len: usize = a.len();
    let b_len: usize = b.len();
    let n: usize = if a_len < b_len {
        a_len
    } else {
        b_len
    };
    let mut i: usize = 0;
    while i < n
        invariant
            0 <= i <= n,
            n <= a@.len(),
            n <= b@.len(),
            n == if a@.len() < b@.len() {
                a@.len()
            } else {
                b@.len()
            },
            a@.subrange(0, i as int) == b@.subrange(0, i as int),
        decreases n - i,
    {
        proof {
            lemma_lex_skip(a@, b@, i as int);
            lemma_lex_skip(b@, a@, i as int);
        }
        if a[i] < b[i] {
            proof {
                assert(a@.skip(i as int)[0] == a@[i as int]);
                assert(b@.skip(i as int)[0] == b@[i as int]);
                lemma_lex_asym(a@, b@);
                lemma_lex_irrefl(a@);
            }
            return BytesOrder::Less;
        }
        if a[i] > b[i] {
            proof {
                assert(a@.skip(i as int)[0] == a@[i as int]);
                assert(b@.skip(i as int)[0] == b@[i as int]);
                lemma_lex_asym(b@, a@);
                lemma_lex_irrefl(a@);
            }
            return BytesOrder::Greater;
        }
        proof {
            assert(a@.subrange(0, i + 1) =~= b@.subrange(0, i + 1));
        }
        i += 1;
    }
    proof {
        lemma_lex_skip(a@, b@, n as int);
        lemma_lex_skip(b@, a@, n as int);
    }
    if a_len < b_len {
        proof {
            assert(a@.skip(n as int).len() == 0);
            assert(b@.skip(n as int).len() > 0);
            lemma_lex_irrefl(a@);
        }
        BytesOrder::Less
    } else if a_len > b_len {
        proof {
            assert(b@.skip(n as int).len() == 0);
            assert(a@.skip(n as int).len() > 0);
            lemma_lex_irrefl(a@);
        }
        BytesOrder::Greater
    } else {
        proof {
            assert(a@.subrange(0, n as int) =~= a@);
            assert(b@.subrange(0, n as int) =~= b@);
            assert(a@ == b@);
            lemma_lex_irrefl(a@);
        }
        BytesOrder::Equal
    }
}

/// Verified byte-string equality.
pub fn bytes_eq(a: &[u8], b: &[u8]) -> (r: bool)
    ensures
        r == (a@ == b@),
{
    matches!(lex_compare(a, b), BytesOrder::Equal)
}

} // verus!
