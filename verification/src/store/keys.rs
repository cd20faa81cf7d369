//! Integer key encoding.
//!
//! Integer-keyed stores encode each key as fixed-width, big-endian bytes, so
//! that unsigned lexicographic comparison of encoded keys agrees exactly with
//! numeric comparison of the keys themselves.  Encoding is total; decoding
//! rejects buffers of the wrong width and inverts the encoding exactly.

use vstd::prelude::*;

use crate::order::lex_lt;

verus! {

/// Big-endian bytes of a 32-bit key, most significant byte first.
pub open spec fn spec_u32_to_be_bytes(x: u32) -> Seq<u8> {
    seq![
        ((x >> 24) & 0xff) as u8,
        ((x >> 16) & 0xff) as u8,
        ((x >> 8) & 0xff) as u8,
        (x & 0xff) as u8,
    ]
}

/// The 32-bit value a big-endian 4-byte buffer denotes.
pub open spec fn spec_u32_from_be_bytes(s: Seq<u8>) -> u32
    recommends
        s.len() == 4,
{
    (s[0] as u32) << 24 | (s[1] as u32) << 16 | (s[2] as u32) << 8 | (s[3] as u32)
}

/// Decoding inverts encoding.
pub proof fn lemma_u32_be_bytes_round_trip(x: u32)
    ensures
        spec_u32_to_be_bytes(x).len() == 4,
        spec_u32_from_be_bytes(spec_u32_to_be_bytes(x)) == x,
{
    let s = spec_u32_to_be_bytes(x);
    assert(s[0] == ((x >> 24) & 0xff) as u8);
    assert(s[1] == ((x >> 16) & 0xff) as u8);
    assert(s[2] == ((x >> 8) & 0xff) as u8);
    assert(s[3] == (x & 0xff) as u8);
    assert((((x >> 24) & 0xff) as u8 as u32) << 24 | (((x >> 16) & 0xff) as u8 as u32) << 16 | (((x
        >> 8) & 0xff) as u8 as u32) << 8 | ((x & 0xff) as u8 as u32) == x) by (bit_vector);
}

/// Encoding inverts decoding on 4-byte buffers.
pub proof fn lemma_u32_be_bytes_inverse(s: Seq<u8>)
    requires
        s.len() == 4,
    ensures
        spec_u32_to_be_bytes(spec_u32_from_be_bytes(s)) == s,
{
    let s0 = s[0];
    let s1 = s[1];
    let s2 = s[2];
    let s3 = s[3];
    let x = spec_u32_from_be_bytes(s);
    assert(x == (s0 as u32) << 24 | (s1 as u32) << 16 | (s2 as u32) << 8 | (s3 as u32));
    assert({
        let y = (s0 as u32) << 24 | (s1 as u32) << 16 | (s2 as u32) << 8 | (s3 as u32);
        ((y >> 24) & 0xff) as u8 == s0 && ((y >> 16) & 0xff) as u8 == s1 && ((y >> 8) & 0xff) as u8
            == s2 && (y & 0xff) as u8 == s3
    }) by (bit_vector);
    assert(spec_u32_to_be_bytes(x) =~= s);
}

/// Lexicographic comparison of two 4-byte strings, written out.
proof fn lemma_lex_lt_4(a0: u8, a1: u8, a2: u8, a3: u8, b0: u8, b1: u8, b2: u8, b3: u8)
    ensures
        lex_lt(seq![a0, a1, a2, a3], seq![b0, b1, b2, b3]) == (a0 < b0 || (a0 == b0 && (a1 < b1 || (
        a1 == b1 && (a2 < b2 || (a2 == b2 && a3 < b3)))))),
{
    let sa1 = seq![a1, a2, a3];
    let sb1 = seq![b1, b2, b3];
    let sa2 = seq![a2, a3];
    let sb2 = seq![b2, b3];
    let sa3 = seq![a3];
    let sb3 = seq![b3];
    assert(sa3.drop_first() =~= Seq::<u8>::empty());
    assert(sb3.drop_first() =~= Seq::<u8>::empty());
    assert(!lex_lt(Seq::<u8>::empty(), Seq::<u8>::empty()));
    assert(lex_lt(sa3, sb3) == (a3 < b3));
    assert(sa2.drop_first() =~= sa3);
    assert(sb2.drop_first() =~= sb3);
    assert(lex_lt(sa2, sb2) == (a2 < b2 || (a2 == b2 && a3 < b3)));
    assert(sa1.drop_first() =~= sa2);
    assert(sb1.drop_first() =~= sb2);
    assert(lex_lt(sa1, sb1) == (a1 < b1 || (a1 == b1 && (a2 < b2 || (a2 == b2 && a3 < b3)))));
    assert(seq![a0, a1, a2, a3].drop_first() =~= sa1);
    assert(seq![b0, b1, b2, b3].drop_first() =~= sb1);
}

/// The encoding preserves numeric order and is injective: for keys `a < b`
/// the encoded bytes of `a` are lexicographically below those of `b`.
pub proof fn lemma_u32_be_bytes_order(a: u32, b: u32)
    ensures
        a < b ==> lex_lt(spec_u32_to_be_bytes(a), spec_u32_to_be_bytes(b)),
        spec_u32_to_be_bytes(a) == spec_u32_to_be_bytes(b) ==> a == b,
{
    lemma_lex_lt_4(
        ((a >> 24) & 0xff) as u8,
        ((a >> 16) & 0xff) as u8,
        ((a >> 8) & 0xff) as u8,
        (a & 0xff) as u8,
        ((b >> 24) & 0xff) as u8,
        ((b >> 16) & 0xff) as u8,
        ((b >> 8) & 0xff) as u8,
        (b & 0xff) as u8,
    );
    assert((((a >> 24) & 0xff) as u8 == ((b >> 24) & 0xff) as u8) == (a >> 24 == b >> 24))
        by (bit_vector);
    assert(((((a >> 24) & 0xff) as u8) < (((b >> 24) & 0xff) as u8)) == (a >> 24 < b >> 24))
        by (bit_vector);
    assert(a >> 24 == b >> 24 ==> ((((a >> 16) & 0xff) as u8 == ((b >> 16) & 0xff) as u8) == (a
        >> 16 == b >> 16))) by (bit_vector);
    assert(a >> 24 == b >> 24 ==> (((((a >> 16) & 0xff) as u8) < (((b >> 16) & 0xff) as u8)) == (a
        >> 16 < b >> 16))) by (bit_vector);
    assert(a >> 16 == b >> 16 ==> ((((a >> 8) & 0xff) as u8 == ((b >> 8) & 0xff) as u8) == (a >> 8
        == b >> 8))) by (bit_vector);
    assert(a >> 16 == b >> 16 ==> (((((a >> 8) & 0xff) as u8) < (((b >> 8) & 0xff) as u8)) == (a
        >> 8 < b >> 8))) by (bit_vector);
    assert(a >> 8 == b >> 8 ==> (((a & 0xff) as u8 == (b & 0xff) as u8) == (a == b)))
        by (bit_vector);
    assert(a >> 8 == b >> 8 ==> ((((a & 0xff) as u8) < ((b & 0xff) as u8)) == (a < b)))
        by (bit_vector);
    assert(a < b ==> a >> 24 <= b >> 24) by (bit_vector);
    assert(a < b && a >> 24 == b >> 24 ==> a >> 16 <= b >> 16) by (bit_vector);
    assert(a >> 16 == b >> 16 ==> a >> 24 == b >> 24) by (bit_vector);
    assert(a < b && a >> 16 == b >> 16 ==> a >> 8 <= b >> 8) by (bit_vector);
    assert(a >> 8 == b >> 8 ==> a >> 16 == b >> 16) by (bit_vector);
    if spec_u32_to_be_bytes(a) == spec_u32_to_be_bytes(b) {
        assert(spec_u32_to_be_bytes(a)[0] == spec_u32_to_be_bytes(b)[0]);
        assert(spec_u32_to_be_bytes(a)[1] == spec_u32_to_be_bytes(b)[1]);
        assert(spec_u32_to_be_bytes(a)[2] == spec_u32_to_be_bytes(b)[2]);
        assert(spec_u32_to_be_bytes(a)[3] == spec_u32_to_be_bytes(b)[3]);
        assert(a >> 24 == b >> 24);
        assert(a >> 16 == b >> 16);
        assert(a >> 8 == b >> 8);
        assert(a == b);
    }
    if a < b {
        let ea = spec_u32_to_be_bytes(a);
        let eb = spec_u32_to_be_bytes(b);
        if a >> 24 < b >> 24 {
            assert(lex_lt(ea, eb));
        } else if a >> 16 < b >> 16 {
            assert(lex_lt(ea, eb));
        } else if a >> 8 < b >> 8 {
            assert(lex_lt(ea, eb));
        } else {
            assert(lex_lt(ea, eb));
        }
    }
}

/// A primitive integer key: encoded fixed-width and big-endian before it is
/// handed to the byte-keyed store layer.
pub trait PrimitiveInt: Copy + Sized {
    /// The fixed-width, order-preserving encoding of this key.
    spec fn spec_encoded(self) -> Seq<u8>;

    /// The numeric value of this key.
    spec fn spec_int(self) -> int;

    /// Encode the key; total for every in-range value.
    fn encode_key(&self) -> (r: Vec<u8>)
        ensures
            r@ == self.spec_encoded(),
    ;

    /// Decode a key, rejecting buffers of the wrong width.
    fn decode_key(b: &[u8]) -> (r: Option<Self>)
        ensures
            r is Some ==> r.unwrap().spec_encoded() == b@,
            r is None ==> forall|x: Self| (#[trigger] x.spec_encoded()) != b@,
    ;

    /// The encoding is injective and preserves numeric order.
    proof fn lemma_encode_order(a: Self, b: Self)
        ensures
            a.spec_int() < b.spec_int() ==> lex_lt(a.spec_encoded(), b.spec_encoded()),
            a.spec_encoded() == b.spec_encoded() ==> a == b,
    ;
}

impl PrimitiveInt for u32 {
    open spec fn spec_encoded(self) -> Seq<u8> {
        spec_u32_to_be_bytes(self)
    }

    open spec fn spec_int(self) -> int {
        self as int
    }

    fn encode_key(&self) -> (r: Vec<u8>)
        ensures
            r@ == self.spec_encoded(),
    {
        let x: u32 = *self;
        proof {
            assert(((x >> 24) & 0xff) < 256 && ((x >> 16) & 0xff) < 256 && ((x >> 8) & 0xff) < 256
                && (x & 0xff) < 256) by (bit_vector);
        }
        let mut r: Vec<u8> = Vec::new();
        r.push(((x >> 24) & 0xff) as u8);
        r.push(((x >> 16) & 0xff) as u8);
        r.push(((x >> 8) & 0xff) as u8);
        r.push((x & 0xff) as u8);
        proof {
            assert(r@ =~= spec_u32_to_be_bytes(x));
        }
        r
    }

    fn decode_key(b: &[u8]) -> (r: Option<u32>)
        ensures
            r is Some ==> r.unwrap().spec_encoded() == b@,
            r is None ==> forall|x: u32| (#[trigger] x.spec_encoded()) != b@,
    {
        if b.len() != 4 {
            proof {
                assert forall|x: u32| (#[trigger] x.spec_encoded()) != b@ by {
                    assert(x.spec_encoded().len() == 4);
                }
            }
            return None;
        }
        let y: u32 = (b[0] as u32) << 24 | (b[1] as u32) << 16 | (b[2] as u32) << 8 | (b[3] as u32);
        proof {
            assert(y == spec_u32_from_be_bytes(b@));
            lemma_u32_be_bytes_inverse(b@);
        }
        Some(y)
    }

    proof fn lemma_encode_order(a: u32, b: u32) {
        lemma_u32_be_bytes_order(a, b);
    }
}

} // verus!
