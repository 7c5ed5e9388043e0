//! The embedding blob format: a vector of 32-bit words (IEEE-754 single
//! bit patterns), each laid down as four little-endian bytes. A stored
//! 1536-dimensional embedding is exactly 6144 bytes; any blob whose length
//! is not a multiple of four is treated as absent.

use vstd::prelude::*;

verus! {

/// The number of dimensions of an embedding vector.
pub const EMBEDDING_DIM: usize = 1536;

/// Byte `k` of the little-endian encoding of `x`.
pub open spec fn le_byte(x: u32, k: int) -> u8 {
    if k == 0 {
        x as u8
    } else if k == 1 {
        (x >> 8) as u8
    } else if k == 2 {
        (x >> 16) as u8
    } else {
        (x >> 24) as u8
    }
}

/// The little-endian byte string encoding the whole vector.
pub open spec fn encode_spec(v: Seq<u32>) -> Seq<u8> {
    Seq::new(v.len() * 4, |i: int| le_byte(v[i / 4], i % 4))
}

/// The 32-bit word read from four little-endian bytes.
pub open spec fn word_of_bytes(b0: u8, b1: u8, b2: u8, b3: u8) -> u32 {
    (b0 as u32) | ((b1 as u32) << 8) | ((b2 as u32) << 16) | ((b3 as u32) << 24)
}

/// The vector read back from a blob: absent when the length is not a
/// multiple of four.
pub open spec fn decode_spec(b: Seq<u8>) -> Option<Seq<u32>> {
    if b.len() % 4 != 0 {
        None
    } else {
        Some(Seq::new(b.len() / 4, |i: int| word_of_bytes(b[4 * i], b[4 * i + 1], b[4 * i + 2], b[4 * i + 3])))
    }
}

/// Encoding then decoding gives the vector back exactly.
pub proof fn lemma_embedding_round_trip(v: Seq<u32>)
    ensures
        decode_spec(encode_spec(v)) == Some(v),
{
    let b = encode_spec(v);
    assert(b.len() == v.len() * 4);
    assert(b.len() % 4 == 0) by (nonlinear_arith)
        requires
            b.len() == v.len() * 4,
    ;
    assert(b.len() / 4 == v.len()) by (nonlinear_arith)
        requires
            b.len() == v.len() * 4,
    ;
    let w = decode_spec(b)->0;
    assert forall|i: int| 0 <= i < v.len() implies w[i] == v[i] by {
        assert((4 * i) / 4 == i && (4 * i) % 4 == 0 && (4 * i + 1) / 4 == i && (4 * i + 1) % 4
            == 1 && (4 * i + 2) / 4 == i && (4 * i + 2) % 4 == 2 && (4 * i + 3) / 4 == i && (4 * i
            + 3) % 4 == 3) by (nonlinear_arith);
        assert(b[4 * i] == le_byte(v[i], 0));
        assert(b[4 * i + 1] == le_byte(v[i], 1));
        assert(b[4 * i + 2] == le_byte(v[i], 2));
        assert(b[4 * i + 3] == le_byte(v[i], 3));
        let x = v[i];
        assert(word_of_bytes(x as u8, (x >> 8) as u8, (x >> 16) as u8, (x >> 24) as u8) == x)
            by (bit_vector);
    }
    assert(w =~= v);
}

/// A 1536-dimensional vector encodes to exactly 6144 bytes.
pub proof fn lemma_embedding_blob_len(v: Seq<u32>)
    requires
        v.len() == 1536,
    ensures
        encode_spec(v).len() == 6144,
{
}

/// Encode an embedding as little-endian bytes, four per word.
pub fn encode_embedding(v: &Vec<u32>) -> (r: Vec<u8>)
    requires
        v@.len() <= usize::MAX / 4,
    ensures
        r@ == encode_spec(v@),
{
    let mut r: Vec<u8> = Vec::new();
    let mut i: usize = 0;
    proof {
        assert(r@ =~= encode_spec(v@).subrange(0, 0));
    }
    while i < v.len()
        invariant
            i <= v.len(),
            v@.len() <= usize::MAX / 4,
            r@.len() == 4 * i,
            r@ == encode_spec(v@).subrange(0, 4 * i as int),
        decreases v.len() - i,
    {
        let x = v[i];
        r.push(x as u8);
        r.push((x >> 8) as u8);
        r.push((x >> 16) as u8);
        r.push((x >> 24) as u8);
        proof {
            assert forall|j: int| 0 <= j < 4 * (i + 1) implies r@[j] == encode_spec(v@)[j] by {
                if j < 4 * i {
                } else {
                    assert(j / 4 == i as int && (j % 4 == j - 4 * i)) by (nonlinear_arith)
                        requires
                            4 * i <= j < 4 * (i + 1),
                    ;
                }
            }
            assert(r@ =~= encode_spec(v@).subrange(0, 4 * (i + 1) as int));
        }
        i = i + 1;
    }
    proof {
        assert(encode_spec(v@).subrange(0, encode_spec(v@).len() as int) =~= encode_spec(v@));
    }
    r
}

/// Decode a blob of little-endian bytes back into 32-bit words; a length
/// that is not a multiple of four means the embedding is absent.
pub fn decode_embedding(blob: &Vec<u8>) -> (r: Option<Vec<u32>>)
    ensures
        r is Some <==> decode_spec(blob@) is Some,
        r is Some ==> r->0@ == decode_spec(blob@)->0,
{
    if blob.len() % 4 != 0 {
        return None;
    }
    let n = blob.len() / 4;
    let ghost target = decode_spec(blob@)->0;
    let mut out: Vec<u32> = Vec::new();
    let mut i: usize = 0;
    proof {
        assert(out@ =~= target.subrange(0, 0));
    }
    while i < n
        invariant
            i <= n,
            n == blob@.len() / 4,
            blob@.len() % 4 == 0,
            blob@.len() <= usize::MAX,
            target == decode_spec(blob@)->0,
            out@ == target.subrange(0, i as int),
        decreases n - i,
    {
        proof {
            vstd::arithmetic::div_mod::lemma_fundamental_div_mod(blob@.len() as int, 4);
            assert(4 * (n as int) == blob@.len());
            assert(4 * (i as int) + 3 < 4 * (n as int)) by (nonlinear_arith)
                requires
                    i < n,
            ;
        }
        let b0 = blob[4 * i];
        let b1 = blob[4 * i + 1];
        let b2 = blob[4 * i + 2];
        let b3 = blob[4 * i + 3];
        let w: u32 = (b0 as u32) | ((b1 as u32) << 8) | ((b2 as u32) << 16) | ((b3 as u32) << 24);
        out.push(w);
        proof {
            assert(w == target[i as int]);
            assert(out@ =~= target.subrange(0, i + 1 as int));
        }
        i = i + 1;
    }
    proof {
        assert(target.subrange(0, target.len() as int) =~= target);
    }
    Some(out)
}

} // verus!
