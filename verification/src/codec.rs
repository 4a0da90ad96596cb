//! The persistence codec for embedding vectors.
//!
//! A vector is stored as the eight little-endian bytes of each component's
//! two's-complement value, in order. The encoding is exact: it determines
//! the vector bit for bit, so what is read back after a process restart is
//! what was written.

use vstd::prelude::*;

verus! {

use vstd::bytes::lemma_auto_spec_u64_to_from_le_bytes;
use vstd::bytes::spec_u64_from_le_bytes;
use vstd::bytes::spec_u64_to_le_bytes;
use vstd::bytes::u64_from_le_bytes;
use vstd::bytes::u64_to_le_bytes;
use vstd::slice::slice_subrange;
use crate::errors::PersistenceError;
use crate::models::EmbeddingEntry;

/// The byte encoding of a vector: each component in order, as the eight
/// little-endian bytes of its two's-complement value.
pub open spec fn encoded_vector(v: Seq<i64>) -> Seq<u8>
    decreases v.len(),
{
    if v.len() == 0 {
        Seq::empty()
    } else {
        encoded_vector(v.drop_last()) + spec_u64_to_le_bytes(v.last() as u64)
    }
}

/// The encoding of a vector takes eight bytes per component.
pub proof fn lemma_encoded_vector_len(v: Seq<i64>)
    ensures
        encoded_vector(v).len() == 8 * v.len(),
    decreases v.len(),
{
    lemma_auto_spec_u64_to_from_le_bytes();
    if v.len() > 0 {
        lemma_encoded_vector_len(v.drop_last());
    }
}

/// Round-trip fidelity: the encoding determines the vector exactly, so
/// decoding what was encoded gives back the original, component for
/// component.
pub proof fn lemma_encoding_injective(v1: Seq<i64>, v2: Seq<i64>)
    requires
        encoded_vector(v1) == encoded_vector(v2),
    ensures
        v1 == v2,
    decreases v1.len(),
{
    lemma_auto_spec_u64_to_from_le_bytes();
    lemma_encoded_vector_len(v1);
    lemma_encoded_vector_len(v2);
    assert(v1.len() == v2.len());
    if v1.len() > 0 {
        let n = v1.len() as int;
        let e1 = encoded_vector(v1.drop_last());
        let e2 = encoded_vector(v2.drop_last());
        lemma_encoded_vector_len(v1.drop_last());
        lemma_encoded_vector_len(v2.drop_last());
        assert(e1 =~= encoded_vector(v1).subrange(0, 8 * n - 8));
        assert(e2 =~= encoded_vector(v2).subrange(0, 8 * n - 8));
        assert(spec_u64_to_le_bytes(v1.last() as u64) =~= encoded_vector(v1).subrange(
            8 * n - 8,
            8 * n,
        ));
        assert(spec_u64_to_le_bytes(v2.last() as u64) =~= encoded_vector(v2).subrange(
            8 * n - 8,
            8 * n,
        ));
        assert(spec_u64_from_le_bytes(spec_u64_to_le_bytes(v1.last() as u64)) == v1.last()
            as u64);
        assert(v1.last() as u64 == v2.last() as u64);
        let a = v1.last();
        let b = v2.last();
        assert(a == b) by (bit_vector)
            requires
                a as u64 == b as u64,
        ;
        lemma_encoding_injective(v1.drop_last(), v2.drop_last());
        assert(v1 =~= v1.drop_last().push(v1.last()));
        assert(v2 =~= v2.drop_last().push(v2.last()));
    } else {
        assert(v1 =~= v2);
    }
}

/// Encodes a vector for persistence; eight bytes per component.
pub fn encode_vector(v: &Vec<i64>) -> (r: Vec<u8>)
    ensures
        r@ == encoded_vector(v@),
        r@.len() == 8 * v@.len(),
{
    let mut out: Vec<u8> = Vec::new();
    let mut i: usize = 0;
    while i < v.len()
        invariant
            i <= v@.len(),
            out@ == encoded_vector(v@.take(i as int)),
            out@.len() == 8 * i,
        decreases v@.len() - i,
    {
        let mut block = u64_to_le_bytes(#[verifier::truncate] (v[i] as u64));
        out.append(&mut block);
        proof {
            let t = v@.take(i + 1);
            assert(t.drop_last() =~= v@.take(i as int));
            assert(t.last() == v@[i as int]);
        }
        i = i + 1;
    }
    proof {
        assert(v@.take(v@.len() as int) =~= v@);
        lemma_encoded_vector_len(v@);
    }
    out
}

/// Decodes a persisted vector. Returns `None` exactly when the length is
/// not a multiple of eight; otherwise returns the unique vector whose
/// encoding is `bytes`.
pub fn decode_vector(bytes: &Vec<u8>) -> (r: Option<Vec<i64>>)
    ensures
        r is Some <==> bytes@.len() % 8 == 0,
        r matches Some(v) ==> encoded_vector(v@) == bytes@ && 8 * v@.len() == bytes@.len(),
{
    if bytes.len() % 8 != 0 {
        return None;
    }
    let len0 = bytes.len();
    let n = len0 / 8;
    let mut out: Vec<i64> = Vec::new();
    let mut i: usize = 0;
    while i < n
        invariant
            len0 == bytes@.len(),
            8 * n == len0,
            i <= n,
            out@.len() == i,
            encoded_vector(out@) == bytes@.subrange(0, 8 * i),
        decreases n - i,
    {
        let chunk = slice_subrange(bytes.as_slice(), 8 * i, 8 * i + 8);
        let x = u64_from_le_bytes(chunk);
        let c: i64 = #[verifier::truncate] (x as i64);
        proof {
            lemma_auto_spec_u64_to_from_le_bytes();
            assert((x as i64) as u64 == x) by (bit_vector);
            let t = out@.push(c);
            assert(t.drop_last() =~= out@);
            assert(t.last() == c);
            assert(spec_u64_to_le_bytes(spec_u64_from_le_bytes(chunk@)) == chunk@);
            assert(encoded_vector(t) =~= bytes@.subrange(0, 8 * i + 8));
        }
        out.push(c);
        i = i + 1;
    }
    proof {
        assert(bytes@.subrange(0, 8 * n) =~= bytes@);
    }
    Some(out)
}

/// Decodes the rows read back for one file: `(start_byte, end_byte, blob)`
/// becomes an [`EmbeddingEntry`] whose vector's encoding is exactly the
/// blob. Fails with `CorruptRecord` exactly when some blob is malformed.
pub fn decode_rows(rows: &Vec<(i64, i64, Vec<u8>)>) -> (r: Result<
    Vec<EmbeddingEntry>,
    PersistenceError,
>)
    ensures
        r is Ok <==> (forall|i: int|
            0 <= i < rows@.len() ==> (#[trigger] rows@[i]).2@.len() % 8 == 0),
        r matches Ok(es) ==> {
            &&& es@.len() == rows@.len()
            &&& forall|i: int|
                0 <= i < rows@.len() ==> {
                    &&& (#[trigger] es@[i]).start_byte == rows@[i].0
                    &&& es@[i].end_byte == rows@[i].1
                    &&& encoded_vector(es@[i].embedding@) == rows@[i].2@
                }
        },
        r is Err ==> r == Err::<Vec<EmbeddingEntry>, PersistenceError>(
            PersistenceError::CorruptRecord,
        ),
{
    let mut out: Vec<EmbeddingEntry> = Vec::new();
    let mut i: usize = 0;
    while i < rows.len()
        invariant
            i <= rows@.len(),
            out@.len() == i,
            forall|j: int| 0 <= j < i ==> (#[trigger] rows@[j]).2@.len() % 8 == 0,
            forall|j: int|
                0 <= j < i ==> {
                    &&& (#[trigger] out@[j]).start_byte == rows@[j].0
                    &&& out@[j].end_byte == rows@[j].1
                    &&& encoded_vector(out@[j].embedding@) == rows@[j].2@
                },
        decreases rows@.len() - i,
    {
        match decode_vector(&rows[i].2) {
            None => {
                return Err(PersistenceError::CorruptRecord);
            },
            Some(v) => {
                out.push(
                    EmbeddingEntry {
                        start_byte: rows[i].0,
                        end_byte: rows[i].1,
                        embedding: v,
                    },
                );
            },
        }
        i = i + 1;
    }
    Ok(out)
}

} // verus!
