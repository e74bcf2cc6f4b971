//! A byte-stream decorator that obscures the bytes passing through it with a
//! repeating-key XOR transform.
//!
//! [`Xor`] wraps an underlying stream value and holds a key: an ordered
//! sequence of bytes. Every byte that passes through the decorator is XOR-ed
//! successively against each key byte, in key order. Because XOR is
//! associative, a whole key collapses to a single effective mask (the XOR of
//! all its bytes), and the transform is its own inverse: applying it twice
//! with the same key restores the original bytes.
//!
//! The transform is stateless: no position counter is carried between
//! operations, so each byte is masked the same way wherever it stands in the
//! stream. An empty key leaves every byte unchanged (its effective mask is
//! zero). The default key is the single byte `0x55`.
//!
//! The I/O itself (reading from and writing to the wrapped stream) is left to
//! the caller; this crate provides the transform with its proofs.

use vstd::prelude::*;

verus! {

/// What one byte becomes under the transform: it is XOR-ed against each key
/// byte in turn, in key order.
pub open spec fn xor_all(b: u8, key: Seq<u8>) -> u8
    decreases key.len(),
{
    if key.len() == 0 {
        b
    } else {
        xor_all(b, key.drop_last()) ^ key.last()
    }
}

/// The effective mask of a key: the XOR of all its bytes. A key of any length
/// acts on a byte exactly as this single byte does (see
/// [`lemma_xor_all_is_mask`]).
pub open spec fn mask_of(key: Seq<u8>) -> u8
    decreases key.len(),
{
    if key.len() == 0 {
        0u8
    } else {
        mask_of(key.drop_last()) ^ key.last()
    }
}

/// The whole-buffer transform: every byte of `data` XOR-ed against each key
/// byte in turn. The result has the same length as `data`.
pub open spec fn transformed(data: Seq<u8>, key: Seq<u8>) -> Seq<u8> {
    Seq::new(data.len(), |i: int| xor_all(data[i], key))
}

/// Applying every key byte in turn to a byte is the same as applying the
/// key's effective mask once.
pub proof fn lemma_xor_all_is_mask(b: u8, key: Seq<u8>)
    ensures
        xor_all(b, key) == b ^ mask_of(key),
    decreases key.len(),
{
    if key.len() == 0 {
        assert(b ^ 0u8 == b) by (bit_vector);
    } else {
        lemma_xor_all_is_mask(b, key.drop_last());
        let m = mask_of(key.drop_last());
        let k = key.last();
        assert((b ^ m) ^ k == b ^ (m ^ k)) by (bit_vector);
    }
}

/// Round-trip: transforming a buffer twice with the same key restores it,
/// byte for byte, since XOR is self-inverse. In particular, decoding what was
/// encoded under a key gives back the original data, and applying the
/// transform twice is the identity.
pub proof fn lemma_round_trip(data: Seq<u8>, key: Seq<u8>)
    ensures
        transformed(transformed(data, key), key) == data,
{
    let once = transformed(data, key);
    let twice = transformed(once, key);
    assert forall|i: int| 0 <= i < data.len() implies twice[i] == data[i] by {
        lemma_xor_all_is_mask(data[i], key);
        lemma_xor_all_is_mask(once[i], key);
        let b = data[i];
        let m = mask_of(key);
        assert((b ^ m) ^ m == b) by (bit_vector);
    }
    assert(twice =~= data);
}

/// Key collapse: the two-byte key `[a, b]` transforms any buffer exactly as
/// the single-byte key `[a XOR b]` does.
pub proof fn lemma_key_collapse(data: Seq<u8>, a: u8, b: u8)
    ensures
        transformed(data, seq![a, b]) == transformed(data, seq![a ^ b]),
{
    let pair = seq![a, b];
    let folded = seq![a ^ b];
    reveal_with_fuel(mask_of, 3);
    assert(pair.drop_last() =~= seq![a]);
    assert(seq![a].drop_last() =~= Seq::<u8>::empty());
    assert(folded.drop_last() =~= Seq::<u8>::empty());
    assert(mask_of(pair) == (0u8 ^ a) ^ b);
    assert(mask_of(folded) == 0u8 ^ (a ^ b));
    assert((0u8 ^ a) ^ b == 0u8 ^ (a ^ b)) by (bit_vector);
    assert forall|i: int| 0 <= i < data.len() implies
        transformed(data, pair)[i] == transformed(data, folded)[i] by {
        lemma_xor_all_is_mask(data[i], pair);
        lemma_xor_all_is_mask(data[i], folded);
    }
    assert(transformed(data, pair) =~= transformed(data, folded));
}

/// The transform is stateless per byte: transforming a buffer and then
/// dropping a prefix gives the same bytes as dropping the prefix first and
/// transforming the rest. So a reader that seeks past `n` bytes and then
/// reads sees exactly what a reader from the start sees after discarding its
/// first `n` bytes.
pub proof fn lemma_transform_skip(data: Seq<u8>, key: Seq<u8>, n: int)
    requires
        0 <= n <= data.len(),
    ensures
        transformed(data, key).skip(n) == transformed(data.skip(n), key),
{
    assert(transformed(data, key).skip(n) =~= transformed(data.skip(n), key));
}

/// A stream decorator: the wrapped stream together with the key whose bytes
/// mask everything read from or written to it.
pub struct Xor<T> {
    /// The wrapped stream, exclusively owned for the decorator's lifetime.
    pub inner: T,
    /// The key: each byte passing through is XOR-ed against every byte of
    /// this sequence, in order.
    pub xor_bytes: Vec<u8>,
}

impl<T> Xor<T> {
    /// Wraps the given stream with the default key, the single byte `0x55`.
    pub fn new(inner: T) -> (r: Self)
        ensures
            r.inner == inner,
            r.xor_bytes@ == seq![0x55u8],
    {
        let mut xor_bytes: Vec<u8> = Vec::new();
        xor_bytes.push(0x55);
        proof {
            assert(xor_bytes@ =~= seq![0x55u8]);
        }
        Xor { inner, xor_bytes }
    }

    /// Wraps the given stream with a caller-supplied key. Any byte sequence
    /// is accepted; an empty key makes the transform the identity.
    pub fn new_with_xor_bytes(inner: T, xor_bytes: Vec<u8>) -> (r: Self)
        ensures
            r.inner == inner,
            r.xor_bytes == xor_bytes,
    {
        Xor { inner, xor_bytes }
    }

    /// The single byte that the whole key collapses to: the XOR of all key
    /// bytes.
    pub fn effective_mask(&self) -> (m: u8)
        ensures
            m == mask_of(self.xor_bytes@),
    {
        let ghost key = self.xor_bytes@;
        let mut m: u8 = 0;
        let mut i: usize = 0;
        while i < self.xor_bytes.len()
            invariant
                i <= self.xor_bytes.len(),
                key == self.xor_bytes@,
                m == mask_of(key.take(i as int)),
            decreases self.xor_bytes.len() - i,
        {
            proof {
                assert(key.take(i + 1).drop_last() =~= key.take(i as int));
                assert(key.take(i + 1).last() == key[i as int]);
            }
            m = m ^ self.xor_bytes[i];
            i = i + 1;
        }
        proof {
            assert(key.take(self.xor_bytes@.len() as int) =~= key);
        }
        m
    }

    /// The write path's transform: a fresh copy of `data` with every byte
    /// XOR-ed against each key byte in turn. The copy has the same length as
    /// `data`, so a stream that accepts it whole reports exactly
    /// `data.len()` bytes written.
    pub fn transform(&self, data: &[u8]) -> (out: Vec<u8>)
        ensures
            out@ == transformed(data@, self.xor_bytes@),
            out@.len() == data@.len(),
    {
        let m = self.effective_mask();
        let mut out: Vec<u8> = Vec::new();
        let mut i: usize = 0;
        while i < data.len()
            invariant
                i <= data@.len(),
                m == mask_of(self.xor_bytes@),
                out@ == transformed(data@, self.xor_bytes@).take(i as int),
            decreases data@.len() - i,
        {
            let b: u8 = data[i];
            out.push(b ^ m);
            proof {
                lemma_xor_all_is_mask(data@[i as int], self.xor_bytes@);
                assert(out@ =~= transformed(data@, self.xor_bytes@).take(i + 1));
            }
            i = i + 1;
        }
        proof {
            assert(transformed(data@, self.xor_bytes@).take(data@.len() as int)
                =~= transformed(data@, self.xor_bytes@));
        }
        out
    }

    /// The read path's transform: masks every byte of `buf` in place, over
    /// the buffer's full length. A reader that filled only a prefix of `buf`
    /// must go on interpreting only that prefix afterwards; the tail is
    /// masked all the same, as the stream contract allows.
    pub fn transform_in_place(&self, buf: &mut Vec<u8>)
        ensures
            final(buf)@ == transformed(old(buf)@, self.xor_bytes@),
    {
        let m = self.effective_mask();
        let mut i: usize = 0;
        while i < buf.len()
            invariant
                i <= buf@.len(),
                buf@.len() == old(buf)@.len(),
                m == mask_of(self.xor_bytes@),
                forall|j: int| i <= j < buf@.len() ==> buf@[j] == old(buf)@[j],
                forall|j: int| 0 <= j < i ==> buf@[j] == transformed(old(buf)@, self.xor_bytes@)[j],
            decreases buf@.len() - i,
        {
            let b: u8 = buf[i];
            buf.set(i, b ^ m);
            proof {
                lemma_xor_all_is_mask(old(buf)@[i as int], self.xor_bytes@);
            }
            i = i + 1;
        }
        proof {
            assert(buf@ =~= transformed(old(buf)@, self.xor_bytes@));
        }
    }
}

} // verus!

