//! Fixed-size byte representations.
//!
//! A [`FixedBytes`] value owns a byte-level representation of a known,
//! constant width: `spec_size()` bytes, least-significant byte first. Encoding
//! and decoding are exact inverses, so a value survives a round trip through a
//! raw byte buffer bit for bit.

use vstd::prelude::*;
use vstd::slice::slice_index_get;

verus! {

/// A value with a fixed-width byte representation.
///
/// The representation is `spec_size()` bytes long, least-significant byte
/// first, and decoding is a two-sided inverse of encoding: the proof
/// obligations [`FixedBytes::lemma_of_rep`] and [`FixedBytes::lemma_rep_of`]
/// make every implementation lossless in both directions.
pub trait FixedBytes: Sized {
    /// Width of the representation, in bytes.
    spec fn spec_size() -> nat;

    /// The byte representation of a value.
    spec fn rep(self) -> Seq<u8>;

    /// The value that a representation decodes to.
    spec fn of_spec(bytes: Seq<u8>) -> Self;

    /// The representation has exactly `spec_size()` bytes.
    proof fn lemma_rep_len(self)
        ensures
            self.rep().len() == Self::spec_size(),
    ;

    /// Decoding a value's representation gives the value back.
    proof fn lemma_of_rep(self)
        ensures
            Self::of_spec(self.rep()) == self,
    ;

    /// Encoding a decoded representation gives the bytes back.
    proof fn lemma_rep_of(bytes: Seq<u8>)
        requires
            bytes.len() == Self::spec_size(),
        ensures
            Self::of_spec(bytes).rep() == bytes,
    ;

    /// The width of the representation, at run time.
    fn size() -> (n: usize)
        ensures
            n == Self::spec_size(),
    ;

    /// Encodes the value into its byte representation.
    fn to_bytes(&self) -> (bytes: Vec<u8>)
        ensures
            bytes@ == self.rep(),
    ;

    /// Decodes a value from exactly `spec_size()` bytes.
    fn of_bytes(bytes: &[u8]) -> (value: Self)
        requires
            bytes@.len() == Self::spec_size(),
        ensures
            value == Self::of_spec(bytes@),
    ;
}

impl FixedBytes for u8 {
    open spec fn spec_size() -> nat {
        1
    }

    open spec fn rep(self) -> Seq<u8> {
        seq![self]
    }

    open spec fn of_spec(bytes: Seq<u8>) -> Self {
        bytes[0]
    }

    proof fn lemma_rep_len(self) {
    }

    proof fn lemma_of_rep(self) {
    }

    proof fn lemma_rep_of(bytes: Seq<u8>) {
        assert(Self::of_spec(bytes).rep() =~= bytes);
    }

    fn size() -> usize {
        1
    }

    fn to_bytes(&self) -> (bytes: Vec<u8>) {
        let mut out: Vec<u8> = Vec::new();
        out.push(*self);
        proof {
            assert(out@ =~= self.rep());
        }
        out
    }

    fn of_bytes(bytes: &[u8]) -> Self {
        *slice_index_get(bytes, 0)
    }
}

impl FixedBytes for u16 {
    open spec fn spec_size() -> nat {
        2
    }

    open spec fn rep(self) -> Seq<u8> {
        seq![(self & 0xff) as u8, ((self >> 8) & 0xff) as u8]
    }

    open spec fn of_spec(bytes: Seq<u8>) -> Self {
        (bytes[0] as u16) | ((bytes[1] as u16) << 8)
    }

    proof fn lemma_rep_len(self) {
    }

    proof fn lemma_of_rep(self) {
        let b0: u8 = (self & 0xff) as u8;
        let b1: u8 = ((self >> 8) & 0xff) as u8;
        assert((b0 as u16) | ((b1 as u16) << 8) == self) by (bit_vector)
            requires
                b0 == (self & 0xff) as u8,
                b1 == ((self >> 8) & 0xff) as u8,
        ;
    }

    proof fn lemma_rep_of(bytes: Seq<u8>) {
        let b0: u8 = bytes[0];
        let b1: u8 = bytes[1];
        let v: u16 = (b0 as u16) | ((b1 as u16) << 8);
        assert((v & 0xff) as u8 == b0 && ((v >> 8) & 0xff) as u8 == b1) by (bit_vector)
            requires
                v == (b0 as u16) | ((b1 as u16) << 8),
        ;
        assert(Self::of_spec(bytes).rep() =~= bytes);
    }

    fn size() -> usize {
        2
    }

    fn to_bytes(&self) -> (bytes: Vec<u8>) {
        let mut out: Vec<u8> = Vec::new();
        out.push((*self & 0xff) as u8);
        out.push(((*self >> 8) & 0xff) as u8);
        proof {
            assert(out@ =~= self.rep());
        }
        out
    }

    fn of_bytes(bytes: &[u8]) -> Self {
        let b0: u8 = *slice_index_get(bytes, 0);
        let b1: u8 = *slice_index_get(bytes, 1);
        (b0 as u16) | ((b1 as u16) << 8)
    }
}

impl FixedBytes for u32 {
    open spec fn spec_size() -> nat {
        4
    }

    open spec fn rep(self) -> Seq<u8> {
        seq![
            (self & 0xff) as u8,
            ((self >> 8) & 0xff) as u8,
            ((self >> 16) & 0xff) as u8,
            ((self >> 24) & 0xff) as u8,
        ]
    }

    open spec fn of_spec(bytes: Seq<u8>) -> Self {
        (bytes[0] as u32) | ((bytes[1] as u32) << 8) | ((bytes[2] as u32) << 16) | ((bytes[3]
            as u32) << 24)
    }

    proof fn lemma_rep_len(self) {
    }

    proof fn lemma_of_rep(self) {
        let b0: u8 = (self & 0xff) as u8;
        let b1: u8 = ((self >> 8) & 0xff) as u8;
        let b2: u8 = ((self >> 16) & 0xff) as u8;
        let b3: u8 = ((self >> 24) & 0xff) as u8;
        assert((b0 as u32) | ((b1 as u32) << 8) | ((b2 as u32) << 16) | ((b3 as u32) << 24)
            == self) by (bit_vector)
            requires
                b0 == (self & 0xff) as u8,
                b1 == ((self >> 8) & 0xff) as u8,
                b2 == ((self >> 16) & 0xff) as u8,
                b3 == ((self >> 24) & 0xff) as u8,
        ;
    }

    proof fn lemma_rep_of(bytes: Seq<u8>) {
        let b0: u8 = bytes[0];
        let b1: u8 = bytes[1];
        let b2: u8 = bytes[2];
        let b3: u8 = bytes[3];
        let v: u32 = (b0 as u32) | ((b1 as u32) << 8) | ((b2 as u32) << 16) | ((b3 as u32) << 24);
        assert((v & 0xff) as u8 == b0 && ((v >> 8) & 0xff) as u8 == b1 && ((v >> 16) & 0xff) as u8
            == b2 && ((v >> 24) & 0xff) as u8 == b3) by (bit_vector)
            requires
                v == (b0 as u32) | ((b1 as u32) << 8) | ((b2 as u32) << 16) | ((b3 as u32) << 24),
        ;
        assert(Self::of_spec(bytes).rep() =~= bytes);
    }

    fn size() -> usize {
        4
    }

    fn to_bytes(&self) -> (bytes: Vec<u8>) {
        let mut out: Vec<u8> = Vec::new();
        out.push((*self & 0xff) as u8);
        out.push(((*self >> 8) & 0xff) as u8);
        out.push(((*self >> 16) & 0xff) as u8);
        out.push(((*self >> 24) & 0xff) as u8);
        proof {
            assert(out@ =~= self.rep());
        }
        out
    }

    fn of_bytes(bytes: &[u8]) -> Self {
        let b0: u8 = *slice_index_get(bytes, 0);
        let b1: u8 = *slice_index_get(bytes, 1);
        let b2: u8 = *slice_index_get(bytes, 2);
        let b3: u8 = *slice_index_get(bytes, 3);
        (b0 as u32) | ((b1 as u32) << 8) | ((b2 as u32) << 16) | ((b3 as u32) << 24)
    }
}

impl FixedBytes for u64 {
    open spec fn spec_size() -> nat {
        8
    }

    open spec fn rep(self) -> Seq<u8> {
        seq![
            (self & 0xff) as u8,
            ((self >> 8) & 0xff) as u8,
            ((self >> 16) & 0xff) as u8,
            ((self >> 24) & 0xff) as u8,
            ((self >> 32) & 0xff) as u8,
            ((self >> 40) & 0xff) as u8,
            ((self >> 48) & 0xff) as u8,
            ((self >> 56) & 0xff) as u8,
        ]
    }

    open spec fn of_spec(bytes: Seq<u8>) -> Self {
        (bytes[0] as u64) | ((bytes[1] as u64) << 8) | ((bytes[2] as u64) << 16) | ((bytes[3]
            as u64) << 24) | ((bytes[4] as u64) << 32) | ((bytes[5] as u64) << 40) | ((bytes[6]
            as u64) << 48) | ((bytes[7] as u64) << 56)
    }

    proof fn lemma_rep_len(self) {
    }

    proof fn lemma_of_rep(self) {
        let b0: u8 = (self & 0xff) as u8;
        let b1: u8 = ((self >> 8) & 0xff) as u8;
        let b2: u8 = ((self >> 16) & 0xff) as u8;
        let b3: u8 = ((self >> 24) & 0xff) as u8;
        let b4: u8 = ((self >> 32) & 0xff) as u8;
        let b5: u8 = ((self >> 40) & 0xff) as u8;
        let b6: u8 = ((self >> 48) & 0xff) as u8;
        let b7: u8 = ((self >> 56) & 0xff) as u8;
        assert((b0 as u64) | ((b1 as u64) << 8) | ((b2 as u64) << 16) | ((b3 as u64) << 24) | ((
        b4 as u64) << 32) | ((b5 as u64) << 40) | ((b6 as u64) << 48) | ((b7 as u64) << 56)
            == self) by (bit_vector)
            requires
                b0 == (self & 0xff) as u8,
                b1 == ((self >> 8) & 0xff) as u8,
                b2 == ((self >> 16) & 0xff) as u8,
                b3 == ((self >> 24) & 0xff) as u8,
                b4 == ((self >> 32) & 0xff) as u8,
                b5 == ((self >> 40) & 0xff) as u8,
                b6 == ((self >> 48) & 0xff) as u8,
                b7 == ((self >> 56) & 0xff) as u8,
        ;
    }

    proof fn lemma_rep_of(bytes: Seq<u8>) {
        let b0: u8 = bytes[0];
        let b1: u8 = bytes[1];
        let b2: u8 = bytes[2];
        let b3: u8 = bytes[3];
        let b4: u8 = bytes[4];
        let b5: u8 = bytes[5];
        let b6: u8 = bytes[6];
        let b7: u8 = bytes[7];
        let v: u64 = (b0 as u64) | ((b1 as u64) << 8) | ((b2 as u64) << 16) | ((b3 as u64) << 24)
            | ((b4 as u64) << 32) | ((b5 as u64) << 40) | ((b6 as u64) << 48) | ((b7 as u64) << 56);
        assert((v & 0xff) as u8 == b0 && ((v >> 8) & 0xff) as u8 == b1 && ((v >> 16) & 0xff) as u8
            == b2 && ((v >> 24) & 0xff) as u8 == b3 && ((v >> 32) & 0xff) as u8 == b4 && ((v >> 40)
            & 0xff) as u8 == b5 && ((v >> 48) & 0xff) as u8 == b6 && ((v >> 56) & 0xff) as u8
            == b7) by (bit_vector)
            requires
                v == (b0 as u64) | ((b1 as u64) << 8) | ((b2 as u64) << 16) | ((b3 as u64) << 24)
                    | ((b4 as u64) << 32) | ((b5 as u64) << 40) | ((b6 as u64) << 48) | ((b7
                    as u64) << 56),
        ;
        assert(Self::of_spec(bytes).rep() =~= bytes);
    }

    fn size() -> usize {
        8
    }

    fn to_bytes(&self) -> (bytes: Vec<u8>) {
        let mut out: Vec<u8> = Vec::new();
        out.push((*self & 0xff) as u8);
        out.push(((*self >> 8) & 0xff) as u8);
        out.push(((*self >> 16) & 0xff) as u8);
        out.push(((*self >> 24) & 0xff) as u8);
        out.push(((*self >> 32) & 0xff) as u8);
        out.push(((*self >> 40) & 0xff) as u8);
        out.push(((*self >> 48) & 0xff) as u8);
        out.push(((*self >> 56) & 0xff) as u8);
        proof {
            assert(out@ =~= self.rep());
        }
        out
    }

    fn of_bytes(bytes: &[u8]) -> Self {
        let b0: u8 = *slice_index_get(bytes, 0);
        let b1: u8 = *slice_index_get(bytes, 1);
        let b2: u8 = *slice_index_get(bytes, 2);
        let b3: u8 = *slice_index_get(bytes, 3);
        let b4: u8 = *slice_index_get(bytes, 4);
        let b5: u8 = *slice_index_get(bytes, 5);
        let b6: u8 = *slice_index_get(bytes, 6);
        let b7: u8 = *slice_index_get(bytes, 7);
        (b0 as u64) | ((b1 as u64) << 8) | ((b2 as u64) << 16) | ((b3 as u64) << 24) | ((b4
            as u64) << 32) | ((b5 as u64) << 40) | ((b6 as u64) << 48) | ((b7 as u64) << 56)
    }
}

} // verus!
