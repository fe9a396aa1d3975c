//! Byte-cursor input and output.
//!
//! [`ByteSliceExt`] moves a fixed-size value between a typed variable and a
//! raw byte buffer at an arbitrary, possibly unaligned, byte offset. The
//! offset is either passed explicitly ([`ByteSliceExt::read`],
//! [`ByteSliceExt::write`]) or threaded through the calls as a mutable cursor
//! that advances by the value's size ([`ByteSliceExt::read_forward`],
//! [`ByteSliceExt::write_forward`]). Every bounds obligation is a
//! precondition, discharged by proof at the call site; no operation checks,
//! fails or panics at run time.

use vstd::prelude::*;
use crate::bytes::FixedBytes;

verus! {

/// The buffer `buffer` with the bytes `bytes` written over the range that
/// starts at `offset`; everything outside that range is unchanged.
pub open spec fn splice(buffer: Seq<u8>, offset: int, bytes: Seq<u8>) -> Seq<u8> {
    buffer.take(offset) + bytes + buffer.skip(offset + bytes.len())
}

/// Writing inside the buffer's bounds keeps the buffer's length.
pub proof fn lemma_splice_len(buffer: Seq<u8>, offset: int, bytes: Seq<u8>)
    requires
        0 <= offset,
        offset + bytes.len() <= buffer.len(),
    ensures
        splice(buffer, offset, bytes).len() == buffer.len(),
{
}

/// Round trip: decoding the range that a write covered gives back exactly the
/// value that was written.
pub proof fn lemma_write_read_round_trip<T: FixedBytes>(buffer: Seq<u8>, offset: int, value: T)
    requires
        0 <= offset,
        offset + T::spec_size() <= buffer.len(),
    ensures
        T::of_spec(
            splice(buffer, offset, value.rep()).subrange(offset, offset + T::spec_size()),
        ) == value,
{
    value.lemma_rep_len();
    assert(splice(buffer, offset, value.rep()).subrange(offset, offset + T::spec_size())
        =~= value.rep());
    value.lemma_of_rep();
}

/// A later write, wholly at or past `offset`, leaves every earlier range of
/// the buffer intact.
pub proof fn lemma_write_preserves_before(
    buffer: Seq<u8>,
    offset: int,
    bytes: Seq<u8>,
    lo: int,
    hi: int,
)
    requires
        0 <= offset,
        offset + bytes.len() <= buffer.len(),
        0 <= lo <= hi <= offset,
    ensures
        splice(buffer, offset, bytes).subrange(lo, hi) == buffer.subrange(lo, hi),
{
    assert(splice(buffer, offset, bytes).subrange(lo, hi) =~= buffer.subrange(lo, hi));
}

/// The number of bytes that a list of fields occupies when packed one after
/// another.
pub open spec fn fields_len(fields: Seq<Seq<u8>>) -> nat
    decreases fields.len(),
{
    if fields.len() == 0 {
        0
    } else {
        fields[0].len() + fields_len(fields.skip(1))
    }
}

/// Where field `k` starts, relative to where packing started: the bytes of
/// the fields before it.
pub open spec fn field_offset(fields: Seq<Seq<u8>>, k: int) -> nat
    decreases k,
{
    if k <= 0 {
        0
    } else {
        fields[0].len() + field_offset(fields.skip(1), k - 1)
    }
}

/// The buffer after the fields are written one after another, the first at
/// `offset` and each next one where the previous ended — the effect of a run
/// of forward writes at a cursor that starts at `offset`.
pub open spec fn splice_all(buffer: Seq<u8>, offset: int, fields: Seq<Seq<u8>>) -> Seq<u8>
    decreases fields.len(),
{
    if fields.len() == 0 {
        buffer
    } else {
        splice_all(splice(buffer, offset, fields[0]), offset + fields[0].len(), fields.skip(1))
    }
}

/// A field ends no later than the packed run of fields does.
pub proof fn lemma_field_offset_bound(fields: Seq<Seq<u8>>, k: int)
    requires
        0 <= k < fields.len(),
    ensures
        field_offset(fields, k) + fields[k].len() <= fields_len(fields),
    decreases k,
{
    if k > 0 {
        lemma_field_offset_bound(fields.skip(1), k - 1);
        assert(fields.skip(1)[k - 1] == fields[k]);
    }
}

/// Writing a run of fields inside the buffer's bounds keeps its length.
pub proof fn lemma_splice_all_len(buffer: Seq<u8>, offset: int, fields: Seq<Seq<u8>>)
    requires
        0 <= offset,
        offset + fields_len(fields) <= buffer.len(),
    ensures
        splice_all(buffer, offset, fields).len() == buffer.len(),
    decreases fields.len(),
{
    if fields.len() > 0 {
        lemma_splice_len(buffer, offset, fields[0]);
        lemma_splice_all_len(
            splice(buffer, offset, fields[0]),
            offset + fields[0].len(),
            fields.skip(1),
        );
    }
}

/// A run of writes, wholly at or past `offset`, leaves every earlier range of
/// the buffer intact.
pub proof fn lemma_splice_all_preserves_before(
    buffer: Seq<u8>,
    offset: int,
    fields: Seq<Seq<u8>>,
    lo: int,
    hi: int,
)
    requires
        0 <= offset,
        offset + fields_len(fields) <= buffer.len(),
        0 <= lo <= hi <= offset,
    ensures
        splice_all(buffer, offset, fields).subrange(lo, hi) == buffer.subrange(lo, hi),
    decreases fields.len(),
{
    if fields.len() > 0 {
        lemma_write_preserves_before(buffer, offset, fields[0], lo, hi);
        lemma_splice_len(buffer, offset, fields[0]);
        lemma_splice_all_preserves_before(
            splice(buffer, offset, fields[0]),
            offset + fields[0].len(),
            fields.skip(1),
            lo,
            hi,
        );
    }
}

/// Packing, any number of fields: after a run of forward writes starting at
/// `offset`, the range where field `k` was written holds exactly field `k`'s
/// bytes, for every `k` — so a run of forward reads from `offset`, with the
/// same sizes in the same order, gives every field back.
pub proof fn lemma_pack_fields(buffer: Seq<u8>, offset: int, fields: Seq<Seq<u8>>, k: int)
    requires
        0 <= offset,
        offset + fields_len(fields) <= buffer.len(),
        0 <= k < fields.len(),
    ensures
        splice_all(buffer, offset, fields).len() == buffer.len(),
        field_offset(fields, k) + fields[k].len() <= fields_len(fields),
        splice_all(buffer, offset, fields).subrange(
            offset + field_offset(fields, k),
            offset + field_offset(fields, k) + fields[k].len(),
        ) == fields[k],
    decreases fields.len(),
{
    lemma_splice_all_len(buffer, offset, fields);
    lemma_field_offset_bound(fields, k);
    let head = fields[0];
    let rest = fields.skip(1);
    let once = splice(buffer, offset, head);
    lemma_splice_len(buffer, offset, head);
    if k == 0 {
        assert(once.subrange(offset, offset + head.len() as int) =~= head);
        lemma_splice_all_preserves_before(
            once,
            offset + head.len(),
            rest,
            offset,
            offset + head.len(),
        );
    } else {
        lemma_pack_fields(once, offset + head.len(), rest, k - 1);
        assert(rest[k - 1] == fields[k]);
    }
}

/// Packing: two forward writes starting at a cursor, then two forward reads
/// with the cursor reset to where it started, return both values, in order.
pub proof fn lemma_pack_pair<A: FixedBytes, B: FixedBytes>(
    buffer: Seq<u8>,
    offset: int,
    first: A,
    second: B,
)
    requires
        0 <= offset,
        offset + A::spec_size() + B::spec_size() <= buffer.len(),
    ensures
        ({
            let once = splice(buffer, offset, first.rep());
            let twice = splice(once, offset + A::spec_size(), second.rep());
            &&& A::of_spec(twice.subrange(offset, offset + A::spec_size())) == first
            &&& B::of_spec(
                twice.subrange(
                    offset + A::spec_size(),
                    offset + A::spec_size() + B::spec_size(),
                ),
            ) == second
        }),
{
    first.lemma_rep_len();
    second.lemma_rep_len();
    let once = splice(buffer, offset, first.rep());
    let twice = splice(once, offset + A::spec_size(), second.rep());
    lemma_splice_len(buffer, offset, first.rep());
    lemma_write_read_round_trip(buffer, offset, first);
    lemma_write_preserves_before(
        once,
        offset + A::spec_size(),
        second.rep(),
        offset,
        offset + A::spec_size(),
    );
    lemma_write_read_round_trip(once, offset + A::spec_size(), second);
}

/// Raw byte input and output on a byte buffer, at explicit offsets or through
/// a self-advancing cursor.
///
/// The caller owes every call the bounds invariant `offset + spec_size() <=
/// buffer length`; it is stated as a precondition and never re-checked at run
/// time.
pub trait ByteSliceExt<T: FixedBytes>: View<V = Seq<u8>> {
    /// Copies the `T::spec_size()` bytes starting at `offset` into a new
    /// value of type `T`.
    fn read(&self, offset: usize) -> (value: T)
        requires
            offset + T::spec_size() <= self@.len(),
        ensures
            value == T::of_spec(self@.subrange(offset as int, offset + T::spec_size())),
    ;

    /// Overwrites the `T::spec_size()` bytes starting at `offset` with the
    /// representation of `value`; all other bytes keep their content.
    fn write(&mut self, offset: usize, value: T)
        requires
            offset + T::spec_size() <= old(self)@.len(),
        ensures
            final(self)@ == splice(old(self)@, offset as int, value.rep()),
    ;

    /// Reads a `T` at the cursor, then advances the cursor by `T::spec_size()`.
    fn read_forward(&self, offset: &mut usize) -> (value: T)
        requires
            *old(offset) + T::spec_size() <= self@.len(),
        ensures
            *final(offset) == *old(offset) + T::spec_size(),
            value == T::of_spec(self@.subrange(*old(offset) as int, *old(offset) + T::spec_size())),
    ;

    /// Writes a `T` at the cursor, then advances the cursor by `T::spec_size()`.
    fn write_forward(&mut self, offset: &mut usize, value: T)
        requires
            *old(offset) + T::spec_size() <= old(self)@.len(),
        ensures
            *final(offset) == *old(offset) + T::spec_size(),
            final(self)@ == splice(old(self)@, *old(offset) as int, value.rep()),
    ;
}

impl<T: FixedBytes> ByteSliceExt<T> for Vec<u8> {
    fn read(&self, offset: usize) -> (value: T) {
        let len: usize = self.len();
        let n: usize = T::size();
        let mut field: Vec<u8> = Vec::new();
        let mut i: usize = 0;
        while i < n
            invariant
                n == T::spec_size(),
                i <= n,
                offset + n <= len,
                len == self@.len(),
                field@ == self@.subrange(offset as int, offset + i),
            decreases n - i,
        {
            field.push(self[offset + i]);
            i = i + 1;
            proof {
                assert(field@ =~= self@.subrange(offset as int, offset + i));
            }
        }
        T::of_bytes(field.as_slice())
    }

    fn write(&mut self, offset: usize, value: T) {
        proof {
            value.lemma_rep_len();
        }
        let len: usize = self.len();
        let field = value.to_bytes();
        let n: usize = field.len();
        let mut i: usize = 0;
        while i < n
            invariant
                field@ == value.rep(),
                n == field@.len(),
                n == T::spec_size(),
                i <= n,
                offset + n <= len,
                len == self@.len(),
                self@.len() == old(self)@.len(),
                forall|j: int| 0 <= j < i ==> self@[offset + j] == field@[j],
                forall|j: int|
                    0 <= j < self@.len() && !(offset <= j < offset + i) ==> self@[j] == old(
                        self,
                    )@[j],
            decreases n - i,
        {
            let b: u8 = field[i];
            self[offset + i] = b;
            i = i + 1;
        }
        proof {
            assert(self@ =~= splice(old(self)@, offset as int, value.rep()));
        }
    }

    fn read_forward(&self, offset: &mut usize) -> (value: T) {
        // the buffer's length fits in usize and bounds the advanced cursor,
        // so the advance cannot overflow
        let len: usize = self.len();
        let value = self.read(*offset);
        *offset = *offset + T::size();
        value
    }

    fn write_forward(&mut self, offset: &mut usize, value: T) {
        let len: usize = self.len();
        self.write(*offset, value);
        *offset = *offset + T::size();
    }
}

} // verus!
