//! The buffer substrate: an append-only aligned byte store for serialization
//! and a cursored view over it for deserialization.
//!
//! The backing store is an `aligned_vec::AVec` of bytes, whose allocation is
//! aligned to the base alignment chosen at construction (a power of two; the
//! store's constructor refuses anything else).  The base alignment must be
//! at least the alignment of every record that will ever be written, so that
//! byte 0 of the buffer — and with it every in-buffer offset the codec
//! aligns — is aligned in memory as well.  That memory-level fact is the
//! allocator's business; everything the codec proves is stated over byte
//! offsets within the store.

use vstd::prelude::*;
use crate::bytes::{is_pow2, pad_len, zeros};

verus! {

/// A growable byte store whose allocation is aligned to the base alignment
/// given at construction.  The contents are named by [`ab_bytes`]; each
/// method is a thin trusted layer over one `aligned_vec::AVec` operation.
#[verifier::external_body]
pub struct AlignedBytes {
    data: aligned_vec::AVec<u8, aligned_vec::RuntimeAlign>,
}

/// The bytes held by an [`AlignedBytes`] store, in order.
pub uninterp spec fn ab_bytes(b: &AlignedBytes) -> Seq<u8>;

impl AlignedBytes {
    /// Relies on `aligned_vec::AVec::<u8, RuntimeAlign>::new`: a new vector
    /// is empty.  Its `RuntimeAlign::new` panics when a nonzero `align` is
    /// not a power of two, so the requires leaves those inputs out; zero
    /// falls back to the element type's own alignment.
    #[verifier::external_body]
    pub fn new(align: usize) -> (r: AlignedBytes)
        requires
            align == 0 || is_pow2(align as nat),
        ensures
            ab_bytes(&r) == Seq::<u8>::empty(),
    {
        AlignedBytes { data: aligned_vec::AVec::new(align) }
    }

    /// Relies on `aligned_vec::AVec::len`: the number of elements held.
    #[verifier::external_body]
    pub fn len(&self) -> (r: usize)
        ensures
            r == ab_bytes(self).len(),
    {
        self.data.len()
    }

    /// Relies on `aligned_vec::AVec::push`: appends one element at the end
    /// (aborting the process if the allocation cannot grow).
    #[verifier::external_body]
    pub fn push(&mut self, b: u8)
        ensures
            ab_bytes(final(self)) == ab_bytes(old(self)).push(b),
    {
        self.data.push(b);
    }

    /// Relies on `aligned_vec::AVec::extend_from_slice`: appends the slice's
    /// elements in order at the end.
    #[verifier::external_body]
    pub fn extend_from_slice(&mut self, s: &[u8])
        ensures
            ab_bytes(final(self)) == ab_bytes(old(self)) + s@,
    {
        self.data.extend_from_slice(s);
    }

    /// Relies on `aligned_vec::AVec`'s `Deref` to `[u8]`: reads the element
    /// at `i`.
    #[verifier::external_body]
    pub fn byte_at(&self, i: usize) -> (r: u8)
        requires
            i < ab_bytes(self).len(),
        ensures
            r == ab_bytes(self)[i as int],
    {
        self.data[i]
    }

    /// Relies on `aligned_vec::AVec`'s `DerefMut` to `[u8]`: overwrites the
    /// element at `i`.
    #[verifier::external_body]
    pub fn set_byte(&mut self, i: usize, b: u8)
        requires
            i < ab_bytes(old(self)).len(),
        ensures
            ab_bytes(final(self)) == ab_bytes(old(self)).update(i as int, b),
    {
        self.data[i] = b;
    }
}

/// A buffer that serialization appends to.
///
/// `buf()` names the bytes written so far; `align` pads with zero bytes up to
/// the next multiple of the given alignment, `push_slice` appends, and
/// `set_byte` rewrites one already-written byte (the pointer-slot rewrite
/// protocol patches length tags into the shallow copy this way).
pub trait CDumpWriter: Sized {
    /// The bytes written so far.
    spec fn buf(&self) -> Seq<u8>;

    /// Pad with zero bytes until the length is a multiple of `a`.
    fn align(&mut self, a: usize)
        requires
            a >= 1,
        ensures
            final(self).buf() == old(self).buf()
                + zeros(pad_len(old(self).buf().len() as int, a as int)),
            (final(self).buf().len() as int) % (a as int) == 0,
    ;

    /// Append the slice to the buffer.
    fn push_slice(&mut self, s: &[u8])
        ensures
            final(self).buf() == old(self).buf() + s@,
    ;

    /// Current length of the buffer.
    fn len(&self) -> (r: usize)
        ensures
            r == self.buf().len(),
    ;

    /// Overwrite the byte at `index` with `b`.
    fn set_byte(&mut self, index: usize, b: u8)
        requires
            index < old(self).buf().len(),
        ensures
            final(self).buf() == old(self).buf().update(index as int, b),
    ;

    /// Whether nothing has been written yet.
    fn is_empty(&self) -> (r: bool)
        ensures
            r == (self.buf().len() == 0),
    {
        self.len() == 0
    }
}

/// A cursored view over a dumped buffer that deserialization consumes.
pub trait CDumpReader: Sized {
    /// The whole underlying byte buffer.
    spec fn buf(&self) -> Seq<u8>;

    /// The cursor: how many bytes have been consumed.
    spec fn read(&self) -> int;

    /// The cursor never leaves the buffer.
    spec fn inv(&self) -> bool;

    /// Advance the cursor to the next multiple of `a`.
    fn align(&mut self, a: usize)
        requires
            old(self).inv(),
            a >= 1,
            old(self).read() + pad_len(old(self).read(), a as int) <= old(self).buf().len(),
        ensures
            final(self).inv(),
            final(self).buf() == old(self).buf(),
            final(self).read() == old(self).read() + pad_len(old(self).read(), a as int),
            final(self).read() % (a as int) == 0,
    ;

    /// Add `len` to the cursor without reading.
    fn add_read(&mut self, len: usize)
        requires
            old(self).inv(),
            old(self).read() + len <= old(self).buf().len(),
        ensures
            final(self).inv(),
            final(self).buf() == old(self).buf(),
            final(self).read() == old(self).read() + len,
    ;

    /// Consume the next `len` bytes and return a copy of them.
    fn read_slice(&mut self, len: usize) -> (r: Vec<u8>)
        requires
            old(self).inv(),
            old(self).read() + len <= old(self).buf().len(),
        ensures
            final(self).inv(),
            final(self).buf() == old(self).buf(),
            final(self).read() == old(self).read() + len,
            r@ == old(self).buf().subrange(old(self).read(), old(self).read() + len),
    ;

    /// Read the byte at `index` without moving the cursor.
    fn byte_at(&self, index: usize) -> (r: u8)
        requires
            self.inv(),
            index < self.buf().len(),
        ensures
            r == self.buf()[index as int],
    ;

    /// The cursor position.
    fn get_read(&self) -> (r: usize)
        ensures
            r == self.read(),
    ;
}

/// The built-in buffer writer: an aligned byte store that serialization
/// appends to.
pub struct CDumpBufferWriter {
    data: AlignedBytes,
}

impl CDumpBufferWriter {
    /// A fresh, empty writer whose backing allocation is aligned to `align`
    /// bytes: a power of two at least the alignment of every record that
    /// will be serialized into it (or zero, for the minimum).
    pub fn new(align: usize) -> (r: CDumpBufferWriter)
        requires
            align == 0 || is_pow2(align as nat),
        ensures
            r.buf() == Seq::<u8>::empty(),
    {
        CDumpBufferWriter { data: AlignedBytes::new(align) }
    }

    /// Hand the written buffer over to a reader, cursor at the start.
    pub fn into_reader(self) -> (r: CDumpBufferReader)
        ensures
            r.inv(),
            r.buf() == self.buf(),
            r.read() == 0,
    {
        CDumpBufferReader::new(self.data)
    }

    /// Give up the writer and keep its backing store.
    pub fn into_bytes(self) -> (r: AlignedBytes)
        ensures
            ab_bytes(&r) == self.buf(),
    {
        self.data
    }
}

impl CDumpWriter for CDumpBufferWriter {
    closed spec fn buf(&self) -> Seq<u8> {
        ab_bytes(&self.data)
    }

    fn align(&mut self, a: usize) {
        let ghost start = ab_bytes(&self.data);
        proof {
            crate::bytes::lemma_pad_len_bounds(start.len() as int, a as int);
        }
        let len = self.data.len();
        let m = len % a;
        if m == 0 {
            proof {
                assert(ab_bytes(&self.data) =~= start + zeros(0));
            }
        } else {
            let missing = a - m;
            let mut j: usize = 0;
            proof {
                assert(ab_bytes(&self.data) =~= start + zeros(0));
            }
            while j < missing
                invariant
                    j <= missing,
                    missing == pad_len(start.len() as int, a as int),
                    ab_bytes(&self.data) == start + zeros(j as int),
                decreases missing - j,
            {
                proof {
                    assert((start + zeros(j as int)).push(0u8) =~= start + zeros(j + 1));
                }
                self.data.push(0);
                j = j + 1;
            }
        }
    }

    fn push_slice(&mut self, s: &[u8]) {
        self.data.extend_from_slice(s);
    }

    fn len(&self) -> (r: usize) {
        self.data.len()
    }

    fn set_byte(&mut self, index: usize, b: u8) {
        self.data.set_byte(index, b);
    }
}

/// The built-in buffer reader: a cursor over a dumped byte store.
pub struct CDumpBufferReader {
    data: AlignedBytes,
    read: usize,
}

impl CDumpBufferReader {
    /// A reader over `data`, cursor at byte 0.  The store's base alignment
    /// must equal the one the buffer was written with.
    pub fn new(data: AlignedBytes) -> (r: CDumpBufferReader)
        ensures
            r.inv(),
            r.buf() == ab_bytes(&data),
            r.read() == 0,
    {
        CDumpBufferReader { data, read: 0 }
    }
}

impl CDumpReader for CDumpBufferReader {
    closed spec fn buf(&self) -> Seq<u8> {
        ab_bytes(&self.data)
    }

    closed spec fn read(&self) -> int {
        self.read as int
    }

    closed spec fn inv(&self) -> bool {
        self.read <= ab_bytes(&self.data).len()
    }

    fn align(&mut self, a: usize) {
        proof {
            crate::bytes::lemma_pad_len_bounds(self.read as int, a as int);
        }
        let _total = self.data.len();
        let m = self.read % a;
        if m != 0 {
            self.read = self.read + (a - m);
        }
    }

    fn add_read(&mut self, len: usize) {
        let _total = self.data.len();
        self.read = self.read + len;
    }

    fn read_slice(&mut self, len: usize) -> (r: Vec<u8>) {
        let total = self.data.len();
        let mut r: Vec<u8> = Vec::new();
        let mut i: usize = 0;
        while i < len
            invariant
                i <= len,
                self.read + len <= ab_bytes(&self.data).len(),
                ab_bytes(&self.data).len() == total,
                r@ == ab_bytes(&self.data).subrange(self.read as int, self.read + i),
            decreases len - i,
        {
            let b = self.data.byte_at(self.read + i);
            r.push(b);
            proof {
                assert(r@ =~= ab_bytes(&self.data).subrange(self.read as int, self.read + i + 1));
            }
            i = i + 1;
        }
        self.read = self.read + len;
        r
    }

    fn byte_at(&self, index: usize) -> (r: u8) {
        self.data.byte_at(index)
    }

    fn get_read(&self) -> (r: usize) {
        self.read
    }
}

/// Pad the writer to a multiple of `align` (the writer-side alignment step of
/// every record and array region emit).
pub fn align_writer<T1: CDumpWriter>(buf: &mut T1, align: usize)
    requires
        align >= 1,
    ensures
        final(buf).buf() == old(buf).buf()
            + zeros(pad_len(old(buf).buf().len() as int, align as int)),
        (final(buf).buf().len() as int) % (align as int) == 0,
{
    buf.align(align);
}

/// Advance the reader's cursor to a multiple of `align` (the reader-side
/// mirror of [`align_writer`]; it re-derives the padding from alignment
/// alone).
pub fn align_reader<T1: CDumpReader>(buf: &mut T1, align: usize)
    requires
        buf.inv(),
        align >= 1,
        old(buf).read() + pad_len(old(buf).read(), align as int) <= old(buf).buf().len(),
    ensures
        final(buf).inv(),
        final(buf).buf() == old(buf).buf(),
        final(buf).read() == old(buf).read() + pad_len(old(buf).read(), align as int),
        final(buf).read() % (align as int) == 0,
{
    buf.align(align);
}

/// Overwrite the pointer-sized slot at `index` with the little-endian image
/// of `len`: the length-tag write of the pointer-slot rewrite protocol.
pub fn set_length_in_ptr<T1: CDumpWriter>(buf: &mut T1, index: usize, len: u64)
    requires
        index + 8 <= old(buf).buf().len(),
    ensures
        final(buf).buf().len() == old(buf).buf().len(),
        forall|j: int| 0 <= j < old(buf).buf().len() && !(index <= j < index + 8)
            ==> final(buf).buf()[j] == old(buf).buf()[j],
        final(buf).buf().subrange(index as int, index + 8)
            == crate::bytes::le_bytes(len as nat, 8),
{
    let tag = crate::bytes::u64_to_le8(len);
    let total = buf.len();
    let mut i: usize = 0;
    while i < 8
        invariant
            i <= 8,
            index + 8 <= buf.buf().len(),
            buf.buf().len() == old(buf).buf().len(),
            buf.buf().len() == total,
            tag@ == crate::bytes::le_bytes(len as nat, 8),
            tag@.len() == 8,
            forall|j: int| 0 <= j < old(buf).buf().len() && !(index <= j < index + i)
                ==> buf.buf()[j] == old(buf).buf()[j],
            forall|j: int| 0 <= j < i ==> buf.buf()[index + j] == tag@[j],
        decreases 8 - i,
    {
        buf.set_byte(index + i, tag[i]);
        i = i + 1;
    }
    proof {
        assert(buf.buf().subrange(index as int, index + 8) =~= tag@);
    }
}

} // verus!
