//! Serialization of plain integers through the buffer traits: the built-in
//! implementations of [`CSerialize`] and [`CDeserialize`].
//!
//! A primitive's dump is padding up to its own alignment followed by its
//! little-endian bytes — two's complement for the signed types, and the
//! model's fixed eight-byte word for `usize`/`isize`; it has no deep part,
//! so the without-shallow-copy pass writes nothing.

use vstd::prelude::*;
use crate::buffer::{CDumpReader, CDumpWriter};
use crate::bytes::{
    bytes_at, le_bytes, le_val, lemma_bytes_at_concat, lemma_le_bytes_len, lemma_le_roundtrip,
    lemma_le_val_bound, lemma_pow256_monotone, pad_len, pow256, read_le, zeros,
};

verus! {

/// The wire image of a `width`-byte primitive of value `val` appended when
/// the buffer holds `pos` bytes.
pub open spec fn prim_enc(val: nat, width: nat, pos: int) -> Seq<u8> {
    zeros(pad_len(pos, width as int)) + le_bytes(val, width)
}

/// Serializing a value appends its wire image to the buffer.
pub trait CSerialize<T: CDumpWriter>: Sized {
    /// The bytes this value dumps to when the buffer holds `pos` bytes.
    spec fn wire(&self, pos: int) -> Seq<u8>;

    /// Append the value's dump to the buffer.
    fn serialize(&self, buf: &mut T)
        ensures
            final(buf).buf() == old(buf).buf() + self.wire(old(buf).buf().len() as int),
    ;

    /// Append the deep part only; a primitive has none.
    fn serialize_without_shallow_copy(&self, buf: &mut T, start_index: usize)
        ensures
            final(buf).buf() == old(buf).buf(),
    ;
}

/// Deserializing returns the value whose wire image sits at the cursor.
pub trait CDeserialize<T: CDumpReader>: Sized {
    /// The bytes a value of this type dumps to when the buffer holds `pos`
    /// bytes.
    spec fn wire_at(&self, pos: int) -> Seq<u8>;

    /// Read the value whose dump sits at the cursor, advancing past it.
    fn deserialize(buf: &mut T) -> (r: Self)
        requires
            old(buf).inv(),
            exists|x: Self|
                bytes_at(old(buf).buf(), old(buf).read(),
                    x.wire_at(old(buf).read())),
        ensures
            final(buf).inv(),
            final(buf).buf() == old(buf).buf(),
            forall|x: Self|
                bytes_at(old(buf).buf(), old(buf).read(), x.wire_at(old(buf).read()))
                    ==> r == x && final(buf).read() == old(buf).read()
                        + x.wire_at(old(buf).read()).len(),
    ;

    /// Read the value whose dump sits at the cursor into `dst`.
    fn deserialize_to(buf: &mut T, dst: &mut Self)
        requires
            old(buf).inv(),
            exists|x: Self|
                bytes_at(old(buf).buf(), old(buf).read(),
                    x.wire_at(old(buf).read())),
        ensures
            final(buf).inv(),
            final(buf).buf() == old(buf).buf(),
            forall|x: Self|
                bytes_at(old(buf).buf(), old(buf).read(), x.wire_at(old(buf).read()))
                    ==> *final(dst) == x && final(buf).read() == old(buf).read()
                        + x.wire_at(old(buf).read()).len(),
    ;
}

/// Little-endian bytes of `x`, `width` of them (the value taken modulo
/// `256^width`).
fn u64_to_le(x: u64, width: usize) -> (r: Vec<u8>)
    requires
        width <= 8,
    ensures
        r@ == le_bytes(x as nat, width as nat),
        r@.len() == width,
{
    let mut r: Vec<u8> = Vec::new();
    let mut cur: u64 = x;
    let mut i: usize = 0;
    while i < width
        invariant
            i <= width,
            r@.len() == i,
            le_bytes(x as nat, width as nat) =~= r@ + le_bytes(cur as nat, (width - i) as nat),
        decreases width - i,
    {
        proof {
            lemma_le_bytes_len(cur as nat, (width - i) as nat);
            assert(le_bytes(cur as nat, (width - i) as nat) ==
                seq![(cur as nat % 256) as u8]
                    + le_bytes(cur as nat / 256, (width - i - 1) as nat));
        }
        r.push((cur % 256) as u8);
        cur = cur / 256;
        i = i + 1;
    }
    proof {
        assert(le_bytes(cur as nat, 0) =~= Seq::<u8>::empty());
        assert(r@ =~= le_bytes(x as nat, width as nat));
        lemma_le_bytes_len(x as nat, width as nat);
    }
    r
}

/// Append the dump of a `width`-byte unsigned value.
fn write_uint<T: CDumpWriter>(buf: &mut T, val: u64, width: usize)
    requires
        1 <= width <= 8,
    ensures
        final(buf).buf() == old(buf).buf()
            + prim_enc(val as nat, width as nat, old(buf).buf().len() as int),
{
    buf.align(width);
    let b = u64_to_le(val, width);
    buf.push_slice(b.as_slice());
    proof {
        let pos = old(buf).buf().len() as int;
        assert(old(buf).buf() + zeros(pad_len(pos, width as int)) + b@
            =~= old(buf).buf() + (zeros(pad_len(pos, width as int))
                + le_bytes(val as nat, width as nat)));
    }
}

/// Consume the dump of a `width`-byte unsigned value and return it.
fn read_uint<T: CDumpReader>(buf: &mut T, width: usize, Ghost(val): Ghost<u64>) -> (r: u64)
    requires
        old(buf).inv(),
        1 <= width <= 8,
        (val as nat) < pow256(width as nat),
        bytes_at(old(buf).buf(), old(buf).read(),
            prim_enc(val as nat, width as nat, old(buf).read())),
    ensures
        final(buf).inv(),
        final(buf).buf() == old(buf).buf(),
        r == val,
        final(buf).read() == old(buf).read()
            + prim_enc(val as nat, width as nat, old(buf).read()).len(),
{
    let ghost c0 = old(buf).read();
    let ghost p = zeros(pad_len(c0, width as int));
    let ghost w = le_bytes(val as nat, width as nat);
    proof {
        lemma_le_bytes_len(val as nat, width as nat);
        lemma_bytes_at_concat(buf.buf(), c0, p, w);
    }
    buf.align(width);
    let bytes = buf.read_slice(width);
    proof {
        assert(bytes@ == w);
        assert(bytes@.subrange(0, width as int) =~= bytes@);
    }
    let r = read_le(&bytes, 0, width);
    proof {
        lemma_le_roundtrip(val as nat, width as nat);
        assert(r as nat == le_val(w));
    }
    r
}

/// The unsigned word a signed value dumps to: the value itself when it is
/// not negative, its two's complement in `width` bytes otherwise.
pub open spec fn signed_word(x: int, width: nat) -> nat {
    if x >= 0 {
        x as nat
    } else {
        (x + pow256(width)) as nat
    }
}

/// Two signed values of one width with the same word are the same value.
proof fn lemma_signed_word_inj(a: int, b: int, width: nat, h: nat)
    requires
        pow256(width) == 2 * h,
        -(h as int) <= a < h,
        -(h as int) <= b < h,
        signed_word(a, width) == signed_word(b, width),
    ensures
        a == b,
{
}

/// Little-endian bytes of `x`, `width` of them, for widths past a machine
/// word (the value taken modulo `256^width`).
fn u128_to_le(x: u128, width: usize) -> (r: Vec<u8>)
    requires
        width <= 16,
    ensures
        r@ == le_bytes(x as nat, width as nat),
        r@.len() == width,
{
    let mut r: Vec<u8> = Vec::new();
    let mut cur: u128 = x;
    let mut i: usize = 0;
    while i < width
        invariant
            i <= width,
            r@.len() == i,
            le_bytes(x as nat, width as nat) =~= r@ + le_bytes(cur as nat, (width - i) as nat),
        decreases width - i,
    {
        proof {
            lemma_le_bytes_len(cur as nat, (width - i) as nat);
            assert(le_bytes(cur as nat, (width - i) as nat) ==
                seq![(cur as nat % 256) as u8]
                    + le_bytes(cur as nat / 256, (width - i - 1) as nat));
        }
        r.push((cur % 256) as u8);
        cur = cur / 256;
        i = i + 1;
    }
    proof {
        assert(le_bytes(cur as nat, 0) =~= Seq::<u8>::empty());
        assert(r@ =~= le_bytes(x as nat, width as nat));
        lemma_le_bytes_len(x as nat, width as nat);
    }
    r
}

/// Decode the `width`-byte little-endian integer at `off` in `bytes`, for
/// widths past a machine word.
fn read_le_wide(bytes: &Vec<u8>, off: usize, width: usize) -> (r: u128)
    requires
        width <= 16,
        off + width <= bytes@.len(),
    ensures
        r as nat == le_val(bytes@.subrange(off as int, off + width)),
{
    let mut acc: u128 = 0;
    let mut i: usize = width;
    let n = bytes.len();
    proof {
        assert(bytes@.subrange(off + width, off + width) =~= Seq::<u8>::empty());
    }
    while i > 0
        invariant
            i <= width,
            width <= 16,
            off + width <= bytes@.len(),
            bytes@.len() == n,
            acc as nat == le_val(bytes@.subrange(off + i, off + width)),
            (acc as nat) < pow256((width - i) as nat),
        decreases i,
    {
        proof {
            lemma_le_val_bound(bytes@.subrange(off + i, off + width));
            assert(pow256((width - i) as nat) <= pow256(15)) by {
                lemma_pow256_monotone((width - i) as nat, 15);
            }
            reveal_with_fuel(pow256, 17);
        }
        i = i - 1;
        let b = bytes[off + i];
        proof {
            let s = bytes@.subrange(off + i, off + width);
            assert(s[0] == bytes@[off + i]);
            assert(s.skip(1) =~= bytes@.subrange(off + i + 1, off + width));
            assert(256 * (acc as nat) + b <= 256 * (pow256((width - i - 1) as nat) - 1) + 255)
                by (nonlinear_arith)
                requires (acc as nat) < pow256((width - i - 1) as nat) && b < 256;
            assert(256 * pow256((width - i - 1) as nat) == pow256((width - i) as nat));
        }
        acc = acc * 256 + (b as u128);
    }
    acc
}

/// Append the dump of a `width`-byte unsigned value past a machine word.
fn write_uint_wide<T: CDumpWriter>(buf: &mut T, val: u128, width: usize)
    requires
        1 <= width <= 16,
    ensures
        final(buf).buf() == old(buf).buf()
            + prim_enc(val as nat, width as nat, old(buf).buf().len() as int),
{
    buf.align(width);
    let b = u128_to_le(val, width);
    buf.push_slice(b.as_slice());
    proof {
        let pos = old(buf).buf().len() as int;
        assert(old(buf).buf() + zeros(pad_len(pos, width as int)) + b@
            =~= old(buf).buf() + (zeros(pad_len(pos, width as int))
                + le_bytes(val as nat, width as nat)));
    }
}

/// Consume the dump of a `width`-byte unsigned value past a machine word.
fn read_uint_wide<T: CDumpReader>(buf: &mut T, width: usize, Ghost(val): Ghost<u128>)
    -> (r: u128)
    requires
        old(buf).inv(),
        1 <= width <= 16,
        (val as nat) < pow256(width as nat),
        bytes_at(old(buf).buf(), old(buf).read(),
            prim_enc(val as nat, width as nat, old(buf).read())),
    ensures
        final(buf).inv(),
        final(buf).buf() == old(buf).buf(),
        r == val,
        final(buf).read() == old(buf).read()
            + prim_enc(val as nat, width as nat, old(buf).read()).len(),
{
    let ghost c0 = old(buf).read();
    let ghost p = zeros(pad_len(c0, width as int));
    let ghost w = le_bytes(val as nat, width as nat);
    proof {
        lemma_le_bytes_len(val as nat, width as nat);
        lemma_bytes_at_concat(buf.buf(), c0, p, w);
    }
    buf.align(width);
    let bytes = buf.read_slice(width);
    proof {
        assert(bytes@ == w);
        assert(bytes@.subrange(0, width as int) =~= bytes@);
    }
    let r = read_le_wide(&bytes, 0, width);
    proof {
        lemma_le_roundtrip(val as nat, width as nat);
        assert(r as nat == le_val(w));
    }
    r
}

/// `256^16`, the number of values a sixteen-byte slot can hold.
proof fn lemma_pow256_16()
    ensures
        pow256(16) == 0x1_0000_0000_0000_0000_0000_0000_0000_0000,
{
    reveal_with_fuel(pow256, 17);
}

/// Two values below the slot bound with the same image are the same value.
proof fn lemma_le_bytes_inj(a: nat, b: nat, n: nat)
    requires
        a < pow256(n),
        b < pow256(n),
        le_bytes(a, n) == le_bytes(b, n),
    ensures
        a == b,
{
    lemma_le_roundtrip(a, n);
    lemma_le_roundtrip(b, n);
}

/// Two primitive values whose dumps sit at the same position are equal.
proof fn lemma_prim_enc_unique(b: Seq<u8>, c: int, a1: nat, a2: nat, w: nat)
    requires
        w >= 1,
        a1 < pow256(w),
        a2 < pow256(w),
        bytes_at(b, c, prim_enc(a1, w, c)),
        bytes_at(b, c, prim_enc(a2, w, c)),
    ensures
        a1 == a2,
{
    lemma_le_bytes_len(a1, w);
    lemma_le_bytes_len(a2, w);
    let p = zeros(pad_len(c, w as int));
    lemma_bytes_at_concat(b, c, p, le_bytes(a1, w));
    lemma_bytes_at_concat(b, c, p, le_bytes(a2, w));
    assert(le_bytes(a1, w) == b.subrange(c + p.len(), c + p.len() + w as int));
    assert(le_bytes(a2, w) == b.subrange(c + p.len(), c + p.len() + w as int));
    lemma_le_bytes_inj(a1, a2, w);
}

impl<T: CDumpWriter> CSerialize<T> for u8 {
    open spec fn wire(&self, pos: int) -> Seq<u8> {
        prim_enc(*self as nat, 1, pos)
    }

    fn serialize(&self, buf: &mut T) {
        write_uint(buf, *self as u64, 1);
    }

    fn serialize_without_shallow_copy(&self, _buf: &mut T, _start_index: usize) {
    }
}

impl<T: CDumpReader> CDeserialize<T> for u8 {
    open spec fn wire_at(&self, pos: int) -> Seq<u8> {
        prim_enc(*self as nat, 1, pos)
    }

    fn deserialize(buf: &mut T) -> (r: Self) {
        let ghost x0 = choose|x: u8|
            bytes_at(old(buf).buf(), old(buf).read(),
                <u8 as CDeserialize<T>>::wire_at(&x, old(buf).read()));
        proof {
            reveal_with_fuel(pow256, 2);
        }
        let r64 = read_uint(buf, 1, Ghost(x0 as u64));
        let r = r64 as u8;
        proof {
            assert forall|x: u8|
                bytes_at(old(buf).buf(), old(buf).read(),
                    <u8 as CDeserialize<T>>::wire_at(&x, old(buf).read()))
                implies r == x by {
                lemma_prim_enc_unique(old(buf).buf(), old(buf).read(),
                    x as nat, x0 as nat, 1);
            }
        }
        r
    }

    fn deserialize_to(buf: &mut T, dst: &mut Self) {
        let r = Self::deserialize(buf);
        *dst = r;
    }
}

impl<T: CDumpWriter> CSerialize<T> for u16 {
    open spec fn wire(&self, pos: int) -> Seq<u8> {
        prim_enc(*self as nat, 2, pos)
    }

    fn serialize(&self, buf: &mut T) {
        write_uint(buf, *self as u64, 2);
    }

    fn serialize_without_shallow_copy(&self, _buf: &mut T, _start_index: usize) {
    }
}

impl<T: CDumpReader> CDeserialize<T> for u16 {
    open spec fn wire_at(&self, pos: int) -> Seq<u8> {
        prim_enc(*self as nat, 2, pos)
    }

    fn deserialize(buf: &mut T) -> (r: Self) {
        let ghost x0 = choose|x: u16|
            bytes_at(old(buf).buf(), old(buf).read(),
                <u16 as CDeserialize<T>>::wire_at(&x, old(buf).read()));
        proof {
            reveal_with_fuel(pow256, 3);
        }
        let r64 = read_uint(buf, 2, Ghost(x0 as u64));
        let r = r64 as u16;
        proof {
            assert forall|x: u16|
                bytes_at(old(buf).buf(), old(buf).read(),
                    <u16 as CDeserialize<T>>::wire_at(&x, old(buf).read()))
                implies r == x by {
                lemma_prim_enc_unique(old(buf).buf(), old(buf).read(),
                    x as nat, x0 as nat, 2);
            }
        }
        r
    }

    fn deserialize_to(buf: &mut T, dst: &mut Self) {
        let r = Self::deserialize(buf);
        *dst = r;
    }
}

impl<T: CDumpWriter> CSerialize<T> for u32 {
    open spec fn wire(&self, pos: int) -> Seq<u8> {
        prim_enc(*self as nat, 4, pos)
    }

    fn serialize(&self, buf: &mut T) {
        write_uint(buf, *self as u64, 4);
    }

    fn serialize_without_shallow_copy(&self, _buf: &mut T, _start_index: usize) {
    }
}

impl<T: CDumpReader> CDeserialize<T> for u32 {
    open spec fn wire_at(&self, pos: int) -> Seq<u8> {
        prim_enc(*self as nat, 4, pos)
    }

    fn deserialize(buf: &mut T) -> (r: Self) {
        let ghost x0 = choose|x: u32|
            bytes_at(old(buf).buf(), old(buf).read(),
                <u32 as CDeserialize<T>>::wire_at(&x, old(buf).read()));
        proof {
            reveal_with_fuel(pow256, 5);
        }
        let r64 = read_uint(buf, 4, Ghost(x0 as u64));
        let r = r64 as u32;
        proof {
            assert forall|x: u32|
                bytes_at(old(buf).buf(), old(buf).read(),
                    <u32 as CDeserialize<T>>::wire_at(&x, old(buf).read()))
                implies r == x by {
                lemma_prim_enc_unique(old(buf).buf(), old(buf).read(),
                    x as nat, x0 as nat, 4);
            }
        }
        r
    }

    fn deserialize_to(buf: &mut T, dst: &mut Self) {
        let r = Self::deserialize(buf);
        *dst = r;
    }
}

impl<T: CDumpWriter> CSerialize<T> for u64 {
    open spec fn wire(&self, pos: int) -> Seq<u8> {
        prim_enc(*self as nat, 8, pos)
    }

    fn serialize(&self, buf: &mut T) {
        write_uint(buf, *self, 8);
    }

    fn serialize_without_shallow_copy(&self, _buf: &mut T, _start_index: usize) {
    }
}

impl<T: CDumpReader> CDeserialize<T> for u64 {
    open spec fn wire_at(&self, pos: int) -> Seq<u8> {
        prim_enc(*self as nat, 8, pos)
    }

    fn deserialize(buf: &mut T) -> (r: Self) {
        let ghost x0 = choose|x: u64|
            bytes_at(old(buf).buf(), old(buf).read(),
                <u64 as CDeserialize<T>>::wire_at(&x, old(buf).read()));
        proof {
            crate::bytes::lemma_pow256_8();
        }
        let r = read_uint(buf, 8, Ghost(x0));
        proof {
            assert forall|x: u64|
                bytes_at(old(buf).buf(), old(buf).read(),
                    <u64 as CDeserialize<T>>::wire_at(&x, old(buf).read()))
                implies r == x by {
                lemma_prim_enc_unique(old(buf).buf(), old(buf).read(),
                    x as nat, x0 as nat, 8);
            }
        }
        r
    }

    fn deserialize_to(buf: &mut T, dst: &mut Self) {
        let r = Self::deserialize(buf);
        *dst = r;
    }
}


impl<T: CDumpWriter> CSerialize<T> for i8 {
    open spec fn wire(&self, pos: int) -> Seq<u8> {
        prim_enc(signed_word(*self as int, 1), 1, pos)
    }

    fn serialize(&self, buf: &mut T) {
        let v = *self as i128;
        let w: u64 = if v >= 0 { v as u64 } else { (v + 0x100i128) as u64 };
        proof {
            reveal_with_fuel(pow256, 2);
            assert(w as nat == signed_word(*self as int, 1));
        }
        write_uint(buf, w, 1);
    }

    fn serialize_without_shallow_copy(&self, _buf: &mut T, _start_index: usize) {
    }
}

impl<T: CDumpReader> CDeserialize<T> for i8 {
    open spec fn wire_at(&self, pos: int) -> Seq<u8> {
        prim_enc(signed_word(*self as int, 1), 1, pos)
    }

    fn deserialize(buf: &mut T) -> (r: Self) {
        let ghost x0 = choose|x: i8|
            bytes_at(old(buf).buf(), old(buf).read(),
                <i8 as CDeserialize<T>>::wire_at(&x, old(buf).read()));
        proof {
            reveal_with_fuel(pow256, 2);
        }
        let w = read_uint(buf, 1, Ghost(signed_word(x0 as int, 1) as u64));
        let r: i8 = if w < 0x80u64 {
            w as i8
        } else {
            ((w as i128) - 0x100i128) as i8
        };
        proof {
            assert forall|x: i8|
                bytes_at(old(buf).buf(), old(buf).read(),
                    <i8 as CDeserialize<T>>::wire_at(&x, old(buf).read()))
                implies r == x by {
                reveal_with_fuel(pow256, 2);
                lemma_prim_enc_unique(old(buf).buf(), old(buf).read(),
                    signed_word(x as int, 1), signed_word(x0 as int, 1), 1);
                lemma_signed_word_inj(x as int, x0 as int, 1, 0x80);
            }
        }
        r
    }

    fn deserialize_to(buf: &mut T, dst: &mut Self) {
        let r = Self::deserialize(buf);
        *dst = r;
    }
}

impl<T: CDumpWriter> CSerialize<T> for i16 {
    open spec fn wire(&self, pos: int) -> Seq<u8> {
        prim_enc(signed_word(*self as int, 2), 2, pos)
    }

    fn serialize(&self, buf: &mut T) {
        let v = *self as i128;
        let w: u64 = if v >= 0 { v as u64 } else { (v + 0x1_0000i128) as u64 };
        proof {
            reveal_with_fuel(pow256, 3);
            assert(w as nat == signed_word(*self as int, 2));
        }
        write_uint(buf, w, 2);
    }

    fn serialize_without_shallow_copy(&self, _buf: &mut T, _start_index: usize) {
    }
}

impl<T: CDumpReader> CDeserialize<T> for i16 {
    open spec fn wire_at(&self, pos: int) -> Seq<u8> {
        prim_enc(signed_word(*self as int, 2), 2, pos)
    }

    fn deserialize(buf: &mut T) -> (r: Self) {
        let ghost x0 = choose|x: i16|
            bytes_at(old(buf).buf(), old(buf).read(),
                <i16 as CDeserialize<T>>::wire_at(&x, old(buf).read()));
        proof {
            reveal_with_fuel(pow256, 3);
        }
        let w = read_uint(buf, 2, Ghost(signed_word(x0 as int, 2) as u64));
        let r: i16 = if w < 0x8000u64 {
            w as i16
        } else {
            ((w as i128) - 0x1_0000i128) as i16
        };
        proof {
            assert forall|x: i16|
                bytes_at(old(buf).buf(), old(buf).read(),
                    <i16 as CDeserialize<T>>::wire_at(&x, old(buf).read()))
                implies r == x by {
                reveal_with_fuel(pow256, 3);
                lemma_prim_enc_unique(old(buf).buf(), old(buf).read(),
                    signed_word(x as int, 2), signed_word(x0 as int, 2), 2);
                lemma_signed_word_inj(x as int, x0 as int, 2, 0x8000);
            }
        }
        r
    }

    fn deserialize_to(buf: &mut T, dst: &mut Self) {
        let r = Self::deserialize(buf);
        *dst = r;
    }
}

impl<T: CDumpWriter> CSerialize<T> for i32 {
    open spec fn wire(&self, pos: int) -> Seq<u8> {
        prim_enc(signed_word(*self as int, 4), 4, pos)
    }

    fn serialize(&self, buf: &mut T) {
        let v = *self as i128;
        let w: u64 = if v >= 0 { v as u64 } else { (v + 0x1_0000_0000i128) as u64 };
        proof {
            reveal_with_fuel(pow256, 5);
            assert(w as nat == signed_word(*self as int, 4));
        }
        write_uint(buf, w, 4);
    }

    fn serialize_without_shallow_copy(&self, _buf: &mut T, _start_index: usize) {
    }
}

impl<T: CDumpReader> CDeserialize<T> for i32 {
    open spec fn wire_at(&self, pos: int) -> Seq<u8> {
        prim_enc(signed_word(*self as int, 4), 4, pos)
    }

    fn deserialize(buf: &mut T) -> (r: Self) {
        let ghost x0 = choose|x: i32|
            bytes_at(old(buf).buf(), old(buf).read(),
                <i32 as CDeserialize<T>>::wire_at(&x, old(buf).read()));
        proof {
            reveal_with_fuel(pow256, 5);
        }
        let w = read_uint(buf, 4, Ghost(signed_word(x0 as int, 4) as u64));
        let r: i32 = if w < 0x8000_0000u64 {
            w as i32
        } else {
            ((w as i128) - 0x1_0000_0000i128) as i32
        };
        proof {
            assert forall|x: i32|
                bytes_at(old(buf).buf(), old(buf).read(),
                    <i32 as CDeserialize<T>>::wire_at(&x, old(buf).read()))
                implies r == x by {
                reveal_with_fuel(pow256, 5);
                lemma_prim_enc_unique(old(buf).buf(), old(buf).read(),
                    signed_word(x as int, 4), signed_word(x0 as int, 4), 4);
                lemma_signed_word_inj(x as int, x0 as int, 4, 0x8000_0000);
            }
        }
        r
    }

    fn deserialize_to(buf: &mut T, dst: &mut Self) {
        let r = Self::deserialize(buf);
        *dst = r;
    }
}

impl<T: CDumpWriter> CSerialize<T> for i64 {
    open spec fn wire(&self, pos: int) -> Seq<u8> {
        prim_enc(signed_word(*self as int, 8), 8, pos)
    }

    fn serialize(&self, buf: &mut T) {
        let v = *self as i128;
        let w: u64 = if v >= 0 { v as u64 } else { (v + 0x1_0000_0000_0000_0000i128) as u64 };
        proof {
            reveal_with_fuel(pow256, 9);
            assert(w as nat == signed_word(*self as int, 8));
        }
        write_uint(buf, w, 8);
    }

    fn serialize_without_shallow_copy(&self, _buf: &mut T, _start_index: usize) {
    }
}

impl<T: CDumpReader> CDeserialize<T> for i64 {
    open spec fn wire_at(&self, pos: int) -> Seq<u8> {
        prim_enc(signed_word(*self as int, 8), 8, pos)
    }

    fn deserialize(buf: &mut T) -> (r: Self) {
        let ghost x0 = choose|x: i64|
            bytes_at(old(buf).buf(), old(buf).read(),
                <i64 as CDeserialize<T>>::wire_at(&x, old(buf).read()));
        proof {
            reveal_with_fuel(pow256, 9);
        }
        let w = read_uint(buf, 8, Ghost(signed_word(x0 as int, 8) as u64));
        let r: i64 = if w < 0x8000_0000_0000_0000u64 {
            w as i64
        } else {
            ((w as i128) - 0x1_0000_0000_0000_0000i128) as i64
        };
        proof {
            assert forall|x: i64|
                bytes_at(old(buf).buf(), old(buf).read(),
                    <i64 as CDeserialize<T>>::wire_at(&x, old(buf).read()))
                implies r == x by {
                reveal_with_fuel(pow256, 9);
                lemma_prim_enc_unique(old(buf).buf(), old(buf).read(),
                    signed_word(x as int, 8), signed_word(x0 as int, 8), 8);
                lemma_signed_word_inj(x as int, x0 as int, 8, 0x8000_0000_0000_0000);
            }
        }
        r
    }

    fn deserialize_to(buf: &mut T, dst: &mut Self) {
        let r = Self::deserialize(buf);
        *dst = r;
    }
}

impl<T: CDumpWriter> CSerialize<T> for isize {
    open spec fn wire(&self, pos: int) -> Seq<u8> {
        prim_enc(signed_word(*self as int, 8), 8, pos)
    }

    fn serialize(&self, buf: &mut T) {
        let v = *self as i128;
        let w: u64 = if v >= 0 { v as u64 } else { (v + 0x1_0000_0000_0000_0000i128) as u64 };
        proof {
            reveal_with_fuel(pow256, 9);
            assert(w as nat == signed_word(*self as int, 8));
        }
        write_uint(buf, w, 8);
    }

    fn serialize_without_shallow_copy(&self, _buf: &mut T, _start_index: usize) {
    }
}

impl<T: CDumpReader> CDeserialize<T> for isize {
    open spec fn wire_at(&self, pos: int) -> Seq<u8> {
        prim_enc(signed_word(*self as int, 8), 8, pos)
    }

    fn deserialize(buf: &mut T) -> (r: Self) {
        let ghost x0 = choose|x: isize|
            bytes_at(old(buf).buf(), old(buf).read(),
                <isize as CDeserialize<T>>::wire_at(&x, old(buf).read()));
        proof {
            reveal_with_fuel(pow256, 9);
        }
        let w = read_uint(buf, 8, Ghost(signed_word(x0 as int, 8) as u64));
        let r: isize = if w < 0x8000_0000_0000_0000u64 {
            w as isize
        } else {
            ((w as i128) - 0x1_0000_0000_0000_0000i128) as isize
        };
        proof {
            assert forall|x: isize|
                bytes_at(old(buf).buf(), old(buf).read(),
                    <isize as CDeserialize<T>>::wire_at(&x, old(buf).read()))
                implies r == x by {
                reveal_with_fuel(pow256, 9);
                lemma_prim_enc_unique(old(buf).buf(), old(buf).read(),
                    signed_word(x as int, 8), signed_word(x0 as int, 8), 8);
                lemma_signed_word_inj(x as int, x0 as int, 8, 0x8000_0000_0000_0000);
            }
        }
        r
    }

    fn deserialize_to(buf: &mut T, dst: &mut Self) {
        let r = Self::deserialize(buf);
        *dst = r;
    }
}

impl<T: CDumpWriter> CSerialize<T> for usize {
    open spec fn wire(&self, pos: int) -> Seq<u8> {
        prim_enc(*self as nat, 8, pos)
    }

    fn serialize(&self, buf: &mut T) {
        write_uint(buf, *self as u64, 8);
    }

    fn serialize_without_shallow_copy(&self, _buf: &mut T, _start_index: usize) {
    }
}

impl<T: CDumpReader> CDeserialize<T> for usize {
    open spec fn wire_at(&self, pos: int) -> Seq<u8> {
        prim_enc(*self as nat, 8, pos)
    }

    fn deserialize(buf: &mut T) -> (r: Self) {
        let ghost x0 = choose|x: usize|
            bytes_at(old(buf).buf(), old(buf).read(),
                <usize as CDeserialize<T>>::wire_at(&x, old(buf).read()));
        proof {
            crate::bytes::lemma_pow256_8();
        }
        let w = read_uint(buf, 8, Ghost(x0 as u64));
        let r = w as usize;
        proof {
            assert forall|x: usize|
                bytes_at(old(buf).buf(), old(buf).read(),
                    <usize as CDeserialize<T>>::wire_at(&x, old(buf).read()))
                implies r == x by {
                crate::bytes::lemma_pow256_8();
                lemma_prim_enc_unique(old(buf).buf(), old(buf).read(),
                    x as nat, x0 as nat, 8);
            }
        }
        r
    }

    fn deserialize_to(buf: &mut T, dst: &mut Self) {
        let r = Self::deserialize(buf);
        *dst = r;
    }
}

impl<T: CDumpWriter> CSerialize<T> for u128 {
    open spec fn wire(&self, pos: int) -> Seq<u8> {
        prim_enc(*self as nat, 16, pos)
    }

    fn serialize(&self, buf: &mut T) {
        write_uint_wide(buf, *self, 16);
    }

    fn serialize_without_shallow_copy(&self, _buf: &mut T, _start_index: usize) {
    }
}

impl<T: CDumpReader> CDeserialize<T> for u128 {
    open spec fn wire_at(&self, pos: int) -> Seq<u8> {
        prim_enc(*self as nat, 16, pos)
    }

    fn deserialize(buf: &mut T) -> (r: Self) {
        let ghost x0 = choose|x: u128|
            bytes_at(old(buf).buf(), old(buf).read(),
                <u128 as CDeserialize<T>>::wire_at(&x, old(buf).read()));
        proof {
            lemma_pow256_16();
        }
        let r = read_uint_wide(buf, 16, Ghost(x0));
        proof {
            assert forall|x: u128|
                bytes_at(old(buf).buf(), old(buf).read(),
                    <u128 as CDeserialize<T>>::wire_at(&x, old(buf).read()))
                implies r == x by {
                lemma_pow256_16();
                lemma_prim_enc_unique(old(buf).buf(), old(buf).read(),
                    x as nat, x0 as nat, 16);
            }
        }
        r
    }

    fn deserialize_to(buf: &mut T, dst: &mut Self) {
        let r = Self::deserialize(buf);
        *dst = r;
    }
}

impl<T: CDumpWriter> CSerialize<T> for i128 {
    open spec fn wire(&self, pos: int) -> Seq<u8> {
        prim_enc(signed_word(*self as int, 16), 16, pos)
    }

    fn serialize(&self, buf: &mut T) {
        let x = *self;
        let w: u128 = if x >= 0 {
            x as u128
        } else {
            u128::MAX - ((-(x + 1)) as u128)
        };
        proof {
            lemma_pow256_16();
            assert(w as nat == signed_word(x as int, 16));
        }
        write_uint_wide(buf, w, 16);
    }

    fn serialize_without_shallow_copy(&self, _buf: &mut T, _start_index: usize) {
    }
}

impl<T: CDumpReader> CDeserialize<T> for i128 {
    open spec fn wire_at(&self, pos: int) -> Seq<u8> {
        prim_enc(signed_word(*self as int, 16), 16, pos)
    }

    fn deserialize(buf: &mut T) -> (r: Self) {
        let ghost x0 = choose|x: i128|
            bytes_at(old(buf).buf(), old(buf).read(),
                <i128 as CDeserialize<T>>::wire_at(&x, old(buf).read()));
        proof {
            lemma_pow256_16();
        }
        let w = read_uint_wide(buf, 16, Ghost(signed_word(x0 as int, 16) as u128));
        let r: i128 = if w < 0x8000_0000_0000_0000_0000_0000_0000_0000u128 {
            w as i128
        } else {
            -((u128::MAX - w) as i128) - 1
        };
        proof {
            assert(r == x0);
            assert forall|x: i128|
                bytes_at(old(buf).buf(), old(buf).read(),
                    <i128 as CDeserialize<T>>::wire_at(&x, old(buf).read()))
                implies r == x by {
                lemma_pow256_16();
                lemma_prim_enc_unique(old(buf).buf(), old(buf).read(),
                    signed_word(x as int, 16), signed_word(x0 as int, 16), 16);
                lemma_signed_word_inj(x as int, x0 as int, 16,
                    0x8000_0000_0000_0000_0000_0000_0000_0000);
            }
        }
        r
    }

    fn deserialize_to(buf: &mut T, dst: &mut Self) {
        let r = Self::deserialize(buf);
        *dst = r;
    }
}

} // verus!
