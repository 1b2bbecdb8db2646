//! Little-endian integers in byte sequences, zero padding, and alignment
//! arithmetic: the byte-level vocabulary of the wire format.

use vstd::prelude::*;

verus! {

/// Width in bytes of a pointer slot in a shallow record image.
pub const PTR_SIZE: usize = 8;

/// Whether `n` is a power of two.
pub open spec fn is_pow2(n: nat) -> bool
    decreases n,
{
    if n == 0 {
        false
    } else if n == 1 {
        true
    } else {
        n % 2 == 0 && is_pow2(n / 2)
    }
}

/// The number of zero bytes that carry a position `pos` to the next multiple
/// of `a`.
pub open spec fn pad_len(pos: int, a: int) -> int {
    if pos % a == 0 {
        0
    } else {
        a - pos % a
    }
}

/// A sequence of `n` zero bytes.
pub open spec fn zeros(n: int) -> Seq<u8> {
    Seq::new(n as nat, |i: int| 0u8)
}

/// The unsigned value stored little-endian in `b`.
pub open spec fn le_val(b: Seq<u8>) -> nat
    decreases b.len(),
{
    if b.len() == 0 {
        0
    } else {
        (b[0] + 256 * le_val(b.skip(1))) as nat
    }
}

/// The `n`-byte little-endian image of `v` (modulo `256^n`).
pub open spec fn le_bytes(v: nat, n: nat) -> Seq<u8>
    decreases n,
{
    if n == 0 {
        Seq::empty()
    } else {
        seq![(v % 256) as u8] + le_bytes(v / 256, (n - 1) as nat)
    }
}

/// `256^n`, the number of values an `n`-byte slot can hold.
pub open spec fn pow256(n: nat) -> nat
    decreases n,
{
    if n == 0 {
        1
    } else {
        256 * pow256((n - 1) as nat)
    }
}

pub proof fn lemma_pad_len_bounds(pos: int, a: int)
    requires
        a >= 1,
        pos >= 0,
    ensures
        0 <= pad_len(pos, a) < a,
        (pos + pad_len(pos, a)) % a == 0,
{
    if pos % a != 0 {
        assert((pos + (a - pos % a)) % a == 0) by (nonlinear_arith)
            requires a >= 1 && pos >= 0;
    }
}

pub proof fn lemma_le_bytes_len(v: nat, n: nat)
    ensures
        le_bytes(v, n).len() == n,
    decreases n,
{
    if n > 0 {
        lemma_le_bytes_len(v / 256, (n - 1) as nat);
    }
}

/// Decoding inverts encoding for values that fit in `n` bytes.
pub proof fn lemma_le_roundtrip(v: nat, n: nat)
    requires
        v < pow256(n),
    ensures
        le_val(le_bytes(v, n)) == v,
    decreases n,
{
    if n > 0 {
        lemma_le_bytes_len(v / 256, (n - 1) as nat);
        assert(v / 256 < pow256((n - 1) as nat)) by (nonlinear_arith)
            requires v < pow256(n) && pow256(n) == 256 * pow256((n - 1) as nat);
        lemma_le_roundtrip(v / 256, (n - 1) as nat);
        let b = le_bytes(v, n);
        assert(b.skip(1) =~= le_bytes(v / 256, (n - 1) as nat));
    }
}

/// A decoded value is bounded by the slot width.
pub proof fn lemma_le_val_bound(b: Seq<u8>)
    ensures
        le_val(b) < pow256(b.len()),
    decreases b.len(),
{
    if b.len() > 0 {
        lemma_le_val_bound(b.skip(1));
        assert(b[0] + 256 * le_val(b.skip(1)) < 256 * pow256((b.len() - 1) as nat))
            by (nonlinear_arith)
            requires b[0] < 256 && le_val(b.skip(1)) < pow256((b.len() - 1) as nat);
    }
}

/// The encoding of zero is all zero bytes.
pub proof fn lemma_le_bytes_zero(n: nat)
    ensures
        le_bytes(0, n) =~= zeros(n as int),
    decreases n,
{
    if n > 0 {
        lemma_le_bytes_zero((n - 1) as nat);
        lemma_le_bytes_len(0, (n - 1) as nat);
    }
}

pub proof fn lemma_pow256_8()
    ensures
        pow256(8) == 0x1_0000_0000_0000_0000,
{
    reveal_with_fuel(pow256, 9);
}

/// The little-endian bytes of `x`, one pointer slot wide.
pub fn u64_to_le8(x: u64) -> (r: Vec<u8>)
    ensures
        r@ == le_bytes(x as nat, 8),
        r@.len() == 8,
{
    let mut r: Vec<u8> = Vec::new();
    let mut cur: u64 = x;
    let mut i: usize = 0;
    while i < 8
        invariant
            i <= 8,
            r@.len() == i,
            le_bytes(x as nat, 8) =~= r@ + le_bytes(cur as nat, (8 - i) as nat),
        decreases 8 - i,
    {
        proof {
            lemma_le_bytes_len(cur as nat, (8 - i) as nat);
            assert(le_bytes(cur as nat, (8 - i) as nat) ==
                seq![(cur as nat % 256) as u8] + le_bytes(cur as nat / 256, (7 - i) as nat));
        }
        r.push((cur % 256) as u8);
        cur = cur / 256;
        i = i + 1;
        proof {
            lemma_le_bytes_len(x as nat, 8);
        }
    }
    proof {
        assert(le_bytes(cur as nat, 0) =~= Seq::<u8>::empty());
        assert(r@ =~= le_bytes(x as nat, 8));
        lemma_le_bytes_len(x as nat, 8);
    }
    r
}

/// Decode the `width`-byte little-endian integer at `off` in `bytes`.
pub fn read_le(bytes: &Vec<u8>, off: usize, width: usize) -> (r: u64)
    requires
        width <= 8,
        off + width <= bytes@.len(),
    ensures
        r as nat == le_val(bytes@.subrange(off as int, off + width)),
{
    let mut acc: u64 = 0;
    let mut i: usize = width;
    let n = bytes.len();
    proof {
        assert(bytes@.subrange(off + width, off + width) =~= Seq::<u8>::empty());
    }
    while i > 0
        invariant
            i <= width,
            width <= 8,
            off + width <= bytes@.len(),
            bytes@.len() == n,
            acc as nat == le_val(bytes@.subrange(off + i, off + width)),
            (acc as nat) < pow256((width - i) as nat),
        decreases i,
    {
        proof {
            lemma_le_val_bound(bytes@.subrange(off + i, off + width));
            assert(pow256((width - i) as nat) <= pow256(7)) by {
                lemma_pow256_monotone((width - i) as nat, 7);
            }
            reveal_with_fuel(pow256, 9);
        }
        i = i - 1;
        let b = bytes[off + i];
        proof {
            let s = bytes@.subrange(off + i, off + width);
            assert(s[0] == bytes@[off + i]);
            assert(s.skip(1) =~= bytes@.subrange(off + i + 1, off + width));
            assert(256 * (acc as nat) + b <= 256 * (pow256((width - i - 1) as nat) - 1) + 255)
                by (nonlinear_arith)
                requires (acc as nat) < pow256((width - i - 1) as nat) && b < 256;
            assert(256 * pow256((width - i - 1) as nat) == pow256((width - i) as nat));
        }
        acc = acc * 256 + (b as u64);
    }
    acc
}

pub proof fn lemma_pow256_monotone(m: nat, n: nat)
    requires
        m <= n,
    ensures
        pow256(m) <= pow256(n),
    decreases n,
{
    if m < n {
        lemma_pow256_monotone(m, (n - 1) as nat);
        assert(pow256((n - 1) as nat) <= 256 * pow256((n - 1) as nat)) by (nonlinear_arith)
            requires pow256((n - 1) as nat) >= 0;
    }
}

/// `b` holds the byte string `x` starting at position `c`.
pub open spec fn bytes_at(b: Seq<u8>, c: int, x: Seq<u8>) -> bool {
    &&& 0 <= c
    &&& c + x.len() <= b.len()
    &&& b.subrange(c, c + x.len()) == x
}

/// A concatenation sits in a buffer exactly when its pieces sit there in
/// sequence.
pub proof fn lemma_bytes_at_concat(b: Seq<u8>, c: int, x: Seq<u8>, y: Seq<u8>)
    ensures
        bytes_at(b, c, x + y) <==> (bytes_at(b, c, x) && bytes_at(b, c + x.len(), y)),
{
    if bytes_at(b, c, x + y) {
        assert forall|i: int| 0 <= i < x.len() implies b[c + i] == x[i] by {
            assert((x + y)[i] == b.subrange(c, c + (x + y).len())[i]);
        }
        assert(b.subrange(c, c + x.len()) =~= x);
        assert forall|i: int| 0 <= i < y.len() implies b[c + x.len() + i] == y[i] by {
            assert((x + y)[x.len() + i] == b.subrange(c, c + (x + y).len())[x.len() + i]);
        }
        assert(b.subrange(c + x.len(), c + x.len() + y.len()) =~= y);
    }
    if bytes_at(b, c, x) && bytes_at(b, c + x.len(), y) {
        assert forall|i: int| 0 <= i < (x + y).len() implies b[c + i] == (x + y)[i] by {
            if i < x.len() {
                assert(b.subrange(c, c + x.len())[i] == x[i]);
            } else {
                assert(b.subrange(c + x.len(), c + x.len() + y.len())[i - x.len()]
                    == y[i - x.len()]);
            }
        }
        assert(b.subrange(c, c + (x + y).len()) =~= x + y);
    }
}

} // verus!
