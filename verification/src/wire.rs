//! The wire layout of a dump, as a function of the live value.
//!
//! A dumped record is `[padding to align] [patched shallow image] [deep
//! payload of each non-shallow field, in declaration order]`.  The patched
//! shallow image is the live record's bytes with every non-null string
//! field's pointer slot rewritten to a length tag (string length plus
//! terminator); reference slots are left as they are — the replay finds each
//! pointee by placement order alone.  Array regions hold, per element, the
//! element's bytes (plain elements), its patched shallow image (inline
//! records), a length tag (strings) or a zeroed slot (record and dynamic
//! pointers), followed by the elements' deep payloads.
//!
//! The serializer is proved to append exactly [`enc_rec`]; the deserializer
//! is proved to rebuild an equivalent value from it.

use vstd::prelude::*;
use crate::bytes::{bytes_at, le_bytes, pad_len, zeros, PTR_SIZE};
use crate::descriptor::{
    ElemKind, FieldDesc, FieldKind, InnerKind, LenExpr, Schema, TypeDesc, eval_len, in_ptr_slot,
};
use crate::value::{cstring_wf, record_wf, slot_val, DeepValue, RecordValue};

verus! {

/// `b` with the bytes of `x` written over positions `off .. off + x.len()`.
pub open spec fn write_bytes_at(b: Seq<u8>, off: int, x: Seq<u8>) -> Seq<u8> {
    Seq::new(b.len(), |j: int| if off <= j < off + x.len() { x[j - off] } else { b[j] })
}

/// The shallow image of `v` with the pointer slots of the first `i` fields
/// rewritten per the pointer-slot rewrite protocol: a non-null string slot
/// becomes its length tag, every other slot keeps its live bytes.
pub open spec fn patched_upto(t: TypeDesc, v: RecordValue, i: int) -> Seq<u8>
    decreases i,
{
    if i <= 0 {
        v.bytes@
    } else {
        let prev = patched_upto(t, v, i - 1);
        if i > t.fields@.len() || i > v.deep@.len() {
            prev
        } else {
            let f = t.fields@[i - 1];
            match (f.kind, v.deep@[i - 1]) {
                (FieldKind::CString, DeepValue::Str(b)) => {
                    write_bytes_at(prev, f.offset as int, le_bytes(b@.len() + 1, 8))
                },
                _ => prev,
            }
        }
    }
}

/// The shallow image as it stands on the wire: all fields patched.
pub open spec fn patch_shallow(t: TypeDesc, v: RecordValue) -> Seq<u8> {
    patched_upto(t, v, t.fields@.len() as int)
}

/// Alignment of an array region: pointer-sized for elements that are
/// pointers (to records, strings or dynamic payloads), element-sized for
/// plain elements, record alignment for inline records.
pub open spec fn inner_align(s: Schema, ik: InnerKind) -> int {
    match ik {
        InnerKind::PrimSlice { size: _, align } => align as int,
        InnerKind::RecInline { tid } => s.types@[tid as int].align as int,
        InnerKind::RecPtr { .. } => PTR_SIZE as int,
        InnerKind::CString => PTR_SIZE as int,
        InnerKind::Dynamic => PTR_SIZE as int,
    }
}

/// Stride of an array region: the per-element width of the shallow region.
pub open spec fn inner_stride(s: Schema, ik: InnerKind) -> int {
    match ik {
        InnerKind::PrimSlice { size, align: _ } => size as int,
        InnerKind::RecInline { tid } => s.types@[tid as int].size as int,
        InnerKind::RecPtr { .. } => PTR_SIZE as int,
        InnerKind::CString => PTR_SIZE as int,
        InnerKind::Dynamic => PTR_SIZE as int,
    }
}

/// A well-formed element's region image is one stride wide.
pub proof fn lemma_elem_region_stride(s: Schema, ik: InnerKind, e: DeepValue)
    requires
        crate::value::elem_wf(s, ik, e),
    ensures
        elem_region(s, ik, e).len() == inner_stride(s, ik),
{
    match (ik, e) {
        (InnerKind::RecInline { tid }, DeepValue::Rec(r)) => {
            lemma_patched_len(s.types@[tid as int], *r,
                s.types@[tid as int].fields@.len() as int);
        },
        (InnerKind::CString, DeepValue::Str(b)) => {
            crate::bytes::lemma_le_bytes_len(b@.len() + 1, 8);
        },
        _ => {},
    }
}

/// A well-formed array's region is element count times the stride.
pub proof fn lemma_arr_region_len(s: Schema, ik: InnerKind, d: DeepValue, j: int)
    requires
        0 <= j <= arr_len(d),
        forall|m: int| 0 <= m < arr_len(d)
            ==> crate::value::elem_wf(s, ik, #[trigger] d->Arr_0@[m]),
    ensures
        arr_region(s, ik, d, j).len() == (arr_len(d) - j) * inner_stride(s, ik),
    decreases arr_len(d) - j,
{
    if j < arr_len(d) {
        lemma_elem_region_stride(s, ik, d->Arr_0@[j]);
        lemma_arr_region_len(s, ik, d, j + 1);
        assert((arr_len(d) - j) * inner_stride(s, ik)
            == inner_stride(s, ik) + (arr_len(d) - j - 1) * inner_stride(s, ik))
            by (nonlinear_arith);
    } else {
        assert((arr_len(d) - j) * inner_stride(s, ik) == 0) by (nonlinear_arith)
            requires j == arr_len(d);
    }
}

/// The finished prefix of a well-formed array's region is element index
/// times the stride.
pub proof fn lemma_region_upto_len(s: Schema, ik: InnerKind, d: DeepValue, j: int)
    requires
        0 <= j <= arr_len(d),
        forall|m: int| 0 <= m < arr_len(d)
            ==> crate::value::elem_wf(s, ik, #[trigger] d->Arr_0@[m]),
    ensures
        region_upto(s, ik, d, j).len() == j * inner_stride(s, ik),
    decreases j,
{
    if j > 0 {
        lemma_elem_region_stride(s, ik, d->Arr_0@[j - 1]);
        lemma_region_upto_len(s, ik, d, j - 1);
        assert(j * inner_stride(s, ik)
            == (j - 1) * inner_stride(s, ik) + inner_stride(s, ik)) by (nonlinear_arith);
    } else {
        assert(j * inner_stride(s, ik) == 0) by (nonlinear_arith)
            requires j == 0;
    }
}

/// The bytes of one dumped record of type `tid`, appended when the buffer
/// already holds `pos` bytes.
pub open spec fn enc_rec(s: Schema, tid: int, v: RecordValue, pos: int) -> Seq<u8>
    decreases v, 3int, 0int,
{
    let t = s.types@[tid];
    let p = zeros(pad_len(pos, t.align as int));
    p + patch_shallow(t, v) + enc_fields(s, tid, v, pos + p.len() + t.size, 0)
}

/// The deep payload of fields `i ..` of `v`, the buffer holding `pos` bytes.
pub open spec fn enc_fields(s: Schema, tid: int, v: RecordValue, pos: int, i: int) -> Seq<u8>
    decreases v, 2int, s.types@[tid].fields@.len() - i,
{
    let t = s.types@[tid];
    if i < 0 || i >= t.fields@.len() || i >= v.deep@.len() {
        Seq::empty()
    } else {
        let d = enc_field(s, t.fields@[i], v.deep@[i], pos);
        d + enc_fields(s, tid, v, pos + d.len(), i + 1)
    }
}

/// The deep payload of one field.
pub open spec fn enc_field(s: Schema, f: FieldDesc, d: DeepValue, pos: int) -> Seq<u8>
    decreases d, 3int, 0int,
{
    match (f.kind, d) {
        (FieldKind::Reference(ElemKind::Prim { size: _, align }), DeepValue::Prim(b)) => {
            zeros(pad_len(pos, align as int)) + b@
        },
        (FieldKind::Reference(ElemKind::Rec { tid }), DeepValue::Rec(r)) => {
            enc_rec(s, tid as int, *r, pos)
        },
        (FieldKind::CString, DeepValue::Str(b)) => {
            b@ + seq![0u8]
        },
        (FieldKind::Dynamic, DeepValue::Dyn(dtid, r)) => {
            let p = zeros(pad_len(pos, PTR_SIZE as int));
            p + le_bytes(dtid as nat, 8) + enc_rec(s, dtid as int, *r, pos + p.len() + 8)
        },
        (FieldKind::Array { len: _, inner }, DeepValue::Arr(_)) => {
            let p = zeros(pad_len(pos, inner_align(s, inner)));
            let region = arr_region(s, inner, d, 0);
            p + region + enc_elems(s, inner, d, pos + p.len() + region.len(), 0)
        },
        _ => Seq::empty(),
    }
}

/// The shallow region of an array: the concatenation of the per-element
/// region images of elements `j ..`.
pub open spec fn arr_region(s: Schema, ik: InnerKind, d: DeepValue, j: int) -> Seq<u8>
    decreases d, 2int, arr_len(d) - j,
{
    if j < 0 || j >= arr_len(d) {
        Seq::empty()
    } else {
        elem_region(s, ik, d->Arr_0@[j]) + arr_region(s, ik, d, j + 1)
    }
}

/// The number of elements of an array value.
pub open spec fn arr_len(d: DeepValue) -> int {
    match d {
        DeepValue::Arr(elems) => elems@.len() as int,
        _ => 0,
    }
}

/// One element's image in the array's shallow region.
pub open spec fn elem_region(s: Schema, ik: InnerKind, e: DeepValue) -> Seq<u8>
    decreases e, 1int, 0int,
{
    match (ik, e) {
        (InnerKind::PrimSlice { .. }, DeepValue::Prim(b)) => b@,
        (InnerKind::RecInline { tid }, DeepValue::Rec(r)) => {
            patch_shallow(s.types@[tid as int], *r)
        },
        (InnerKind::RecPtr { .. }, _) => zeros(PTR_SIZE as int),
        (InnerKind::CString, DeepValue::Str(b)) => le_bytes(b@.len() + 1, 8),
        (InnerKind::Dynamic, _) => zeros(PTR_SIZE as int),
        _ => Seq::empty(),
    }
}

/// One element's image in the array's shallow region as first emitted,
/// before the per-element deep pass patches it: inline records still raw,
/// string slots still zero.
pub open spec fn elem_region_raw(s: Schema, ik: InnerKind, e: DeepValue) -> Seq<u8> {
    match (ik, e) {
        (InnerKind::PrimSlice { .. }, DeepValue::Prim(b)) => b@,
        (InnerKind::RecInline { .. }, DeepValue::Rec(r)) => r.bytes@,
        (InnerKind::RecPtr { .. }, _) => zeros(PTR_SIZE as int),
        (InnerKind::CString, DeepValue::Str(_)) => zeros(PTR_SIZE as int),
        (InnerKind::Dynamic, _) => zeros(PTR_SIZE as int),
        _ => Seq::empty(),
    }
}

/// The finished region images of elements `0 .. j`.
pub open spec fn region_upto(s: Schema, ik: InnerKind, d: DeepValue, j: int) -> Seq<u8>
    decreases j,
{
    if j <= 0 {
        Seq::empty()
    } else if j - 1 < arr_len(d) {
        region_upto(s, ik, d, j - 1) + elem_region(s, ik, d->Arr_0@[j - 1])
    } else {
        region_upto(s, ik, d, j - 1)
    }
}

/// The raw region images of elements `j ..`.
pub open spec fn region_raw_from(s: Schema, ik: InnerKind, d: DeepValue, j: int) -> Seq<u8>
    decreases arr_len(d) - j,
{
    if j < 0 || j >= arr_len(d) {
        Seq::empty()
    } else {
        elem_region_raw(s, ik, d->Arr_0@[j]) + region_raw_from(s, ik, d, j + 1)
    }
}

/// The finished region is the finished prefix followed by the rest.
pub proof fn lemma_region_split(s: Schema, ik: InnerKind, d: DeepValue, j: int)
    requires
        0 <= j <= arr_len(d),
    ensures
        arr_region(s, ik, d, 0) == region_upto(s, ik, d, j) + arr_region(s, ik, d, j),
    decreases j,
{
    if j == 0 {
        assert(region_upto(s, ik, d, 0) + arr_region(s, ik, d, 0)
            =~= arr_region(s, ik, d, 0));
    } else {
        lemma_region_split(s, ik, d, j - 1);
        assert(arr_region(s, ik, d, j - 1)
            == elem_region(s, ik, d->Arr_0@[j - 1]) + arr_region(s, ik, d, j));
        assert(region_upto(s, ik, d, j - 1)
            + (elem_region(s, ik, d->Arr_0@[j - 1]) + arr_region(s, ik, d, j))
            =~= region_upto(s, ik, d, j) + arr_region(s, ik, d, j));
    }
}

/// One element's raw image is as long as its finished image.
pub proof fn lemma_elem_region_len(s: Schema, ik: InnerKind, e: DeepValue)
    ensures
        elem_region_raw(s, ik, e).len() == elem_region(s, ik, e).len(),
{
    match (ik, e) {
        (InnerKind::RecInline { tid }, DeepValue::Rec(r)) => {
            lemma_patched_len(s.types@[tid as int], *r,
                s.types@[tid as int].fields@.len() as int);
        },
        (InnerKind::CString, DeepValue::Str(b)) => {
            crate::bytes::lemma_le_bytes_len(b@.len() + 1, 8);
        },
        _ => {},
    }
}

/// The raw region is as long as the finished one.
pub proof fn lemma_region_raw_len(s: Schema, ik: InnerKind, d: DeepValue, j: int)
    ensures
        region_raw_from(s, ik, d, j).len() == arr_region(s, ik, d, j).len(),
    decreases arr_len(d) - j,
{
    if 0 <= j < arr_len(d) {
        lemma_elem_region_len(s, ik, d->Arr_0@[j]);
        lemma_region_raw_len(s, ik, d, j + 1);
    }
}

/// The deep payloads of array elements `j ..`.
pub open spec fn enc_elems(s: Schema, ik: InnerKind, d: DeepValue, pos: int, j: int) -> Seq<u8>
    decreases d, 1int, arr_len(d) - j,
{
    if j < 0 || j >= arr_len(d) {
        Seq::empty()
    } else {
        let e = enc_elem(s, ik, d->Arr_0@[j], pos);
        e + enc_elems(s, ik, d, pos + e.len(), j + 1)
    }
}

/// The deep payload of one array element.
pub open spec fn enc_elem(s: Schema, ik: InnerKind, e: DeepValue, pos: int) -> Seq<u8>
    decreases e, 3int, 0int,
{
    match (ik, e) {
        (InnerKind::PrimSlice { .. }, _) => Seq::empty(),
        (InnerKind::RecInline { tid }, DeepValue::Rec(r)) => {
            enc_fields(s, tid as int, *r, pos, 0)
        },
        (InnerKind::RecPtr { tid }, DeepValue::Rec(r)) => {
            enc_rec(s, tid as int, *r, pos)
        },
        (InnerKind::CString, DeepValue::Str(b)) => {
            b@ + seq![0u8]
        },
        (InnerKind::Dynamic, DeepValue::Dyn(dtid, r)) => {
            let p = zeros(pad_len(pos, PTR_SIZE as int));
            p + le_bytes(dtid as nat, 8) + enc_rec(s, dtid as int, *r, pos + p.len() + 8)
        },
        _ => Seq::empty(),
    }
}

/// The buffer `b` holds, from position `c`, the dump of the well-formed
/// record `v` of type `tid`: the deserializer's precondition.
pub open spec fn holds_enc(s: Schema, tid: int, v: RecordValue, b: Seq<u8>, c: int) -> bool {
    &&& record_wf(s, tid, v)
    &&& bytes_at(b, c, enc_rec(s, tid, v, c))
}

/// A write that lands inside `x` commutes with appending `y`.
pub proof fn lemma_write_concat(x: Seq<u8>, y: Seq<u8>, c: int, w: Seq<u8>)
    requires
        0 <= c,
        c + w.len() <= x.len(),
    ensures
        write_bytes_at(x + y, c, w) == write_bytes_at(x, c, w) + y,
{
    assert(write_bytes_at(x + y, c, w) =~= write_bytes_at(x, c, w) + y);
}

/// A write inside an inner splice folds into the inner image.
pub proof fn lemma_write_nest(b: Seq<u8>, st: int, a: Seq<u8>, o: int, w: Seq<u8>)
    requires
        0 <= st,
        st + a.len() <= b.len(),
        0 <= o,
        o + w.len() <= a.len(),
    ensures
        write_bytes_at(write_bytes_at(b, st, a), st + o, w)
            == write_bytes_at(b, st, write_bytes_at(a, o, w)),
{
    assert(write_bytes_at(write_bytes_at(b, st, a), st + o, w)
        =~= write_bytes_at(b, st, write_bytes_at(a, o, w)));
}

/// A write that lands inside `y` commutes with the prefix `x`.
pub proof fn lemma_write_skip(x: Seq<u8>, y: Seq<u8>, o: int, w: Seq<u8>)
    requires
        0 <= o,
        o + w.len() <= y.len(),
    ensures
        write_bytes_at(x + y, x.len() + o, w) == x + write_bytes_at(y, o, w),
{
    assert(write_bytes_at(x + y, x.len() + o, w) =~= x + write_bytes_at(y, o, w));
}

/// Splicing over the prefix a concatenation starts with just replaces it.
pub proof fn lemma_write_prefix(a: Seq<u8>, b: Seq<u8>, w: Seq<u8>)
    requires
        w.len() == a.len(),
    ensures
        write_bytes_at(a + b, 0, w) == w + b,
{
    assert(write_bytes_at(a + b, 0, w) =~= w + b);
}

/// Splicing over the suffix a concatenation ends with just replaces it.
pub proof fn lemma_write_suffix(pre: Seq<u8>, x: Seq<u8>, r: Seq<u8>)
    requires
        x.len() == r.len(),
    ensures
        write_bytes_at(pre + x, pre.len() as int, r) == pre + r,
{
    assert(write_bytes_at(pre + x, pre.len() as int, r) =~= pre + r);
}

/// A splice with the bytes already in place changes nothing.
pub proof fn lemma_write_same(b: Seq<u8>, c: int, w: Seq<u8>)
    requires
        0 <= c,
        c + w.len() <= b.len(),
        b.subrange(c, c + w.len()) == w,
    ensures
        write_bytes_at(b, c, w) == b,
{
    assert forall|j: int| 0 <= j < b.len() implies write_bytes_at(b, c, w)[j] == b[j] by {
        if c <= j < c + w.len() {
            assert(w[j - c] == b.subrange(c, c + w.len())[j - c]);
        }
    }
    assert(write_bytes_at(b, c, w) =~= b);
}

/// The patched image has the record's size.
pub proof fn lemma_patched_len(t: TypeDesc, v: RecordValue, i: int)
    ensures
        patched_upto(t, v, i).len() == v.bytes@.len(),
    decreases i,
{
    if i > 0 {
        lemma_patched_len(t, v, i - 1);
    }
}

/// Patching only rewrites string slots: any byte outside the pointer slot
/// of every string field is untouched.  (Stated for all bytes outside every
/// pointer slot, which is what replay relies on for plain data, and for the
/// slots of non-string fields, which is what it relies on for null tests.)
pub proof fn lemma_patched_byte(t: TypeDesc, v: RecordValue, i: int, j: int)
    requires
        0 <= j < v.bytes@.len(),
        forall|k: int| 0 <= k < i && k < t.fields@.len()
            && t.fields@[k].kind is CString && v.deep@[k] is Str
            ==> !((#[trigger] t.fields@[k]).offset <= j < t.fields@[k].offset + PTR_SIZE),
    ensures
        patched_upto(t, v, i)[j] == v.bytes@[j],
    decreases i,
{
    if i > 0 {
        lemma_patched_byte(t, v, i - 1, j);
        lemma_patched_len(t, v, i - 1);
        if 0 <= i - 1 < t.fields@.len() {
            let f = t.fields@[i - 1];
            match (f.kind, v.deep@[i - 1]) {
                (FieldKind::CString, DeepValue::Str(b)) => {
                    crate::bytes::lemma_le_bytes_len(b@.len() + 1, 8);
                },
                _ => {},
            }
        }
    }
}

/// What replay reads from the pointer slot of field `k` of the patched
/// image: a length tag for a non-null string field, the live slot bytes for
/// every other field.
pub proof fn lemma_patched_slot(s: Schema, t: TypeDesc, v: RecordValue, k: int, i: int)
    requires
        crate::descriptor::slots_disjoint(t),
        0 <= k < t.fields@.len(),
        !t.fields@[k].kind.is_shallow(),
        t.fields@[k].offset + PTR_SIZE <= v.bytes@.len(),
        v.deep@.len() == t.fields@.len(),
        forall|m: int| 0 <= m < t.fields@.len()
            ==> (#[trigger] t.fields@[m]).offset + PTR_SIZE <= v.bytes@.len()
                || t.fields@[m].kind.is_shallow(),
    ensures
        ({
            let sub = patched_upto(t, v, i).subrange(
                t.fields@[k].offset as int,
                t.fields@[k].offset + PTR_SIZE,
            );
            if k < i && t.fields@[k].kind is CString && v.deep@[k] is Str {
                sub == le_bytes(v.deep@[k]->Str_0@.len() + 1, 8)
            } else {
                sub == v.bytes@.subrange(
                    t.fields@[k].offset as int,
                    t.fields@[k].offset + PTR_SIZE,
                )
            }
        }),
    decreases i,
{
    let off = t.fields@[k].offset as int;
    lemma_patched_len(t, v, i);
    if i <= 0 {
        assert(patched_upto(t, v, i).subrange(off, off + PTR_SIZE)
            =~= v.bytes@.subrange(off, off + PTR_SIZE));
    } else {
        lemma_patched_slot(s, t, v, k, i - 1);
        lemma_patched_len(t, v, i - 1);
        let prev = patched_upto(t, v, i - 1);
        if i > t.fields@.len() || i > v.deep@.len() {
            assert(patched_upto(t, v, i) == prev);
        } else {
            let f = t.fields@[i - 1];
            match (f.kind, v.deep@[i - 1]) {
                (FieldKind::CString, DeepValue::Str(b)) => {
                    crate::bytes::lemma_le_bytes_len(b@.len() + 1, 8);
                    if i - 1 == k {
                        assert(patched_upto(t, v, i).subrange(off, off + PTR_SIZE)
                            =~= le_bytes(b@.len() + 1, 8));
                    } else {
                        // another field's slot: disjoint from field k's slot
                        assert(f.offset + PTR_SIZE <= t.fields@[k].offset
                            || t.fields@[k].offset + PTR_SIZE <= f.offset) by {
                            if i - 1 < k {
                                assert(!t.fields@[i - 1].kind.is_shallow()
                                    && !t.fields@[k].kind.is_shallow());
                            } else {
                                assert(!t.fields@[k].kind.is_shallow()
                                    && !t.fields@[i - 1].kind.is_shallow());
                            }
                        }
                        assert(patched_upto(t, v, i).subrange(off, off + PTR_SIZE)
                            =~= prev.subrange(off, off + PTR_SIZE));
                    }
                },
                _ => {
                    assert(patched_upto(t, v, i) == prev);
                },
            }
        }
    }
}

/// The length expression of an array field reads the same count from the
/// patched image as from the live one: its range avoids every pointer slot.
pub proof fn lemma_patched_eval_len(t: TypeDesc, v: RecordValue, le: LenExpr)
    requires
        crate::descriptor::len_expr_wf(t, le),
        le.offset + le.width <= v.bytes@.len(),
    ensures
        eval_len(le, patch_shallow(t, v)) == eval_len(le, v.bytes@),
{
    let n = t.fields@.len() as int;
    lemma_patched_len(t, v, n);
    assert forall|j: int| le.offset <= j < le.offset + le.width
        implies patch_shallow(t, v)[j] == v.bytes@[j] by {
        assert(!in_ptr_slot(t, j));
        assert forall|k: int| 0 <= k < n && k < t.fields@.len()
            && t.fields@[k].kind is CString && v.deep@[k] is Str
            implies !((#[trigger] t.fields@[k]).offset <= j
                < t.fields@[k].offset + PTR_SIZE) by {
            if t.fields@[k].offset <= j < t.fields@[k].offset + PTR_SIZE {
                assert(in_ptr_slot(t, j));
            }
        }
        lemma_patched_byte(t, v, n, j);
    }
    assert(patch_shallow(t, v).subrange(le.offset as int, le.offset + le.width)
        =~= v.bytes@.subrange(le.offset as int, le.offset + le.width));
}

/// Bytes of the patched image outside every pointer slot equal the live
/// record's bytes.
pub proof fn lemma_patched_plain(t: TypeDesc, v: RecordValue, j: int)
    requires
        0 <= j < v.bytes@.len(),
        !in_ptr_slot(t, j),
    ensures
        patch_shallow(t, v)[j] == v.bytes@[j],
{
    let n = t.fields@.len() as int;
    assert forall|k: int| 0 <= k < n && k < t.fields@.len()
        && t.fields@[k].kind is CString && v.deep@[k] is Str
        implies !((#[trigger] t.fields@[k]).offset <= j
            < t.fields@[k].offset + PTR_SIZE) by {
        if t.fields@[k].offset <= j < t.fields@[k].offset + PTR_SIZE {
            assert(in_ptr_slot(t, j));
        }
    }
    lemma_patched_byte(t, v, n, j);
}

} // verus!
