//! Live record graphs as owned values.
//!
//! A [`RecordValue`] is the shallow image of one record — `size` raw bytes,
//! pointer slots included — together with one [`DeepValue`] per declared
//! field.  Pointer slots in the shallow image carry only their null/non-null
//! distinction (a null field must have an all-zero slot); the referenced data
//! itself lives in the deep values.

use vstd::prelude::*;
use crate::bytes::{le_val, PTR_SIZE};
use crate::descriptor::{
    ElemKind, FieldDesc, FieldKind, InnerKind, Schema, TypeDesc, eval_len, in_ptr_slot,
};

verus! {

/// The deep part of one field of a live record.
pub enum DeepValue {
    /// A shallow field's placeholder, or a null pointer field.
    Null,
    /// The referenced bytes of a pointer to a primitive, or one primitive
    /// element of an array region.
    Prim(Vec<u8>),
    /// A referenced record.
    Rec(Box<RecordValue>),
    /// The bytes of a NUL-terminated string, without the terminator.
    Str(Vec<u8>),
    /// A dynamically typed payload: its runtime type id and its record.
    Dyn(usize, Box<RecordValue>),
    /// The elements of an array field.
    Arr(Vec<DeepValue>),
}

/// One live record: its shallow byte image and its deep fields in
/// declaration order.
pub struct RecordValue {
    pub bytes: Vec<u8>,
    pub deep: Vec<DeepValue>,
}

/// The value stored in the pointer slot at `off` of a shallow image.
pub open spec fn slot_val(shallow: Seq<u8>, off: int) -> nat {
    le_val(shallow.subrange(off, off + PTR_SIZE))
}

/// A byte string with no interior NUL, short enough that its length tag
/// (length plus terminator) fits a machine word.
pub open spec fn cstring_wf(b: Seq<u8>) -> bool {
    &&& b.len() < usize::MAX
    &&& forall|j: int| 0 <= j < b.len() ==> b[j] != 0
}

/// Well-formedness of a live record of type `tid` against schema `s`.
pub open spec fn record_wf(s: Schema, tid: int, v: RecordValue) -> bool
    decreases v, 1int,
{
    let t = s.types@[tid];
    &&& 0 <= tid < s.types@.len()
    &&& v.bytes@.len() == t.size
    &&& v.deep@.len() == t.fields@.len()
    &&& forall|i: int| 0 <= i < t.fields@.len()
        ==> deep_wf(s, #[trigger] t.fields@[i], v.bytes@, v.deep@[i])
}

/// Well-formedness of one deep field value against its descriptor and the
/// enclosing shallow image.  A pointer field is null exactly when its slot
/// is zero; an array's element count is what the length expression yields.
pub open spec fn deep_wf(s: Schema, f: FieldDesc, shallow: Seq<u8>, d: DeepValue) -> bool
    decreases d, 2int,
{
    match f.kind {
        FieldKind::Plain => d is Null,
        FieldKind::InlineArray => d is Null,
        FieldKind::Reference(ElemKind::Prim { size, align: _ }) => {
            match d {
                DeepValue::Null => slot_val(shallow, f.offset as int) == 0,
                DeepValue::Prim(b) => {
                    &&& slot_val(shallow, f.offset as int) != 0
                    &&& b@.len() == size
                },
                _ => false,
            }
        },
        FieldKind::Reference(ElemKind::Rec { tid }) => {
            match d {
                DeepValue::Null => slot_val(shallow, f.offset as int) == 0,
                DeepValue::Rec(r) => {
                    &&& slot_val(shallow, f.offset as int) != 0
                    &&& record_wf(s, tid as int, *r)
                },
                _ => false,
            }
        },
        FieldKind::CString => {
            match d {
                DeepValue::Null => slot_val(shallow, f.offset as int) == 0,
                DeepValue::Str(b) => {
                    &&& slot_val(shallow, f.offset as int) != 0
                    &&& cstring_wf(b@)
                },
                _ => false,
            }
        },
        FieldKind::Dynamic => {
            match d {
                DeepValue::Null => slot_val(shallow, f.offset as int) == 0,
                DeepValue::Dyn(dtid, r) => {
                    &&& slot_val(shallow, f.offset as int) != 0
                    &&& dtid < s.types@.len()
                    &&& record_wf(s, dtid as int, *r)
                },
                _ => false,
            }
        },
        FieldKind::Array { len, inner } => {
            match d {
                DeepValue::Null => slot_val(shallow, f.offset as int) == 0,
                DeepValue::Arr(elems) => {
                    &&& slot_val(shallow, f.offset as int) != 0
                    &&& elems@.len() == eval_len(len, shallow)
                    &&& forall|j: int| 0 <= j < elems@.len()
                        ==> elem_wf(s, inner, #[trigger] elems@[j])
                },
                _ => false,
            }
        },
    }
}

/// Well-formedness of one array element value against the array's element
/// kind.  Array elements are never null.
pub open spec fn elem_wf(s: Schema, ik: InnerKind, e: DeepValue) -> bool
    decreases e, 2int,
{
    match ik {
        InnerKind::PrimSlice { size, align: _ } => {
            e matches DeepValue::Prim(b) && b@.len() == size
        },
        InnerKind::RecInline { tid } => {
            e matches DeepValue::Rec(r) && record_wf(s, tid as int, *r)
        },
        InnerKind::RecPtr { tid } => {
            e matches DeepValue::Rec(r) && record_wf(s, tid as int, *r)
        },
        InnerKind::CString => {
            e matches DeepValue::Str(b) && cstring_wf(b@)
        },
        InnerKind::Dynamic => {
            e matches DeepValue::Dyn(dtid, r)
                && dtid < s.types@.len() && record_wf(s, dtid as int, *r)
        },
    }
}

/// Well-formedness of a deep field value on its own, apart from the
/// enclosing shallow image: the value matches its kind and its payload is
/// sound, but nothing is said about pointer slots or array counts.
pub open spec fn deep_val_wf(s: Schema, k: FieldKind, d: DeepValue) -> bool
    decreases d, 3int,
{
    match k {
        FieldKind::Plain => d is Null,
        FieldKind::InlineArray => d is Null,
        FieldKind::Reference(ElemKind::Prim { size, align: _ }) => {
            match d {
                DeepValue::Null => true,
                DeepValue::Prim(b) => b@.len() == size,
                _ => false,
            }
        },
        FieldKind::Reference(ElemKind::Rec { tid }) => {
            match d {
                DeepValue::Null => true,
                DeepValue::Rec(r) => record_wf(s, tid as int, *r),
                _ => false,
            }
        },
        FieldKind::CString => {
            match d {
                DeepValue::Null => true,
                DeepValue::Str(b) => cstring_wf(b@),
                _ => false,
            }
        },
        FieldKind::Dynamic => {
            match d {
                DeepValue::Null => true,
                DeepValue::Dyn(dtid, r) => {
                    dtid < s.types@.len() && record_wf(s, dtid as int, *r)
                },
                _ => false,
            }
        },
        FieldKind::Array { len: _, inner } => {
            match d {
                DeepValue::Null => true,
                DeepValue::Arr(elems) => {
                    forall|j: int| 0 <= j < elems@.len()
                        ==> elem_wf(s, inner, #[trigger] elems@[j])
                },
                _ => false,
            }
        },
    }
}

/// A deep value that is well-formed against a shallow image is well-formed
/// on its own.
pub proof fn lemma_deep_wf_val(s: Schema, f: FieldDesc, shallow: Seq<u8>, d: DeepValue)
    requires
        deep_wf(s, f, shallow, d),
    ensures
        deep_val_wf(s, f.kind, d),
{
}

/// Structural equality of records is transitive.
pub proof fn lemma_equiv_rec_trans(s: Schema, tid: int, a: RecordValue, b: RecordValue,
    c: RecordValue)
    requires
        equiv_rec(s, tid, a, b),
        equiv_rec(s, tid, b, c),
    ensures
        equiv_rec(s, tid, a, c),
    decreases a, 1int,
{
    let t = s.types@[tid];
    assert forall|i: int| 0 <= i < t.fields@.len()
        implies equiv_deep(s, (#[trigger] t.fields@[i]).kind, a.deep@[i], c.deep@[i]) by {
        lemma_equiv_deep_trans(s, t.fields@[i].kind, a.deep@[i], b.deep@[i], c.deep@[i]);
    }
}

/// Structural equality of deep field values is transitive.
pub proof fn lemma_equiv_deep_trans(s: Schema, k: FieldKind, a: DeepValue, b: DeepValue,
    c: DeepValue)
    requires
        equiv_deep(s, k, a, b),
        equiv_deep(s, k, b, c),
    ensures
        equiv_deep(s, k, a, c),
    decreases a, 2int,
{
    match k {
        FieldKind::Reference(ElemKind::Rec { tid }) => {
            match (a, b, c) {
                (DeepValue::Rec(x), DeepValue::Rec(y), DeepValue::Rec(z)) => {
                    lemma_equiv_rec_trans(s, tid as int, *x, *y, *z);
                },
                _ => {},
            }
        },
        FieldKind::Dynamic => {
            match (a, b, c) {
                (DeepValue::Dyn(_, x), DeepValue::Dyn(_, y), DeepValue::Dyn(zt, z)) => {
                    lemma_equiv_rec_trans(s, zt as int, *x, *y, *z);
                },
                _ => {},
            }
        },
        FieldKind::Array { len: _, inner } => {
            match (a, b, c) {
                (DeepValue::Arr(x), DeepValue::Arr(y), DeepValue::Arr(z)) => {
                    assert forall|j: int| 0 <= j < x@.len()
                        implies equiv_elem(s, inner, #[trigger] x@[j], z@[j]) by {
                        lemma_equiv_elem_trans(s, inner, x@[j], y@[j], z@[j]);
                    }
                },
                _ => {},
            }
        },
        _ => {},
    }
}

/// Structural equality of array elements is transitive.
pub proof fn lemma_equiv_elem_trans(s: Schema, ik: InnerKind, a: DeepValue, b: DeepValue,
    c: DeepValue)
    requires
        equiv_elem(s, ik, a, b),
        equiv_elem(s, ik, b, c),
    ensures
        equiv_elem(s, ik, a, c),
    decreases a, 2int,
{
    match ik {
        InnerKind::RecInline { tid } => {
            match (a, b, c) {
                (DeepValue::Rec(x), DeepValue::Rec(y), DeepValue::Rec(z)) => {
                    lemma_equiv_rec_trans(s, tid as int, *x, *y, *z);
                },
                _ => {},
            }
        },
        InnerKind::RecPtr { tid } => {
            match (a, b, c) {
                (DeepValue::Rec(x), DeepValue::Rec(y), DeepValue::Rec(z)) => {
                    lemma_equiv_rec_trans(s, tid as int, *x, *y, *z);
                },
                _ => {},
            }
        },
        InnerKind::Dynamic => {
            match (a, b, c) {
                (DeepValue::Dyn(_, x), DeepValue::Dyn(_, y), DeepValue::Dyn(zt, z)) => {
                    lemma_equiv_rec_trans(s, zt as int, *x, *y, *z);
                },
                _ => {},
            }
        },
        _ => {},
    }
}

/// A record equivalent to `b` has the same shape as anything `b` has.
pub proof fn lemma_shape_from_equiv_rec(s: Schema, tid: int, a: RecordValue, b: RecordValue,
    c: RecordValue)
    requires
        equiv_rec(s, tid, a, b),
        shape_eq(s, tid, c, b),
    ensures
        shape_eq(s, tid, c, a),
    decreases a, 1int,
{
    let t = s.types@[tid];
    assert forall|i: int| 0 <= i < t.fields@.len()
        implies shape_deep(s, (#[trigger] t.fields@[i]).kind, c.deep@[i], a.deep@[i]) by {
        lemma_shape_from_equiv_deep(s, t.fields@[i].kind, a.deep@[i], b.deep@[i], c.deep@[i]);
    }
}

/// The deep-field form of [`lemma_shape_from_equiv_rec`].
pub proof fn lemma_shape_from_equiv_deep(s: Schema, k: FieldKind, a: DeepValue, b: DeepValue,
    c: DeepValue)
    requires
        equiv_deep(s, k, a, b),
        shape_deep(s, k, c, b),
    ensures
        shape_deep(s, k, c, a),
    decreases a, 2int,
{
    match k {
        FieldKind::Reference(ElemKind::Rec { tid }) => {
            match (a, b, c) {
                (DeepValue::Rec(x), DeepValue::Rec(y), DeepValue::Rec(z)) => {
                    lemma_shape_from_equiv_rec(s, tid as int, *x, *y, *z);
                },
                _ => {},
            }
        },
        FieldKind::Dynamic => {
            match (a, b, c) {
                (DeepValue::Dyn(xt, x), DeepValue::Dyn(_, y), DeepValue::Dyn(_, z)) => {
                    lemma_shape_from_equiv_rec(s, xt as int, *x, *y, *z);
                },
                _ => {},
            }
        },
        FieldKind::Array { len: _, inner } => {
            match (a, b, c) {
                (DeepValue::Arr(x), DeepValue::Arr(y), DeepValue::Arr(z)) => {
                    assert forall|j: int| 0 <= j < z@.len()
                        implies shape_elem(s, inner, #[trigger] z@[j], x@[j]) by {
                        lemma_shape_from_equiv_elem(s, inner, x@[j], y@[j], z@[j]);
                    }
                },
                _ => {},
            }
        },
        _ => {},
    }
}

/// The array-element form of [`lemma_shape_from_equiv_rec`].
pub proof fn lemma_shape_from_equiv_elem(s: Schema, ik: InnerKind, a: DeepValue, b: DeepValue,
    c: DeepValue)
    requires
        equiv_elem(s, ik, a, b),
        shape_elem(s, ik, c, b),
    ensures
        shape_elem(s, ik, c, a),
    decreases a, 2int,
{
    match ik {
        InnerKind::RecInline { tid } => {
            match (a, b, c) {
                (DeepValue::Rec(x), DeepValue::Rec(y), DeepValue::Rec(z)) => {
                    lemma_shape_from_equiv_rec(s, tid as int, *x, *y, *z);
                },
                _ => {},
            }
        },
        InnerKind::RecPtr { tid } => {
            match (a, b, c) {
                (DeepValue::Rec(x), DeepValue::Rec(y), DeepValue::Rec(z)) => {
                    lemma_shape_from_equiv_rec(s, tid as int, *x, *y, *z);
                },
                _ => {},
            }
        },
        InnerKind::Dynamic => {
            match (a, b, c) {
                (DeepValue::Dyn(xt, x), DeepValue::Dyn(_, y), DeepValue::Dyn(_, z)) => {
                    lemma_shape_from_equiv_rec(s, xt as int, *x, *y, *z);
                },
                _ => {},
            }
        },
        _ => {},
    }
}

/// Structural equality of two live records of type `tid`: byte-equal outside
/// pointer slots, and field-wise equal through every reference, string,
/// array and dynamic payload.  Pointer slot contents are not compared — they
/// are addresses or tags, not data.
pub open spec fn equiv_rec(s: Schema, tid: int, a: RecordValue, b: RecordValue) -> bool
    decreases a, 1int,
{
    let t = s.types@[tid];
    &&& a.bytes@.len() == t.size
    &&& b.bytes@.len() == t.size
    &&& forall|j: int| 0 <= j < t.size && !in_ptr_slot(t, j) ==> a.bytes@[j] == b.bytes@[j]
    &&& a.deep@.len() == t.fields@.len()
    &&& b.deep@.len() == t.fields@.len()
    &&& forall|i: int| 0 <= i < t.fields@.len()
        ==> equiv_deep(s, (#[trigger] t.fields@[i]).kind, a.deep@[i], b.deep@[i])
}

/// Structural equality of one deep field value.
pub open spec fn equiv_deep(s: Schema, k: FieldKind, a: DeepValue, b: DeepValue) -> bool
    decreases a, 2int,
{
    match k {
        FieldKind::Plain => a is Null && b is Null,
        FieldKind::InlineArray => a is Null && b is Null,
        FieldKind::Reference(ElemKind::Prim { .. }) => {
            match (a, b) {
                (DeepValue::Null, DeepValue::Null) => true,
                (DeepValue::Prim(x), DeepValue::Prim(y)) => x@ == y@,
                _ => false,
            }
        },
        FieldKind::Reference(ElemKind::Rec { tid }) => {
            match (a, b) {
                (DeepValue::Null, DeepValue::Null) => true,
                (DeepValue::Rec(x), DeepValue::Rec(y)) => equiv_rec(s, tid as int, *x, *y),
                _ => false,
            }
        },
        FieldKind::CString => {
            match (a, b) {
                (DeepValue::Null, DeepValue::Null) => true,
                (DeepValue::Str(x), DeepValue::Str(y)) => x@ == y@,
                _ => false,
            }
        },
        FieldKind::Dynamic => {
            match (a, b) {
                (DeepValue::Null, DeepValue::Null) => true,
                (DeepValue::Dyn(xt, x), DeepValue::Dyn(yt, y)) => {
                    xt == yt && equiv_rec(s, xt as int, *x, *y)
                },
                _ => false,
            }
        },
        FieldKind::Array { len: _, inner } => {
            match (a, b) {
                (DeepValue::Null, DeepValue::Null) => true,
                (DeepValue::Arr(x), DeepValue::Arr(y)) => {
                    &&& x@.len() == y@.len()
                    &&& forall|j: int| 0 <= j < x@.len()
                        ==> equiv_elem(s, inner, #[trigger] x@[j], y@[j])
                },
                _ => false,
            }
        },
    }
}

/// Structural equality of one array element.
pub open spec fn equiv_elem(s: Schema, ik: InnerKind, a: DeepValue, b: DeepValue) -> bool
    decreases a, 2int,
{
    match ik {
        InnerKind::PrimSlice { .. } => {
            match (a, b) {
                (DeepValue::Prim(x), DeepValue::Prim(y)) => x@ == y@,
                _ => false,
            }
        },
        InnerKind::RecInline { tid } => {
            match (a, b) {
                (DeepValue::Rec(x), DeepValue::Rec(y)) => equiv_rec(s, tid as int, *x, *y),
                _ => false,
            }
        },
        InnerKind::RecPtr { tid } => {
            match (a, b) {
                (DeepValue::Rec(x), DeepValue::Rec(y)) => equiv_rec(s, tid as int, *x, *y),
                _ => false,
            }
        },
        InnerKind::CString => {
            match (a, b) {
                (DeepValue::Str(x), DeepValue::Str(y)) => x@ == y@,
                _ => false,
            }
        },
        InnerKind::Dynamic => {
            match (a, b) {
                (DeepValue::Dyn(xt, x), DeepValue::Dyn(yt, y)) => {
                    xt == yt && equiv_rec(s, xt as int, *x, *y)
                },
                _ => false,
            }
        },
    }
}

/// Same shape: the two records agree on which fields are null, on every
/// string length, every array length, every dynamic type id — everything
/// that fixes the layout of allocations, but not the payload bytes.  This is
/// what a caller of the in-place refresh guarantees about its tree.
pub open spec fn shape_eq(s: Schema, tid: int, a: RecordValue, b: RecordValue) -> bool
    decreases a, 1int,
{
    let t = s.types@[tid];
    &&& a.deep@.len() == t.fields@.len()
    &&& b.deep@.len() == t.fields@.len()
    &&& forall|i: int| 0 <= i < t.fields@.len()
        ==> shape_deep(s, (#[trigger] t.fields@[i]).kind, a.deep@[i], b.deep@[i])
}

/// Same shape of one deep field value.
pub open spec fn shape_deep(s: Schema, k: FieldKind, a: DeepValue, b: DeepValue) -> bool
    decreases a, 2int,
{
    match k {
        FieldKind::Plain => a is Null && b is Null,
        FieldKind::InlineArray => a is Null && b is Null,
        FieldKind::Reference(ElemKind::Prim { .. }) => {
            match (a, b) {
                (DeepValue::Null, DeepValue::Null) => true,
                (DeepValue::Prim(_), DeepValue::Prim(_)) => true,
                _ => false,
            }
        },
        FieldKind::Reference(ElemKind::Rec { tid }) => {
            match (a, b) {
                (DeepValue::Null, DeepValue::Null) => true,
                (DeepValue::Rec(x), DeepValue::Rec(y)) => shape_eq(s, tid as int, *x, *y),
                _ => false,
            }
        },
        FieldKind::CString => {
            match (a, b) {
                (DeepValue::Null, DeepValue::Null) => true,
                (DeepValue::Str(x), DeepValue::Str(y)) => x@.len() == y@.len(),
                _ => false,
            }
        },
        FieldKind::Dynamic => {
            match (a, b) {
                (DeepValue::Null, DeepValue::Null) => true,
                (DeepValue::Dyn(xt, x), DeepValue::Dyn(yt, y)) => {
                    xt == yt && shape_eq(s, xt as int, *x, *y)
                },
                _ => false,
            }
        },
        FieldKind::Array { len: _, inner } => {
            match (a, b) {
                (DeepValue::Null, DeepValue::Null) => true,
                (DeepValue::Arr(x), DeepValue::Arr(y)) => {
                    &&& x@.len() == y@.len()
                    &&& forall|j: int| 0 <= j < x@.len()
                        ==> shape_elem(s, inner, #[trigger] x@[j], y@[j])
                },
                _ => false,
            }
        },
    }
}

/// Same shape of one array element.
pub open spec fn shape_elem(s: Schema, ik: InnerKind, a: DeepValue, b: DeepValue) -> bool
    decreases a, 2int,
{
    match ik {
        InnerKind::PrimSlice { .. } => {
            a is Prim && b is Prim
        },
        InnerKind::RecInline { tid } => {
            match (a, b) {
                (DeepValue::Rec(x), DeepValue::Rec(y)) => shape_eq(s, tid as int, *x, *y),
                _ => false,
            }
        },
        InnerKind::RecPtr { tid } => {
            match (a, b) {
                (DeepValue::Rec(x), DeepValue::Rec(y)) => shape_eq(s, tid as int, *x, *y),
                _ => false,
            }
        },
        InnerKind::CString => {
            match (a, b) {
                (DeepValue::Str(x), DeepValue::Str(y)) => x@.len() == y@.len(),
                _ => false,
            }
        },
        InnerKind::Dynamic => {
            match (a, b) {
                (DeepValue::Dyn(xt, x), DeepValue::Dyn(yt, y)) => {
                    xt == yt && shape_eq(s, xt as int, *x, *y)
                },
                _ => false,
            }
        },
    }
}

/// Pointer identity preserved: `b` (the record after an in-place refresh)
/// keeps every pointer slot of `a` (the record before it), byte for byte, at
/// every level of the tree — only non-slot bytes and referenced payloads may
/// have changed.
pub open spec fn slots_preserved(s: Schema, tid: int, a: RecordValue, b: RecordValue) -> bool
    decreases a, 1int,
{
    let t = s.types@[tid];
    &&& a.bytes@.len() == t.size
    &&& b.bytes@.len() == t.size
    &&& forall|j: int| 0 <= j < t.size && in_ptr_slot(t, j) ==> a.bytes@[j] == b.bytes@[j]
    &&& a.deep@.len() == t.fields@.len()
    &&& b.deep@.len() == t.fields@.len()
    &&& forall|i: int| 0 <= i < t.fields@.len()
        ==> slots_deep(s, (#[trigger] t.fields@[i]).kind, a.deep@[i], b.deep@[i])
}

/// Pointer identity preserved in one deep field value.
pub open spec fn slots_deep(s: Schema, k: FieldKind, a: DeepValue, b: DeepValue) -> bool
    decreases a, 2int,
{
    match k {
        FieldKind::Reference(ElemKind::Rec { tid }) => {
            match (a, b) {
                (DeepValue::Rec(x), DeepValue::Rec(y)) => slots_preserved(s, tid as int, *x, *y),
                _ => true,
            }
        },
        FieldKind::Dynamic => {
            match (a, b) {
                (DeepValue::Dyn(xt, x), DeepValue::Dyn(yt, y)) => {
                    xt == yt && slots_preserved(s, xt as int, *x, *y)
                },
                _ => true,
            }
        },
        FieldKind::Array { len: _, inner } => {
            match (a, b) {
                (DeepValue::Arr(x), DeepValue::Arr(y)) => {
                    &&& x@.len() == y@.len()
                    &&& forall|j: int| 0 <= j < x@.len()
                        ==> slots_elem(s, inner, #[trigger] x@[j], y@[j])
                },
                _ => true,
            }
        },
        _ => true,
    }
}

/// Pointer identity preserved in one array element.
pub open spec fn slots_elem(s: Schema, ik: InnerKind, a: DeepValue, b: DeepValue) -> bool
    decreases a, 2int,
{
    match ik {
        InnerKind::RecInline { tid } => {
            match (a, b) {
                (DeepValue::Rec(x), DeepValue::Rec(y)) => slots_preserved(s, tid as int, *x, *y),
                _ => true,
            }
        },
        InnerKind::RecPtr { tid } => {
            match (a, b) {
                (DeepValue::Rec(x), DeepValue::Rec(y)) => slots_preserved(s, tid as int, *x, *y),
                _ => true,
            }
        },
        InnerKind::Dynamic => {
            match (a, b) {
                (DeepValue::Dyn(xt, x), DeepValue::Dyn(yt, y)) => {
                    xt == yt && slots_preserved(s, xt as int, *x, *y)
                },
                _ => true,
            }
        },
        _ => true,
    }
}

} // verus!
