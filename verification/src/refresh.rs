//! The in-place refresh behind `deserialize_to`: carry a freshly decoded
//! record graph into a caller-owned tree of the same shape, keeping every
//! pointer slot of the caller's tree byte for byte.
//!
//! The pointer slots of the caller's shallow image are restored over the
//! decoded image before it replaces the old one — the slot-restoring bulk
//! copy of the wire protocol — and the walk recurses through references,
//! arrays and dynamic payloads so that identity is preserved at every level.

use vstd::prelude::*;
use vstd::pervasive::VecAdditionalExecFns;
use crate::bytes::PTR_SIZE;
use crate::descriptor::{
    ElemKind, FieldKind, InnerKind, Schema, TypeDesc, eval_len, field_wf,
    in_ptr_slot, inner_kind_wf, kind_wf, len_expr_wf, schema_wf, type_wf,
};
use crate::value::{
    deep_val_wf, deep_wf, elem_wf, equiv_deep, equiv_elem, equiv_rec,
    lemma_deep_wf_val, record_wf, shape_deep, shape_elem, shape_eq, slot_val, slots_deep,
    slots_elem, slots_preserved, DeepValue, RecordValue,
};

verus! {

/// Byte `j` lies in the pointer slot of one of the first `i` fields.
pub open spec fn in_slot_upto(t: TypeDesc, j: int, i: int) -> bool {
    exists|k: int| 0 <= k < i && k < t.fields@.len()
        && !(#[trigger] t.fields@[k]).kind.is_shallow()
        && t.fields@[k].offset <= j < t.fields@[k].offset + PTR_SIZE
}

/// Refresh the caller-shaped record `dst` with the decoded record `src`:
/// the result carries `src`'s data in `dst`'s shape, with every pointer
/// slot of `dst` preserved, at every level of the tree.
pub fn refresh_record(s: &Schema, tid: usize, dst: &RecordValue, src: RecordValue)
    -> (r: RecordValue)
    requires
        schema_wf(*s),
        record_wf(*s, tid as int, *dst),
        record_wf(*s, tid as int, src),
        shape_eq(*s, tid as int, *dst, src),
    ensures
        record_wf(*s, tid as int, r),
        slots_preserved(*s, tid as int, *dst, r),
        equiv_rec(*s, tid as int, r, src),
    decreases *dst, 1int, 0int,
{
    let ghost t = s.types@[tid as int];
    proof {
        assert(type_wf(*s, t));
    }
    let mut bytes = src.bytes;
    let mut src_deep = src.deep;
    let ghost src0 = src;

    // restore the pointer slots of the caller's image over the decoded one
    let nf = s.types[tid].fields.len();
    let mut i: usize = 0;
    while i < nf
        invariant
            schema_wf(*s),
            (tid as int) < s.types@.len(),
            t == s.types@[tid as int],
            type_wf(*s, t),
            nf == t.fields@.len(),
            i <= nf,
            bytes@.len() == t.size,
            dst.bytes@.len() == t.size,
            forall|j: int| 0 <= j < t.size
                ==> bytes@[j] == if in_slot_upto(t, j, i as int) { dst.bytes@[j] }
                    else { src0.bytes@[j] },
        decreases nf - i,
    {
        let f = &s.types[tid].fields[i];
        proof {
            assert(field_wf(*s, t, t.fields@[i as int]));
        }
        if !f.kind.is_shallow_exec() {
            let off = f.offset;
            let mut k: usize = 0;
            while k < PTR_SIZE
                invariant
                    t == s.types@[tid as int],
                    nf == t.fields@.len(),
                    i < nf,
                    k <= PTR_SIZE,
                    off == t.fields@[i as int].offset,
                    !t.fields@[i as int].kind.is_shallow(),
                    off + PTR_SIZE <= t.size,
                    bytes@.len() == t.size,
                    dst.bytes@.len() == t.size,
                    forall|j: int| 0 <= j < t.size
                        ==> bytes@[j] == if in_slot_upto(t, j, i as int)
                                || (off <= j < off + k) { dst.bytes@[j] }
                            else { src0.bytes@[j] },
                decreases PTR_SIZE - k,
            {
                let b = dst.bytes[off + k];
                bytes.set(off + k, b);
                k = k + 1;
            }
            proof {
                assert forall|j: int| 0 <= j < t.size
                    implies (in_slot_upto(t, j, i + 1)
                        <==> (in_slot_upto(t, j, i as int) || (off <= j < off + PTR_SIZE)))
                    by {
                    if in_slot_upto(t, j, i + 1) {
                        let k2 = choose|k2: int| 0 <= k2 < i + 1 && k2 < t.fields@.len()
                            && !(#[trigger] t.fields@[k2]).kind.is_shallow()
                            && t.fields@[k2].offset <= j < t.fields@[k2].offset + PTR_SIZE;
                        if k2 < i {
                            assert(in_slot_upto(t, j, i as int));
                        }
                    }
                    if in_slot_upto(t, j, i as int) {
                        assert(in_slot_upto(t, j, i + 1));
                    }
                    if off <= j < off + PTR_SIZE {
                        assert(0 <= i < i + 1 && (i as int) < t.fields@.len());
                        assert(in_slot_upto(t, j, i + 1));
                    }
                }
            }
        } else {
            proof {
                assert forall|j: int| 0 <= j < t.size
                    implies (in_slot_upto(t, j, i + 1) <==> in_slot_upto(t, j, i as int))
                    by {
                    if in_slot_upto(t, j, i + 1) {
                        let k2 = choose|k2: int| 0 <= k2 < i + 1 && k2 < t.fields@.len()
                            && !(#[trigger] t.fields@[k2]).kind.is_shallow()
                            && t.fields@[k2].offset <= j < t.fields@[k2].offset + PTR_SIZE;
                        if k2 < i {
                            assert(in_slot_upto(t, j, i as int));
                        }
                    }
                    if in_slot_upto(t, j, i as int) {
                        assert(in_slot_upto(t, j, i + 1));
                    }
                }
            }
        }
        i = i + 1;
    }
    proof {
        assert forall|j: int| 0 <= j < t.size
            implies (in_slot_upto(t, j, nf as int) <==> in_ptr_slot(t, j)) by {
        }
    }

    // refresh each deep field, preserving the caller's nested slots
    let mut newdeep: Vec<DeepValue> = Vec::new();
    let mut i: usize = 0;
    while i < nf
        invariant
            schema_wf(*s),
            (tid as int) < s.types@.len(),
            t == s.types@[tid as int],
            type_wf(*s, t),
            nf == t.fields@.len(),
            i <= nf,
            src_deep@ == src0.deep@.skip(i as int),
            record_wf(*s, tid as int, *dst),
            record_wf(*s, tid as int, src0),
            shape_eq(*s, tid as int, *dst, src0),
            newdeep@.len() == i,
            forall|k: int| 0 <= k < i
                ==> equiv_deep(*s, (#[trigger] t.fields@[k]).kind, newdeep@[k], src0.deep@[k]),
            forall|k: int| 0 <= k < i
                ==> slots_deep(*s, (#[trigger] t.fields@[k]).kind, dst.deep@[k], newdeep@[k]),
            forall|k: int| 0 <= k < i
                ==> ((#[trigger] newdeep@[k]) is Null <==> dst.deep@[k] is Null),
            forall|k: int| 0 <= k < i
                ==> deep_val_wf(*s, (#[trigger] t.fields@[k]).kind, newdeep@[k]),
        decreases nf - i,
    {
        proof {
            assert(field_wf(*s, t, t.fields@[i as int]));
            assert(src_deep@[0] == src0.deep@[i as int]);
            assert(deep_wf(*s, t.fields@[i as int], dst.bytes@, dst.deep@[i as int]));
            assert(deep_wf(*s, t.fields@[i as int], src0.bytes@, src0.deep@[i as int]));
            lemma_deep_wf_val(*s, t.fields@[i as int], dst.bytes@, dst.deep@[i as int]);
            lemma_deep_wf_val(*s, t.fields@[i as int], src0.bytes@, src0.deep@[i as int]);
            assert(shape_deep(*s, t.fields@[i as int].kind, dst.deep@[i as int],
                src0.deep@[i as int]));
        }
        let sd = src_deep.remove(0);
        let nd = refresh_deep(s, &s.types[tid].fields[i].kind, &dst.deep[i], sd);
        newdeep.push(nd);
        proof {
            assert(src_deep@ =~= src0.deep@.skip(i + 1));
        }
        i = i + 1;
    }

    let r = RecordValue { bytes, deep: newdeep };
    proof {
        // plain bytes come from the decoded record, slots from the caller's
        assert forall|j: int| 0 <= j < t.size && !in_ptr_slot(t, j)
            implies r.bytes@[j] == src0.bytes@[j] by {
            assert(!in_slot_upto(t, j, nf as int));
        }
        assert forall|j: int| 0 <= j < t.size && in_ptr_slot(t, j)
            implies r.bytes@[j] == dst.bytes@[j] by {
            assert(in_slot_upto(t, j, nf as int));
        }
        // the result is a well-formed record of the same type
        assert forall|k: int| 0 <= k < t.fields@.len()
            implies deep_wf(*s, #[trigger] t.fields@[k], r.bytes@, r.deep@[k]) by {
            let f = t.fields@[k];
            assert(field_wf(*s, t, f));
            assert(deep_wf(*s, f, dst.bytes@, dst.deep@[k]));
            assert(deep_wf(*s, f, src0.bytes@, src0.deep@[k]));
            if !f.kind.is_shallow() {
                // the slot bytes of the result are the caller's
                assert(r.bytes@.subrange(f.offset as int, f.offset + PTR_SIZE)
                    =~= dst.bytes@.subrange(f.offset as int, f.offset + PTR_SIZE)) by {
                    assert forall|j: int| f.offset <= j < f.offset + PTR_SIZE
                        implies r.bytes@[j] == dst.bytes@[j] by {
                        assert(in_ptr_slot(t, j));
                        assert(in_slot_upto(t, j, nf as int));
                    }
                }
                assert(slot_val(r.bytes@, f.offset as int)
                    == slot_val(dst.bytes@, f.offset as int));
            }
            match f.kind {
                FieldKind::Array { len, inner } => {
                    assert(len_expr_wf(t, len));
                    assert(eval_len(len, r.bytes@) == eval_len(len, src0.bytes@)) by {
                        assert(r.bytes@.subrange(len.offset as int, len.offset + len.width)
                            =~= src0.bytes@.subrange(len.offset as int,
                                len.offset + len.width)) by {
                            assert forall|j: int| len.offset <= j < len.offset + len.width
                                implies r.bytes@[j] == src0.bytes@[j] by {
                                assert(!in_ptr_slot(t, j));
                                assert(!in_slot_upto(t, j, nf as int));
                            }
                        }
                    }
                },
                _ => {},
            }
        }
        assert(record_wf(*s, tid as int, r));
        assert(slots_preserved(*s, tid as int, *dst, r));
        assert(equiv_rec(*s, tid as int, r, src0));
    }
    r
}

/// Refresh one deep field value.
fn refresh_deep(s: &Schema, k: &FieldKind, dd: &DeepValue, sd: DeepValue) -> (r: DeepValue)
    requires
        schema_wf(*s),
        kind_wf(*s, *k),
        deep_val_wf(*s, *k, *dd),
        deep_val_wf(*s, *k, sd),
        shape_deep(*s, *k, *dd, sd),
    ensures
        deep_val_wf(*s, *k, r),
        equiv_deep(*s, *k, r, sd),
        slots_deep(*s, *k, *dd, r),
        r is Null <==> *dd is Null,
    decreases *dd, 3int, 0int,
{
    match (k, dd, sd) {
        (FieldKind::Reference(ElemKind::Rec { tid }), DeepValue::Rec(x), DeepValue::Rec(y)) => {
            let r2 = refresh_record(s, *tid, x, *y);
            DeepValue::Rec(Box::new(r2))
        },
        (FieldKind::Dynamic, DeepValue::Dyn(xt, x), DeepValue::Dyn(_yt, y)) => {
            let r2 = refresh_record(s, *xt, x, *y);
            DeepValue::Dyn(*xt, Box::new(r2))
        },
        (FieldKind::Array { len: _, inner }, DeepValue::Arr(xs), DeepValue::Arr(ys)) => {
            let ghost sd0 = DeepValue::Arr(ys);
            let mut ys = ys;
            let n = xs.len();
            let mut out: Vec<DeepValue> = Vec::new();
            let mut j: usize = 0;
            while j < n
                invariant
                    schema_wf(*s),
                    inner_kind_wf(*s, *inner),
                    *dd is Arr,
                    dd->Arr_0 == *xs,
                    j <= n,
                    n == xs@.len(),
                    n == sd0->Arr_0@.len(),
                    ys@ == sd0->Arr_0@.skip(j as int),
                    forall|m: int| 0 <= m < n
                        ==> elem_wf(*s, *inner, #[trigger] xs@[m]),
                    forall|m: int| 0 <= m < n
                        ==> elem_wf(*s, *inner, #[trigger] sd0->Arr_0@[m]),
                    forall|m: int| 0 <= m < n
                        ==> shape_elem(*s, *inner, #[trigger] xs@[m], sd0->Arr_0@[m]),
                    out@.len() == j,
                    forall|m: int| 0 <= m < j
                        ==> equiv_elem(*s, *inner, #[trigger] out@[m], sd0->Arr_0@[m]),
                    forall|m: int| 0 <= m < j
                        ==> slots_elem(*s, *inner, xs@[m], #[trigger] out@[m]),
                    forall|m: int| 0 <= m < j
                        ==> elem_wf(*s, *inner, #[trigger] out@[m]),
                decreases n - j,
            {
                proof {
                    assert(ys@[0] == sd0->Arr_0@[j as int]);
                    assert(decreases_to!(*dd => dd->Arr_0));
                    assert(decreases_to!(dd->Arr_0 => dd->Arr_0@));
                    assert(decreases_to!(dd->Arr_0@ => dd->Arr_0@[j as int]));
                    assert(xs@[j as int] == dd->Arr_0@[j as int]);
                }
                let se = ys.remove(0);
                let ne = refresh_elem(s, inner, &xs[j], se);
                out.push(ne);
                proof {
                    assert(ys@ =~= sd0->Arr_0@.skip(j + 1));
                }
                j = j + 1;
            }
            DeepValue::Arr(out)
        },
        (_, DeepValue::Null, DeepValue::Null) => DeepValue::Null,
        (_, _dd2, sd2) => {
            // remaining kinds carry no nested pointer slots: take the
            // decoded payload as is
            sd2
        },
    }
}

/// Refresh one array element.
fn refresh_elem(s: &Schema, ik: &InnerKind, de: &DeepValue, se: DeepValue) -> (r: DeepValue)
    requires
        schema_wf(*s),
        inner_kind_wf(*s, *ik),
        elem_wf(*s, *ik, *de),
        elem_wf(*s, *ik, se),
        shape_elem(*s, *ik, *de, se),
    ensures
        elem_wf(*s, *ik, r),
        equiv_elem(*s, *ik, r, se),
        slots_elem(*s, *ik, *de, r),
    decreases *de, 2int, 0int,
{
    match (ik, de, se) {
        (InnerKind::RecInline { tid }, DeepValue::Rec(x), DeepValue::Rec(y)) => {
            let r2 = refresh_record(s, *tid, x, *y);
            DeepValue::Rec(Box::new(r2))
        },
        (InnerKind::RecPtr { tid }, DeepValue::Rec(x), DeepValue::Rec(y)) => {
            let r2 = refresh_record(s, *tid, x, *y);
            DeepValue::Rec(Box::new(r2))
        },
        (InnerKind::Dynamic, DeepValue::Dyn(xt, x), DeepValue::Dyn(_yt, y)) => {
            let r2 = refresh_record(s, *xt, x, *y);
            DeepValue::Dyn(*xt, Box::new(r2))
        },
        (_, _de2, se2) => {
            // plain and string elements carry no nested pointer slots
            se2
        },
    }
}

} // verus!
