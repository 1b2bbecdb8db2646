//! Unambiguity of the wire format: one buffer position holds the dump of at
//! most one record graph of a given type, up to structural equality.  This
//! is what makes a dump self-describing — nothing out of band is needed to
//! replay it, because no other graph could have produced those bytes.
//!
//! The proof walks two candidate values in step through the shared bytes:
//! their patched shallow images coincide, so they agree on every null test,
//! every length tag and every array count, and field by field their deep
//! payloads occupy the same bytes.

use vstd::prelude::*;
use crate::bytes::{bytes_at, le_bytes, le_val, lemma_bytes_at_concat, lemma_le_bytes_len,
    lemma_le_roundtrip, lemma_pow256_8, pad_len, zeros, PTR_SIZE};
use crate::descriptor::{
    ElemKind, FieldDesc, FieldKind, InnerKind, Schema, eval_len, field_wf, inner_kind_wf,
    kind_wf, schema_wf, type_wf, TypeDesc,
};
use crate::value::{
    deep_val_wf, deep_wf, elem_wf, equiv_deep, equiv_elem, equiv_rec, lemma_deep_wf_val,
    record_wf, slot_val, DeepValue, RecordValue,
};
use crate::wire::{
    arr_len, arr_region, elem_region, enc_elem, enc_elems, enc_field, enc_fields, enc_rec,
    holds_enc, inner_align, inner_stride, lemma_arr_region_len, lemma_elem_region_stride,
    lemma_patched_eval_len, lemma_patched_len, lemma_patched_plain, lemma_patched_slot,
    lemma_region_split, lemma_region_upto_len, patch_shallow, region_upto,
};

verus! {

/// Two byte strings that sit at the same position with the same length are
/// the same string.
proof fn lemma_bytes_at_agree(b: Seq<u8>, c: int, x: Seq<u8>, y: Seq<u8>)
    requires
        bytes_at(b, c, x),
        bytes_at(b, c, y),
        x.len() == y.len(),
    ensures
        x == y,
{
}

/// The format is unambiguous: if the buffer holds, at one position, dumps
/// of two well-formed records of the same type, the records are
/// structurally equal and the dumps have the same extent.
pub proof fn lemma_unambiguous(
    s: Schema,
    tid: int,
    v1: RecordValue,
    v2: RecordValue,
    b: Seq<u8>,
    c: int,
)
    requires
        schema_wf(s),
        holds_enc(s, tid, v1, b, c),
        holds_enc(s, tid, v2, b, c),
    ensures
        equiv_rec(s, tid, v1, v2),
        enc_rec(s, tid, v1, c).len() == enc_rec(s, tid, v2, c).len(),
    decreases v1, 3int, 0int,
{
    let t = s.types@[tid];
    assert(type_wf(s, t));
    let p = zeros(pad_len(c, t.align as int));
    let ps1 = patch_shallow(t, v1);
    let ps2 = patch_shallow(t, v2);
    lemma_patched_len(t, v1, t.fields@.len() as int);
    lemma_patched_len(t, v2, t.fields@.len() as int);
    let pos0 = c + p.len() + t.size;
    assert(enc_rec(s, tid, v1, c) == p + ps1 + enc_fields(s, tid, v1, pos0, 0));
    assert(enc_rec(s, tid, v2, c) == p + ps2 + enc_fields(s, tid, v2, pos0, 0));
    assert((p + ps1) + enc_fields(s, tid, v1, pos0, 0)
        =~= p + ps1 + enc_fields(s, tid, v1, pos0, 0));
    assert((p + ps2) + enc_fields(s, tid, v2, pos0, 0)
        =~= p + ps2 + enc_fields(s, tid, v2, pos0, 0));
    lemma_bytes_at_concat(b, c, p + ps1, enc_fields(s, tid, v1, pos0, 0));
    lemma_bytes_at_concat(b, c, p + ps2, enc_fields(s, tid, v2, pos0, 0));
    lemma_bytes_at_concat(b, c, p, ps1);
    lemma_bytes_at_concat(b, c, p, ps2);
    lemma_bytes_at_agree(b, c + p.len(), ps1, ps2);

    // with the shallow images equal, the plain bytes agree
    assert forall|j: int| 0 <= j < t.size && !crate::descriptor::in_ptr_slot(t, j)
        implies v1.bytes@[j] == v2.bytes@[j] by {
        lemma_patched_plain(t, v1, j);
        lemma_patched_plain(t, v2, j);
    }

    lemma_unambiguous_fields(s, tid, v1, v2, b, pos0, 0);
}

/// The per-field walk: with coinciding patched shallow images, the deep
/// payloads of fields `i ..` coincide value by value and span the same
/// bytes.
proof fn lemma_unambiguous_fields(
    s: Schema,
    tid: int,
    v1: RecordValue,
    v2: RecordValue,
    b: Seq<u8>,
    pos: int,
    i: int,
)
    requires
        schema_wf(s),
        0 <= tid < s.types@.len(),
        record_wf(s, tid, v1),
        record_wf(s, tid, v2),
        patch_shallow(s.types@[tid], v1) == patch_shallow(s.types@[tid], v2),
        0 <= i,
        bytes_at(b, pos, enc_fields(s, tid, v1, pos, i)),
        bytes_at(b, pos, enc_fields(s, tid, v2, pos, i)),
    ensures
        forall|k: int| i <= k < s.types@[tid].fields@.len()
            ==> equiv_deep(s, (#[trigger] s.types@[tid].fields@[k]).kind,
                v1.deep@[k], v2.deep@[k]),
        enc_fields(s, tid, v1, pos, i).len() == enc_fields(s, tid, v2, pos, i).len(),
    decreases v1, 2int, s.types@[tid].fields@.len() - i,
{
    let t = s.types@[tid];
    assert(type_wf(s, t));
    let n = t.fields@.len() as int;
    if i >= n {
        return;
    }
    let f = t.fields@[i];
    let d1 = v1.deep@[i];
    let d2 = v2.deep@[i];
    assert(field_wf(s, t, f));
    assert(deep_wf(s, f, v1.bytes@, d1));
    assert(deep_wf(s, f, v2.bytes@, d2));
    lemma_deep_wf_val(s, f, v1.bytes@, d1);
    lemma_deep_wf_val(s, f, v2.bytes@, d2);

    // the two values read the same wire slot, so they agree on null-ness
    // and, for a string field, on the length tag
    if !f.kind.is_shallow() {
        lemma_patched_slot(s, t, v1, i, n);
        lemma_patched_slot(s, t, v2, i, n);
        let off = f.offset as int;
        let slot = patch_shallow(t, v1).subrange(off, off + PTR_SIZE);
        lemma_slot_reading(s, t, f, v1, i, slot);
        lemma_slot_reading(s, t, f, v2, i, slot);
        if f.kind is CString && d1 is Str && d2 is Str {
            lemma_pow256_8();
            lemma_le_roundtrip(d1->Str_0@.len() + 1, 8);
            lemma_le_roundtrip(d2->Str_0@.len() + 1, 8);
        }
    }
    match f.kind {
        FieldKind::Array { len, inner: _ } => {
            lemma_patched_eval_len(t, v1, len);
            lemma_patched_eval_len(t, v2, len);
            assert(eval_len(len, v1.bytes@) == eval_len(len, v2.bytes@));
        },
        _ => {},
    }

    let piece1 = enc_field(s, f, d1, pos);
    let piece2 = enc_field(s, f, d2, pos);
    assert(enc_fields(s, tid, v1, pos, i)
        == piece1 + enc_fields(s, tid, v1, pos + piece1.len(), i + 1));
    assert(enc_fields(s, tid, v2, pos, i)
        == piece2 + enc_fields(s, tid, v2, pos + piece2.len(), i + 1));
    lemma_bytes_at_concat(b, pos, piece1,
        enc_fields(s, tid, v1, pos + piece1.len(), i + 1));
    lemma_bytes_at_concat(b, pos, piece2,
        enc_fields(s, tid, v2, pos + piece2.len(), i + 1));
    lemma_unambiguous_field(s, f, d1, d2, b, pos);
    lemma_unambiguous_fields(s, tid, v1, v2, b, pos + piece1.len(), i + 1);
}

/// What the wire slot of one non-shallow field says about the value behind
/// it: zero exactly for null, and the length tag for a non-null string.
proof fn lemma_slot_reading(
    s: Schema,
    t: TypeDesc,
    f: FieldDesc,
    v: RecordValue,
    i: int,
    slot: Seq<u8>,
)
    requires
        schema_wf(s),
        type_wf(s, t),
        0 <= i < t.fields@.len(),
        f == t.fields@[i],
        !f.kind.is_shallow(),
        v.bytes@.len() == t.size,
        v.deep@.len() == t.fields@.len(),
        deep_wf(s, f, v.bytes@, v.deep@[i]),
        slot == patch_shallow(t, v).subrange(f.offset as int, f.offset + PTR_SIZE),
    ensures
        (le_val(slot) == 0) <==> (v.deep@[i] is Null),
        (f.kind is CString && v.deep@[i] is Str)
            ==> slot == le_bytes(v.deep@[i]->Str_0@.len() + 1, 8),
{
    lemma_patched_slot(s, t, v, i, t.fields@.len() as int);
    let off = f.offset as int;
    if f.kind is CString && v.deep@[i] is Str {
        let m = v.deep@[i]->Str_0@.len();
        lemma_pow256_8();
        lemma_le_roundtrip(m + 1, 8);
        assert(le_val(slot) == m + 1);
    } else {
        assert(slot == v.bytes@.subrange(off, off + PTR_SIZE));
        assert(le_val(slot) == slot_val(v.bytes@, off));
    }
}

/// One field's deep payload: with the agreements the wire slot gives, two
/// payloads over the same bytes are structurally equal and equally long.
proof fn lemma_unambiguous_field(
    s: Schema,
    f: FieldDesc,
    d1: DeepValue,
    d2: DeepValue,
    b: Seq<u8>,
    pos: int,
)
    requires
        schema_wf(s),
        kind_wf(s, f.kind),
        deep_val_wf(s, f.kind, d1),
        deep_val_wf(s, f.kind, d2),
        d1 is Null <==> d2 is Null,
        (f.kind is CString && d1 is Str && d2 is Str)
            ==> d1->Str_0@.len() == d2->Str_0@.len(),
        (d1 is Arr && d2 is Arr) ==> arr_len(d1) == arr_len(d2),
        bytes_at(b, pos, enc_field(s, f, d1, pos)),
        bytes_at(b, pos, enc_field(s, f, d2, pos)),
    ensures
        equiv_deep(s, f.kind, d1, d2),
        enc_field(s, f, d1, pos).len() == enc_field(s, f, d2, pos).len(),
    decreases d1, 3int, 0int,
{
    match (f.kind, d1, d2) {
        (FieldKind::Reference(ElemKind::Prim { size, align }),
            DeepValue::Prim(b1), DeepValue::Prim(b2)) => {
            let p = zeros(pad_len(pos, align as int));
            lemma_bytes_at_concat(b, pos, p, b1@);
            lemma_bytes_at_concat(b, pos, p, b2@);
            lemma_bytes_at_agree(b, pos + p.len(), b1@, b2@);
        },
        (FieldKind::Reference(ElemKind::Rec { tid }),
            DeepValue::Rec(r1), DeepValue::Rec(r2)) => {
            lemma_unambiguous(s, tid as int, *r1, *r2, b, pos);
        },
        (FieldKind::CString, DeepValue::Str(b1), DeepValue::Str(b2)) => {
            assert(enc_field(s, f, d1, pos) == b1@ + seq![0u8]);
            assert(enc_field(s, f, d2, pos) == b2@ + seq![0u8]);
            lemma_bytes_at_agree(b, pos, b1@ + seq![0u8], b2@ + seq![0u8]);
            assert(b1@ =~= b2@) by {
                assert(forall|j: int| 0 <= j < b1@.len()
                    ==> b1@[j] == (b1@ + seq![0u8])[j] && b2@[j] == (b2@ + seq![0u8])[j]);
            }
        },
        (FieldKind::Dynamic, DeepValue::Dyn(t1, r1), DeepValue::Dyn(t2, r2)) => {
            lemma_pow256_8();
            lemma_unambiguous_dyn(s, t1 as int, t2 as int, *r1, *r2, b, pos);
        },
        (FieldKind::Array { len: _, inner }, DeepValue::Arr(_), DeepValue::Arr(_)) => {
            lemma_unambiguous_array(s, inner, d1, d2, b, pos);
        },
        _ => {
            // both null, or a shallow field: nothing on the wire
        },
    }
}

/// A dynamic payload names its own type on the wire, so two payloads over
/// the same bytes carry the same type id and equal records.
proof fn lemma_unambiguous_dyn(
    s: Schema,
    t1: int,
    t2: int,
    r1: RecordValue,
    r2: RecordValue,
    b: Seq<u8>,
    pos: int,
)
    requires
        schema_wf(s),
        0 <= t1 < s.types@.len(),
        0 <= t2 < s.types@.len(),
        t1 < crate::bytes::pow256(8),
        t2 < crate::bytes::pow256(8),
        record_wf(s, t1, r1),
        record_wf(s, t2, r2),
        bytes_at(b, pos, ({
            let p = zeros(pad_len(pos, PTR_SIZE as int));
            p + le_bytes(t1 as nat, 8) + enc_rec(s, t1, r1, pos + p.len() + 8)
        })),
        bytes_at(b, pos, ({
            let p = zeros(pad_len(pos, PTR_SIZE as int));
            p + le_bytes(t2 as nat, 8) + enc_rec(s, t2, r2, pos + p.len() + 8)
        })),
    ensures
        t1 == t2,
        equiv_rec(s, t1, r1, r2),
        ({
            let p = zeros(pad_len(pos, PTR_SIZE as int));
            (p + le_bytes(t1 as nat, 8) + enc_rec(s, t1, r1, pos + p.len() + 8)).len()
                == (p + le_bytes(t2 as nat, 8) + enc_rec(s, t2, r2, pos + p.len() + 8)).len()
        }),
    decreases r1, 4int, 0int,
{
    let p = zeros(pad_len(pos, PTR_SIZE as int));
    let w1 = le_bytes(t1 as nat, 8);
    let w2 = le_bytes(t2 as nat, 8);
    lemma_le_bytes_len(t1 as nat, 8);
    lemma_le_bytes_len(t2 as nat, 8);
    let e1 = enc_rec(s, t1, r1, pos + p.len() + 8);
    let e2 = enc_rec(s, t2, r2, pos + p.len() + 8);
    assert(p + w1 + e1 =~= (p + w1) + e1);
    assert(p + w2 + e2 =~= (p + w2) + e2);
    lemma_bytes_at_concat(b, pos, p + w1, e1);
    lemma_bytes_at_concat(b, pos, p + w2, e2);
    lemma_bytes_at_concat(b, pos, p, w1);
    lemma_bytes_at_concat(b, pos, p, w2);
    lemma_bytes_at_agree(b, pos + p.len(), w1, w2);
    lemma_pow256_8();
    lemma_le_roundtrip(t1 as nat, 8);
    lemma_le_roundtrip(t2 as nat, 8);
    assert(t1 == t2);
    lemma_unambiguous(s, t1, r1, r2, b, pos + p.len() + 8);
}

/// An array's region fixes, element by element, each element's tag or
/// image; the element payloads then coincide as the fields do.
proof fn lemma_unambiguous_array(
    s: Schema,
    ik: InnerKind,
    d1: DeepValue,
    d2: DeepValue,
    b: Seq<u8>,
    pos: int,
)
    requires
        schema_wf(s),
        inner_kind_wf(s, ik),
        d1 is Arr,
        d2 is Arr,
        arr_len(d1) == arr_len(d2),
        forall|m: int| 0 <= m < arr_len(d1)
            ==> elem_wf(s, ik, #[trigger] d1->Arr_0@[m]),
        forall|m: int| 0 <= m < arr_len(d2)
            ==> elem_wf(s, ik, #[trigger] d2->Arr_0@[m]),
        bytes_at(b, pos, ({
            let p = zeros(pad_len(pos, inner_align(s, ik)));
            let region = arr_region(s, ik, d1, 0);
            p + region + enc_elems(s, ik, d1, pos + p.len() + region.len(), 0)
        })),
        bytes_at(b, pos, ({
            let p = zeros(pad_len(pos, inner_align(s, ik)));
            let region = arr_region(s, ik, d2, 0);
            p + region + enc_elems(s, ik, d2, pos + p.len() + region.len(), 0)
        })),
    ensures
        equiv_deep_arr(s, ik, d1, d2),
        ({
            let p = zeros(pad_len(pos, inner_align(s, ik)));
            let region1 = arr_region(s, ik, d1, 0);
            let region2 = arr_region(s, ik, d2, 0);
            (p + region1 + enc_elems(s, ik, d1, pos + p.len() + region1.len(), 0)).len()
                == (p + region2 + enc_elems(s, ik, d2, pos + p.len() + region2.len(), 0)).len()
        }),
    decreases d1, 2int, 0int,
{
    let p = zeros(pad_len(pos, inner_align(s, ik)));
    let region1 = arr_region(s, ik, d1, 0);
    let region2 = arr_region(s, ik, d2, 0);
    lemma_arr_region_len(s, ik, d1, 0);
    lemma_arr_region_len(s, ik, d2, 0);
    let deeps1 = enc_elems(s, ik, d1, pos + p.len() + region1.len(), 0);
    let deeps2 = enc_elems(s, ik, d2, pos + p.len() + region2.len(), 0);
    assert(p + region1 + deeps1 =~= (p + region1) + deeps1);
    assert(p + region2 + deeps2 =~= (p + region2) + deeps2);
    lemma_bytes_at_concat(b, pos, p + region1, deeps1);
    lemma_bytes_at_concat(b, pos, p + region2, deeps2);
    lemma_bytes_at_concat(b, pos, p, region1);
    lemma_bytes_at_concat(b, pos, p, region2);
    lemma_bytes_at_agree(b, pos + p.len(), region1, region2);

    // element by element, the region images coincide
    assert forall|m: int| 0 <= m < arr_len(d1)
        implies elem_region(s, ik, d1->Arr_0@[m]) == elem_region(s, ik, d2->Arr_0@[m]) by {
        lemma_region_split(s, ik, d1, m);
        lemma_region_split(s, ik, d2, m);
        lemma_region_upto_len(s, ik, d1, m);
        lemma_region_upto_len(s, ik, d2, m);
        lemma_elem_region_stride(s, ik, d1->Arr_0@[m]);
        lemma_elem_region_stride(s, ik, d2->Arr_0@[m]);
        assert(arr_region(s, ik, d1, m)
            == elem_region(s, ik, d1->Arr_0@[m]) + arr_region(s, ik, d1, m + 1));
        assert(arr_region(s, ik, d2, m)
            == elem_region(s, ik, d2->Arr_0@[m]) + arr_region(s, ik, d2, m + 1));
        lemma_bytes_at_concat(region1, m * inner_stride(s, ik),
            elem_region(s, ik, d1->Arr_0@[m]), arr_region(s, ik, d1, m + 1));
        assert(bytes_at(region1, m * inner_stride(s, ik),
            elem_region(s, ik, d1->Arr_0@[m]))) by {
            assert(region1 == region_upto(s, ik, d1, m) + arr_region(s, ik, d1, m));
            lemma_bytes_at_concat(region1, 0, region_upto(s, ik, d1, m),
                arr_region(s, ik, d1, m));
            assert(bytes_at(region1, 0, region1)) by {
                assert(region1.subrange(0, region1.len() as int) =~= region1);
            }
            lemma_bytes_at_concat(region1, m * inner_stride(s, ik),
                elem_region(s, ik, d1->Arr_0@[m]), arr_region(s, ik, d1, m + 1));
        }
        assert(bytes_at(region1, m * inner_stride(s, ik),
            elem_region(s, ik, d2->Arr_0@[m]))) by {
            assert(region2 == region_upto(s, ik, d2, m) + arr_region(s, ik, d2, m));
            lemma_bytes_at_concat(region2, 0, region_upto(s, ik, d2, m),
                arr_region(s, ik, d2, m));
            assert(bytes_at(region2, 0, region2)) by {
                assert(region2.subrange(0, region2.len() as int) =~= region2);
            }
            lemma_bytes_at_concat(region2, m * inner_stride(s, ik),
                elem_region(s, ik, d2->Arr_0@[m]), arr_region(s, ik, d2, m + 1));
        }
        lemma_bytes_at_agree(region1, m * inner_stride(s, ik),
            elem_region(s, ik, d1->Arr_0@[m]), elem_region(s, ik, d2->Arr_0@[m]));
    }

    lemma_unambiguous_elems(s, ik, d1, d2, b, pos + p.len() + region1.len(), 0);
}

/// Structural equality of two array values under an element kind (the
/// array arm of `equiv_deep`, free of the enclosing field).
pub open spec fn equiv_deep_arr(s: Schema, ik: InnerKind, d1: DeepValue, d2: DeepValue) -> bool {
    &&& d1 is Arr
    &&& d2 is Arr
    &&& arr_len(d1) == arr_len(d2)
    &&& forall|j: int| 0 <= j < arr_len(d1)
        ==> equiv_elem(s, ik, #[trigger] d1->Arr_0@[j], d2->Arr_0@[j])
}

/// The per-element walk of the array case.
proof fn lemma_unambiguous_elems(
    s: Schema,
    ik: InnerKind,
    d1: DeepValue,
    d2: DeepValue,
    b: Seq<u8>,
    pos: int,
    j: int,
)
    requires
        schema_wf(s),
        inner_kind_wf(s, ik),
        d1 is Arr,
        d2 is Arr,
        arr_len(d1) == arr_len(d2),
        forall|m: int| 0 <= m < arr_len(d1)
            ==> elem_wf(s, ik, #[trigger] d1->Arr_0@[m]),
        forall|m: int| 0 <= m < arr_len(d2)
            ==> elem_wf(s, ik, #[trigger] d2->Arr_0@[m]),
        forall|m: int| 0 <= m < arr_len(d1)
            ==> elem_region(s, ik, #[trigger] d1->Arr_0@[m])
                == elem_region(s, ik, d2->Arr_0@[m]),
        0 <= j,
        bytes_at(b, pos, enc_elems(s, ik, d1, pos, j)),
        bytes_at(b, pos, enc_elems(s, ik, d2, pos, j)),
    ensures
        forall|m: int| j <= m < arr_len(d1)
            ==> equiv_elem(s, ik, #[trigger] d1->Arr_0@[m], d2->Arr_0@[m]),
        enc_elems(s, ik, d1, pos, j).len() == enc_elems(s, ik, d2, pos, j).len(),
    decreases d1, 1int, arr_len(d1) - j,
{
    if j >= arr_len(d1) {
        return;
    }
    let e1 = d1->Arr_0@[j];
    let e2 = d2->Arr_0@[j];
    let piece1 = enc_elem(s, ik, e1, pos);
    let piece2 = enc_elem(s, ik, e2, pos);
    assert(enc_elems(s, ik, d1, pos, j)
        == piece1 + enc_elems(s, ik, d1, pos + piece1.len(), j + 1));
    assert(enc_elems(s, ik, d2, pos, j)
        == piece2 + enc_elems(s, ik, d2, pos + piece2.len(), j + 1));
    lemma_bytes_at_concat(b, pos, piece1, enc_elems(s, ik, d1, pos + piece1.len(), j + 1));
    lemma_bytes_at_concat(b, pos, piece2, enc_elems(s, ik, d2, pos + piece2.len(), j + 1));
    lemma_unambiguous_elem(s, ik, e1, e2, b, pos);
    lemma_unambiguous_elems(s, ik, d1, d2, b, pos + piece1.len(), j + 1);
}

/// One array element's payload, with its region image shared.
proof fn lemma_unambiguous_elem(
    s: Schema,
    ik: InnerKind,
    e1: DeepValue,
    e2: DeepValue,
    b: Seq<u8>,
    pos: int,
)
    requires
        schema_wf(s),
        inner_kind_wf(s, ik),
        elem_wf(s, ik, e1),
        elem_wf(s, ik, e2),
        elem_region(s, ik, e1) == elem_region(s, ik, e2),
        bytes_at(b, pos, enc_elem(s, ik, e1, pos)),
        bytes_at(b, pos, enc_elem(s, ik, e2, pos)),
    ensures
        equiv_elem(s, ik, e1, e2),
        enc_elem(s, ik, e1, pos).len() == enc_elem(s, ik, e2, pos).len(),
    decreases e1, 3int, 0int,
{
    match (ik, e1, e2) {
        (InnerKind::PrimSlice { .. }, DeepValue::Prim(b1), DeepValue::Prim(b2)) => {
            // the region image is the element itself
            assert(b1@ == b2@);
        },
        (InnerKind::RecInline { tid }, DeepValue::Rec(r1), DeepValue::Rec(r2)) => {
            let t = s.types@[tid as int];
            assert(type_wf(s, t));
            assert(patch_shallow(t, *r1) == patch_shallow(t, *r2));
            lemma_patched_len(t, *r1, t.fields@.len() as int);
            lemma_patched_len(t, *r2, t.fields@.len() as int);
            assert forall|j: int| 0 <= j < t.size && !crate::descriptor::in_ptr_slot(t, j)
                implies r1.bytes@[j] == r2.bytes@[j] by {
                lemma_patched_plain(t, *r1, j);
                lemma_patched_plain(t, *r2, j);
            }
            lemma_unambiguous_fields(s, tid as int, *r1, *r2, b, pos, 0);
            assert(equiv_rec(s, tid as int, *r1, *r2));
        },
        (InnerKind::RecPtr { tid }, DeepValue::Rec(r1), DeepValue::Rec(r2)) => {
            lemma_unambiguous(s, tid as int, *r1, *r2, b, pos);
        },
        (InnerKind::CString, DeepValue::Str(b1), DeepValue::Str(b2)) => {
            // the region image is the length tag
            lemma_pow256_8();
            lemma_le_roundtrip(b1@.len() + 1, 8);
            lemma_le_roundtrip(b2@.len() + 1, 8);
            assert(b1@.len() == b2@.len());
            assert(enc_elem(s, ik, e1, pos) == b1@ + seq![0u8]);
            assert(enc_elem(s, ik, e2, pos) == b2@ + seq![0u8]);
            lemma_bytes_at_agree(b, pos, b1@ + seq![0u8], b2@ + seq![0u8]);
            assert(b1@ =~= b2@) by {
                assert(forall|j: int| 0 <= j < b1@.len()
                    ==> b1@[j] == (b1@ + seq![0u8])[j] && b2@[j] == (b2@ + seq![0u8])[j]);
            }
        },
        (InnerKind::Dynamic, DeepValue::Dyn(t1, r1), DeepValue::Dyn(t2, r2)) => {
            lemma_pow256_8();
            lemma_unambiguous_dyn(s, t1 as int, t2 as int, *r1, *r2, b, pos);
        },
        _ => {},
    }
}

} // verus!
