//! The deserializer: consumes a dumped buffer under the record's descriptor
//! and rebuilds an equivalent record graph.  Placement order is load-bearing:
//! each reference's pointee is found right where the serializer left it, a
//! string's extent is read from the length tag in its pointer slot, and an
//! array's count is re-evaluated from the shallow image.
//!
//! Every function is proved against the wire image: if the buffer holds
//! [`crate::wire::enc_rec`] of a well-formed value at the cursor, the result
//! is structurally equivalent to that value and the cursor ends exactly
//! after its dump.  The replayed graph is an owned tree of fresh storage:
//! nothing in it aliases the graph that was dumped.

use vstd::prelude::*;
use crate::buffer::{CDumpBufferReader, CDumpReader};
use crate::bytes::{
    bytes_at, le_bytes, lemma_bytes_at_concat, lemma_le_roundtrip,
    lemma_pow256_8, pad_len, read_le, zeros, PTR_SIZE,
};
use crate::descriptor::{
    ElemKind, FieldKind, InnerKind, Schema, eval_len, field_wf,
    inner_kind_wf, schema_wf, type_wf,
};
use crate::value::{
    deep_wf, elem_wf, equiv_deep, equiv_elem, equiv_rec, record_wf, slot_val,
    DeepValue, RecordValue,
};
use crate::wire::{
    arr_len, arr_region, elem_region, enc_elem, enc_elems, enc_field, enc_fields, enc_rec,
    holds_enc, inner_align, lemma_patched_eval_len, lemma_patched_len,
    lemma_patched_plain, lemma_patched_slot, lemma_region_split, patch_shallow, region_upto,
};

verus! {

/// Deserialize one record of type `tid` from the cursor, given (as a ghost
/// witness) the value whose dump the buffer holds there.  Returns an owned
/// record structurally equivalent to it; the cursor ends exactly after the
/// dump, so consecutive dumps replay in order.
pub fn deserialize_with(
    s: &Schema,
    tid: usize,
    rd: &mut CDumpBufferReader,
    Ghost(v): Ghost<RecordValue>,
) -> (r: RecordValue)
    requires
        schema_wf(*s),
        old(rd).inv(),
        holds_enc(*s, tid as int, v, old(rd).buf(), old(rd).read()),
    ensures
        final(rd).inv(),
        final(rd).buf() == old(rd).buf(),
        final(rd).read() == old(rd).read()
            + enc_rec(*s, tid as int, v, old(rd).read()).len(),
        record_wf(*s, tid as int, r),
        equiv_rec(*s, tid as int, r, v),
    decreases v, 3int, 0int,
{
    let ghost t = s.types@[tid as int];
    let ghost c0 = old(rd).read();
    let ghost p = zeros(pad_len(c0, t.align as int));
    let ghost ps = patch_shallow(t, v);
    let ghost deeps = enc_fields(*s, tid as int, v, c0 + p.len() + t.size, 0);
    proof {
        assert(type_wf(*s, t));
        lemma_patched_len(t, v, t.fields@.len() as int);
        assert(enc_rec(*s, tid as int, v, c0) == p + ps + deeps);
        lemma_bytes_at_concat(rd.buf(), c0, p + ps, deeps);
        lemma_bytes_at_concat(rd.buf(), c0, p, ps);
        assert((p + ps) + deeps =~= p + ps + deeps);
    }
    rd.align(s.types[tid].align);
    let shallow = rd.read_slice(s.types[tid].size);
    proof {
        assert(shallow@ == ps);
    }
    let deep = deserialize_without_shallow_copy(s, tid, rd, &shallow, Ghost(v));
    let r = RecordValue { bytes: shallow, deep };
    proof {
        // well-formedness of the rebuilt record
        assert(record_wf(*s, tid as int, r)) by {
            assert(r.bytes@.len() == t.size);
            assert(forall|i: int| 0 <= i < t.fields@.len()
                ==> deep_wf(*s, #[trigger] t.fields@[i], r.bytes@, r.deep@[i]));
        }
        // structural equivalence with the dumped value
        assert(equiv_rec(*s, tid as int, r, v)) by {
            assert forall|j: int| 0 <= j < t.size && !crate::descriptor::in_ptr_slot(t, j)
                implies r.bytes@[j] == v.bytes@[j] by {
                lemma_patched_plain(t, v, j);
            }
        }
    }
    r
}

/// Deserialize one record of type `tid` from the cursor (mode B: an owned
/// record).  The buffer must hold the dump of a well-formed record of that
/// type there; the result is structurally equivalent to it and the cursor
/// ends exactly after its dump.
pub fn deserialize(s: &Schema, tid: usize, rd: &mut CDumpBufferReader) -> (r: RecordValue)
    requires
        schema_wf(*s),
        old(rd).inv(),
        exists|v: RecordValue| holds_enc(*s, tid as int, v, old(rd).buf(), old(rd).read()),
    ensures
        final(rd).inv(),
        final(rd).buf() == old(rd).buf(),
        record_wf(*s, tid as int, r),
        forall|v: RecordValue| holds_enc(*s, tid as int, v, old(rd).buf(), old(rd).read())
            ==> equiv_rec(*s, tid as int, r, v)
                && final(rd).read() == old(rd).read()
                    + enc_rec(*s, tid as int, v, old(rd).read()).len(),
{
    let ghost v0 = choose|v: RecordValue|
        holds_enc(*s, tid as int, v, old(rd).buf(), old(rd).read());
    let r = deserialize_with(s, tid, rd, Ghost(v0));
    proof {
        assert forall|v: RecordValue|
            holds_enc(*s, tid as int, v, old(rd).buf(), old(rd).read())
            implies equiv_rec(*s, tid as int, r, v)
                && final(rd).read() == old(rd).read()
                    + enc_rec(*s, tid as int, v, old(rd).read()).len() by {
            crate::uniq::lemma_unambiguous(*s, tid as int, v0, v, old(rd).buf(),
                old(rd).read());
            crate::value::lemma_equiv_rec_trans(*s, tid as int, r, v0, v);
        }
    }
    r
}

/// Deserialize one record into a caller-owned tree of the same shape
/// (mode C: refresh).  Every pointer slot of `dst`'s tree keeps its bytes —
/// pointer identity is preserved — while all referenced payloads take the
/// dumped values.
pub fn deserialize_to_with(
    s: &Schema,
    tid: usize,
    rd: &mut CDumpBufferReader,
    dst: &mut RecordValue,
    Ghost(v): Ghost<RecordValue>,
)
    requires
        schema_wf(*s),
        old(rd).inv(),
        holds_enc(*s, tid as int, v, old(rd).buf(), old(rd).read()),
        record_wf(*s, tid as int, *old(dst)),
        crate::value::shape_eq(*s, tid as int, *old(dst), v),
    ensures
        final(rd).inv(),
        final(rd).buf() == old(rd).buf(),
        final(rd).read() == old(rd).read()
            + enc_rec(*s, tid as int, v, old(rd).read()).len(),
        record_wf(*s, tid as int, *final(dst)),
        crate::value::slots_preserved(*s, tid as int, *old(dst), *final(dst)),
        equiv_rec(*s, tid as int, *final(dst), v),
{
    let parsed = deserialize_with(s, tid, rd, Ghost(v));
    proof {
        crate::value::lemma_shape_from_equiv_rec(*s, tid as int, parsed, v, *dst);
    }
    let ghost parsed0 = parsed;
    let refreshed = crate::refresh::refresh_record(s, tid, dst, parsed);
    proof {
        crate::value::lemma_equiv_rec_trans(*s, tid as int, refreshed, parsed0, v);
    }
    *dst = refreshed;
}

/// [`deserialize_to_with`] without the ghost witness: the dumped value is
/// whichever well-formed record of type `tid` the buffer holds at the
/// cursor.
pub fn deserialize_to(s: &Schema, tid: usize, rd: &mut CDumpBufferReader,
    dst: &mut RecordValue)
    requires
        schema_wf(*s),
        old(rd).inv(),
        record_wf(*s, tid as int, *old(dst)),
        exists|v: RecordValue| holds_enc(*s, tid as int, v, old(rd).buf(), old(rd).read())
            && crate::value::shape_eq(*s, tid as int, *old(dst), v),
    ensures
        final(rd).inv(),
        final(rd).buf() == old(rd).buf(),
        record_wf(*s, tid as int, *final(dst)),
        crate::value::slots_preserved(*s, tid as int, *old(dst), *final(dst)),
        forall|v: RecordValue| holds_enc(*s, tid as int, v, old(rd).buf(), old(rd).read())
            ==> equiv_rec(*s, tid as int, *final(dst), v)
                && final(rd).read() == old(rd).read()
                    + enc_rec(*s, tid as int, v, old(rd).read()).len(),
{
    let ghost v0 = choose|v: RecordValue|
        holds_enc(*s, tid as int, v, old(rd).buf(), old(rd).read())
            && crate::value::shape_eq(*s, tid as int, *old(dst), v);
    deserialize_to_with(s, tid, rd, dst, Ghost(v0));
    proof {
        assert forall|v: RecordValue|
            holds_enc(*s, tid as int, v, old(rd).buf(), old(rd).read())
            implies equiv_rec(*s, tid as int, *dst, v)
                && final(rd).read() == old(rd).read()
                    + enc_rec(*s, tid as int, v, old(rd).read()).len() by {
            crate::uniq::lemma_unambiguous(*s, tid as int, v0, v, old(rd).buf(),
                old(rd).read());
            crate::value::lemma_equiv_rec_trans(*s, tid as int, *dst, v0, v);
        }
    }
}

/// Deserialize the deep part of every field of a record whose (patched)
/// shallow image has just been consumed, returning the deep values in
/// declaration order.
fn deserialize_without_shallow_copy(
    s: &Schema,
    tid: usize,
    rd: &mut CDumpBufferReader,
    shallow: &Vec<u8>,
    Ghost(v): Ghost<RecordValue>,
) -> (deep: Vec<DeepValue>)
    requires
        schema_wf(*s),
        record_wf(*s, tid as int, v),
        old(rd).inv(),
        shallow@ == patch_shallow(s.types@[tid as int], v),
        bytes_at(
            old(rd).buf(),
            old(rd).read(),
            enc_fields(*s, tid as int, v, old(rd).read(), 0),
        ),
    ensures
        final(rd).inv(),
        final(rd).buf() == old(rd).buf(),
        final(rd).read() == old(rd).read()
            + enc_fields(*s, tid as int, v, old(rd).read(), 0).len(),
        deep@.len() == s.types@[tid as int].fields@.len(),
        forall|i: int| 0 <= i < deep@.len()
            ==> equiv_deep(*s, (#[trigger] s.types@[tid as int].fields@[i]).kind,
                deep@[i], v.deep@[i]),
        forall|i: int| 0 <= i < deep@.len()
            ==> deep_wf(*s, #[trigger] s.types@[tid as int].fields@[i], shallow@, deep@[i]),
    decreases v, 2int, 0int,
{
    let ghost t = s.types@[tid as int];
    let ghost c0 = old(rd).read();
    let nf = s.types[tid].fields.len();
    let mut deep: Vec<DeepValue> = Vec::new();
    proof {
        assert(type_wf(*s, t));
        lemma_patched_len(t, v, t.fields@.len() as int);
    }
    let mut i: usize = 0;
    while i < nf
        invariant
            schema_wf(*s),
            record_wf(*s, tid as int, v),
            t == s.types@[tid as int],
            type_wf(*s, t),
            nf == t.fields@.len(),
            shallow@ == patch_shallow(t, v),
            shallow@.len() == t.size,
            i <= nf,
            deep@.len() == i,
            rd.inv(),
            rd.buf() == old(rd).buf(),
            bytes_at(rd.buf(), rd.read(), enc_fields(*s, tid as int, v, rd.read(), i as int)),
            c0 + enc_fields(*s, tid as int, v, c0, 0).len()
                == rd.read() + enc_fields(*s, tid as int, v, rd.read(), i as int).len(),
            forall|k: int| 0 <= k < i
                ==> equiv_deep(*s, (#[trigger] t.fields@[k]).kind, deep@[k], v.deep@[k]),
            forall|k: int| 0 <= k < i
                ==> deep_wf(*s, #[trigger] t.fields@[k], shallow@, deep@[k]),
        decreases nf - i,
    {
        let ghost f = t.fields@[i as int];
        let ghost dv = v.deep@[i as int];
        let ghost cur = rd.read();
        let ghost piece = enc_field(*s, f, dv, cur);
        proof {
            assert(field_wf(*s, t, f));
            assert(deep_wf(*s, f, v.bytes@, dv));
            assert(enc_fields(*s, tid as int, v, cur, i as int)
                == piece + enc_fields(*s, tid as int, v, cur + piece.len(), i + 1));
            lemma_bytes_at_concat(rd.buf(), cur, piece,
                enc_fields(*s, tid as int, v, cur + piece.len(), i + 1));
        }
        let d = deserialize_field(s, i, tid, rd, shallow, Ghost(v));
        deep.push(d);
        i = i + 1;
    }
    deep
}

/// Deserialize the deep part of field `i`, reading its pointer slot from the
/// consumed shallow image to decide null, string length and array count.
fn deserialize_field(
    s: &Schema,
    i: usize,
    tid: usize,
    rd: &mut CDumpBufferReader,
    shallow: &Vec<u8>,
    Ghost(v): Ghost<RecordValue>,
) -> (d: DeepValue)
    requires
        schema_wf(*s),
        record_wf(*s, tid as int, v),
        i < s.types@[tid as int].fields@.len(),
        old(rd).inv(),
        shallow@ == patch_shallow(s.types@[tid as int], v),
        bytes_at(
            old(rd).buf(),
            old(rd).read(),
            enc_field(*s, s.types@[tid as int].fields@[i as int], v.deep@[i as int],
                old(rd).read()),
        ),
    ensures
        final(rd).inv(),
        final(rd).buf() == old(rd).buf(),
        final(rd).read() == old(rd).read()
            + enc_field(*s, s.types@[tid as int].fields@[i as int], v.deep@[i as int],
                old(rd).read()).len(),
        equiv_deep(*s, s.types@[tid as int].fields@[i as int].kind, d, v.deep@[i as int]),
        deep_wf(*s, s.types@[tid as int].fields@[i as int], shallow@, d),
    decreases v, 1int, 0int,
{
    let ghost t = s.types@[tid as int];
    let ghost f = t.fields@[i as int];
    let ghost dv = v.deep@[i as int];
    let ghost cur = old(rd).read();
    let ghost piece = enc_field(*s, f, dv, cur);
    proof {
        assert(type_wf(*s, t));
        assert(field_wf(*s, t, f));
        assert(deep_wf(*s, f, v.bytes@, dv));
        lemma_patched_len(t, v, t.fields@.len() as int);
    }
    let fd = &s.types[tid].fields[i];
    if fd.kind.is_shallow_exec() {
        proof {
            assert(dv is Null);
            assert(piece =~= Seq::<u8>::empty());
        }
        return DeepValue::Null;
    }
    let off = fd.offset;
    let sv = read_le(shallow, off, PTR_SIZE);
    proof {
        lemma_patched_slot(*s, t, v, i as int, t.fields@.len() as int);
        assert(sv as nat == slot_val(shallow@, off as int));
        if f.kind is CString && dv is Str {
            let n = dv->Str_0@.len();
            lemma_pow256_8();
            lemma_le_roundtrip(n + 1, 8);
            assert(sv as nat == n + 1);
        } else {
            assert(shallow@.subrange(off as int, off + PTR_SIZE)
                == v.bytes@.subrange(off as int, off + PTR_SIZE));
            assert(sv as nat == slot_val(v.bytes@, off as int));
        }
        assert((sv == 0) <==> (dv is Null));
    }
    if sv == 0 {
        proof {
            assert(piece =~= Seq::<u8>::empty());
            assert(deep_wf(*s, f, shallow@, DeepValue::Null));
        }
        return DeepValue::Null;
    }
    match &fd.kind {
        FieldKind::Reference(ElemKind::Prim { size, align }) => {
            let ghost b = dv->Prim_0;
            proof {
                assert(piece == zeros(pad_len(cur, *align as int)) + b@);
                lemma_bytes_at_concat(rd.buf(), cur, zeros(pad_len(cur, *align as int)), b@);
            }
            rd.align(*align);
            let bytes = rd.read_slice(*size);
            proof {
                assert(bytes@ == b@);
            }
            DeepValue::Prim(bytes)
        },
        FieldKind::Reference(ElemKind::Rec { tid: tid2 }) => {
            let ghost sub = dv->Rec_0;
            proof {
                assert(piece == enc_rec(*s, *tid2 as int, *sub, cur));
            }
            let r2 = deserialize_with(s, *tid2, rd, Ghost(*sub));
            DeepValue::Rec(Box::new(r2))
        },
        FieldKind::CString => {
            let ghost b = dv->Str_0;
            proof {
                assert(piece == b@ + seq![0u8]);
                assert(piece.len() == b@.len() + 1);
                assert(sv as nat <= usize::MAX as nat);
            }
            let mut sb = rd.read_slice(sv as usize);
            proof {
                assert(sb@ == b@ + seq![0u8]);
            }
            let _last = sb.pop();
            proof {
                assert(sb@ =~= b@);
            }
            DeepValue::Str(sb)
        },
        FieldKind::Dynamic => {
            let (dtid, r2) = deserialize_dyn(s, rd, Ghost(dv));
            DeepValue::Dyn(dtid, Box::new(r2))
        },
        FieldKind::Array { len: _, inner } => {
            let cnt = eval_len_exec(s, tid, i, shallow);
            let ghost elems = dv->Arr_0;
            proof {
                lemma_patched_eval_len(t, v, f.kind->Array_len);
                assert(cnt as nat == eval_len(f.kind->Array_len, v.bytes@));
                assert(elems@.len() == cnt as nat);
            }
            let d2 = deserialize_array(s, inner, cnt, rd, Ghost(dv));
            d2
        },
        _ => {
            // the shallow kinds were dispatched above
            proof {
                assert(false);
            }
            DeepValue::Null
        },
    }
}

/// Read the type-id word of a dynamic payload and deserialize the record of
/// that type.
fn deserialize_dyn(
    s: &Schema,
    rd: &mut CDumpBufferReader,
    Ghost(dv): Ghost<DeepValue>,
) -> (r: (usize, RecordValue))
    requires
        schema_wf(*s),
        dv matches DeepValue::Dyn(dtid, sub)
            && dtid < s.types@.len() && record_wf(*s, dtid as int, *sub),
        old(rd).inv(),
        bytes_at(old(rd).buf(), old(rd).read(), ({
            let p = zeros(pad_len(old(rd).read(), PTR_SIZE as int));
            p + le_bytes(dv->Dyn_0 as nat, 8)
                + enc_rec(*s, dv->Dyn_0 as int, *dv->Dyn_1, old(rd).read() + p.len() + 8)
        })),
    ensures
        final(rd).inv(),
        final(rd).buf() == old(rd).buf(),
        final(rd).read() == old(rd).read() + ({
            let p = zeros(pad_len(old(rd).read(), PTR_SIZE as int));
            p + le_bytes(dv->Dyn_0 as nat, 8)
                + enc_rec(*s, dv->Dyn_0 as int, *dv->Dyn_1, old(rd).read() + p.len() + 8)
        }).len(),
        r.0 == dv->Dyn_0,
        record_wf(*s, r.0 as int, r.1),
        equiv_rec(*s, r.0 as int, r.1, *dv->Dyn_1),
    decreases *dv->Dyn_1, 4int, 0int,
{
    let ghost cur = old(rd).read();
    let ghost p = zeros(pad_len(cur, PTR_SIZE as int));
    let ghost w = le_bytes(dv->Dyn_0 as nat, 8);
    let ghost sub = dv->Dyn_1;
    proof {
        crate::bytes::lemma_le_bytes_len(dv->Dyn_0 as nat, 8);
        assert(p + w + enc_rec(*s, dv->Dyn_0 as int, *sub, cur + p.len() + 8)
            =~= (p + w) + enc_rec(*s, dv->Dyn_0 as int, *sub, cur + p.len() + 8));
        lemma_bytes_at_concat(rd.buf(), cur, p + w,
            enc_rec(*s, dv->Dyn_0 as int, *sub, cur + p.len() + 8));
        lemma_bytes_at_concat(rd.buf(), cur, p, w);
    }
    rd.align(PTR_SIZE);
    let wv = rd.read_slice(PTR_SIZE);
    let tag = read_le(&wv, 0, PTR_SIZE);
    proof {
        assert(wv@ == w);
        assert(wv@.subrange(0, 8) =~= wv@);
        lemma_pow256_8();
        lemma_le_roundtrip(dv->Dyn_0 as nat, 8);
        assert(tag as nat == dv->Dyn_0 as nat);
    }
    let dtid = tag as usize;
    let r2 = deserialize_with(s, dtid, rd, Ghost(*sub));
    (dtid, r2)
}

/// Evaluate an array field's length expression against a shallow image.
fn eval_len_exec(s: &Schema, tid: usize, i: usize, shallow: &Vec<u8>) -> (r: u64)
    requires
        schema_wf(*s),
        tid < s.types@.len(),
        i < s.types@[tid as int].fields@.len(),
        s.types@[tid as int].fields@[i as int].kind is Array,
        shallow@.len() == s.types@[tid as int].size,
    ensures
        r as nat == eval_len(
            s.types@[tid as int].fields@[i as int].kind->Array_len, shallow@),
{
    let ghost t = s.types@[tid as int];
    proof {
        assert(type_wf(*s, t));
        assert(field_wf(*s, t, t.fields@[i as int]));
    }
    let fd = &s.types[tid].fields[i];
    match &fd.kind {
        FieldKind::Array { len, inner: _ } => {
            let raw = read_le(shallow, len.offset, len.width);
            raw / len.divisor
        },
        _ => {
            proof {
                assert(false);
            }
            0
        },
    }
}

/// Deserialize the elements of a non-null array field: consume the shallow
/// region, then each element's deep payload, rewriting nothing — the counts
/// and tags read from the region drive the walk.
fn deserialize_array(
    s: &Schema,
    ik: &InnerKind,
    cnt: u64,
    rd: &mut CDumpBufferReader,
    Ghost(dv): Ghost<DeepValue>,
) -> (d: DeepValue)
    requires
        schema_wf(*s),
        inner_kind_wf(*s, *ik),
        dv matches DeepValue::Arr(elems)
            && elems@.len() == cnt as nat
            && forall|j: int| 0 <= j < elems@.len()
                ==> elem_wf(*s, *ik, #[trigger] elems@[j]),
        old(rd).inv(),
        bytes_at(old(rd).buf(), old(rd).read(), ({
            let p = zeros(pad_len(old(rd).read(), inner_align(*s, *ik)));
            let region = arr_region(*s, *ik, dv, 0);
            p + region + enc_elems(*s, *ik, dv,
                old(rd).read() + p.len() + region.len(), 0)
        })),
    ensures
        final(rd).inv(),
        final(rd).buf() == old(rd).buf(),
        final(rd).read() == old(rd).read() + ({
            let p = zeros(pad_len(old(rd).read(), inner_align(*s, *ik)));
            let region = arr_region(*s, *ik, dv, 0);
            p + region + enc_elems(*s, *ik, dv,
                old(rd).read() + p.len() + region.len(), 0)
        }).len(),
        d matches DeepValue::Arr(res)
            && res@.len() == cnt as nat
            && (forall|j: int| 0 <= j < res@.len()
                ==> equiv_elem(*s, *ik, #[trigger] res@[j], dv->Arr_0@[j]))
            && (forall|j: int| 0 <= j < res@.len()
                ==> elem_wf(*s, *ik, #[trigger] res@[j])),
    decreases dv, 2int, 0int,
{
    let ghost c0 = old(rd).read();
    let ghost p = zeros(pad_len(c0, inner_align(*s, *ik)));
    let ghost region = arr_region(*s, *ik, dv, 0);
    let ghost deeps = enc_elems(*s, *ik, dv, c0 + p.len() + region.len(), 0);
    let al: usize = match ik {
        InnerKind::PrimSlice { size: _, align } => *align,
        InnerKind::RecInline { tid } => s.types[*tid].align,
        InnerKind::RecPtr { .. } => PTR_SIZE,
        InnerKind::CString => PTR_SIZE,
        InnerKind::Dynamic => PTR_SIZE,
    };
    proof {
        match ik {
            InnerKind::RecInline { tid } => {
                assert(type_wf(*s, s.types@[*tid as int]));
            },
            _ => {},
        }
        assert(al as int == inner_align(*s, *ik));
        assert(al >= 1);
        assert(p + region + deeps =~= (p + region) + deeps);
        assert(p + region + deeps =~= p + (region + deeps));
        lemma_bytes_at_concat(rd.buf(), c0, p, region + deeps);
    }
    rd.align(al);
    let ghost r0 = rd.read();
    proof {
        lemma_bytes_at_concat(rd.buf(), r0, region, deeps);
    }

    // phase one: the shallow region, collecting what the deep pass needs
    let mut tags: Vec<u64> = Vec::new();
    let mut shallows: Vec<Vec<u8>> = Vec::new();
    let mut prims: Vec<DeepValue> = Vec::new();
    let mut j: u64 = 0;
    while j < cnt
        invariant
            schema_wf(*s),
            inner_kind_wf(*s, *ik),
            dv matches DeepValue::Arr(elems)
                && elems@.len() == cnt as nat
                && forall|k: int| 0 <= k < elems@.len()
                    ==> elem_wf(*s, *ik, #[trigger] elems@[k]),
            j <= cnt,
            rd.inv(),
            rd.buf() == old(rd).buf(),
            rd.read() == r0 + region_upto(*s, *ik, dv, j as int).len(),
            region == region_upto(*s, *ik, dv, j as int)
                + arr_region(*s, *ik, dv, j as int),
            bytes_at(rd.buf(), r0, region),
            r0 + region.len() + deeps.len() <= rd.buf().len(),
            ik is PrimSlice ==> prims@.len() == j as int
                && forall|k: int| 0 <= k < j as int
                    ==> equiv_elem(*s, *ik, #[trigger] prims@[k], dv->Arr_0@[k])
                        && elem_wf(*s, *ik, prims@[k]),
            ik is RecInline ==> shallows@.len() == j as int
                && forall|k: int| 0 <= k < j as int
                    ==> (#[trigger] shallows@[k])@ == elem_region(*s, *ik, dv->Arr_0@[k]),
            ik is CString ==> tags@.len() == j as int
                && forall|k: int| 0 <= k < j as int
                    ==> (#[trigger] tags@[k]) as nat
                        == dv->Arr_0@[k]->Str_0@.len() + 1,
        decreases cnt - j,
    {
        let ghost e = dv->Arr_0@[j as int];
        let ghost fin = elem_region(*s, *ik, e);
        proof {
            assert(elem_wf(*s, *ik, e));
            assert(arr_region(*s, *ik, dv, j as int)
                == fin + arr_region(*s, *ik, dv, j + 1));
            assert(region_upto(*s, *ik, dv, j + 1)
                == region_upto(*s, *ik, dv, j as int) + fin);
            // the bytes at the cursor are this element's region image
            assert(bytes_at(rd.buf(), rd.read(), fin)) by {
                lemma_bytes_at_concat(rd.buf(), r0, region_upto(*s, *ik, dv, j as int),
                    arr_region(*s, *ik, dv, j as int));
                lemma_bytes_at_concat(rd.buf(), rd.read(), fin,
                    arr_region(*s, *ik, dv, j + 1));
            }
        }
        match ik {
            InnerKind::PrimSlice { size, align: _ } => {
                proof {
                    assert(fin == e->Prim_0@);
                    assert(fin.len() == *size);
                }
                let b = rd.read_slice(*size);
                proof {
                    assert(b@ == e->Prim_0@);
                }
                prims.push(DeepValue::Prim(b));
            },
            InnerKind::RecInline { tid } => {
                proof {
                    assert(type_wf(*s, s.types@[*tid as int]));
                    lemma_patched_len(s.types@[*tid as int], *e->Rec_0,
                        s.types@[*tid as int].fields@.len() as int);
                    assert(fin.len() == s.types@[*tid as int].size);
                }
                let sh = rd.read_slice(s.types[*tid].size);
                proof {
                    assert(sh@ == fin);
                }
                shallows.push(sh);
            },
            InnerKind::RecPtr { .. } => {
                proof {
                    assert(fin.len() == PTR_SIZE);
                }
                rd.add_read(PTR_SIZE);
            },
            InnerKind::CString => {
                let ghost n = e->Str_0@.len();
                proof {
                    crate::bytes::lemma_le_bytes_len(n + 1, 8);
                    assert(fin == le_bytes(n + 1, 8));
                    assert(fin.len() == PTR_SIZE);
                }
                let w = rd.read_slice(PTR_SIZE);
                proof {
                    assert(w@ == fin);
                    assert(w@.len() == 8);
                    assert(w@.subrange(0, 8) =~= w@);
                }
                let tag = read_le(&w, 0, PTR_SIZE);
                proof {
                    lemma_pow256_8();
                    lemma_le_roundtrip(n + 1, 8);
                    assert(tag as nat == n + 1);
                }
                tags.push(tag);
            },
            InnerKind::Dynamic => {
                proof {
                    assert(fin.len() == PTR_SIZE);
                }
                rd.add_read(PTR_SIZE);
            },
        }
        proof {
            assert(rd.read() == r0 + region_upto(*s, *ik, dv, j + 1).len());
        }
        j = j + 1;
    }
    proof {
        lemma_region_split(*s, *ik, dv, cnt as int);
        assert(arr_region(*s, *ik, dv, cnt as int) =~= Seq::<u8>::empty());
        assert(region_upto(*s, *ik, dv, cnt as int) + arr_region(*s, *ik, dv, cnt as int)
            =~= region_upto(*s, *ik, dv, cnt as int));
        assert(rd.read() == r0 + region.len());
    }

    // phase two: each element's deep payload
    let mut res: Vec<DeepValue> = Vec::new();
    let ghost p1 = r0 + region.len();
    if matches!(ik, InnerKind::PrimSlice { .. }) {
        proof {
            lemma_enc_elems_prim_empty(*s, *ik, dv, p1, 0);
            assert(deeps =~= Seq::<u8>::empty());
        }
        return DeepValue::Arr(prims);
    }
    let mut j: u64 = 0;
    while j < cnt
        invariant
            schema_wf(*s),
            inner_kind_wf(*s, *ik),
            !(ik is PrimSlice),
            dv matches DeepValue::Arr(elems)
                && elems@.len() == cnt as nat
                && forall|k: int| 0 <= k < elems@.len()
                    ==> elem_wf(*s, *ik, #[trigger] elems@[k]),
            j <= cnt,
            rd.inv(),
            rd.buf() == old(rd).buf(),
            bytes_at(rd.buf(), rd.read(), enc_elems(*s, *ik, dv, rd.read(), j as int)),
            p1 + enc_elems(*s, *ik, dv, p1, 0).len()
                == rd.read() + enc_elems(*s, *ik, dv, rd.read(), j as int).len(),
            res@.len() == j as int,
            forall|k: int| 0 <= k < j as int
                ==> equiv_elem(*s, *ik, #[trigger] res@[k], dv->Arr_0@[k])
                    && elem_wf(*s, *ik, res@[k]),
            ik is RecInline ==> shallows@.len() == cnt as nat
                && forall|k: int| 0 <= k < cnt as nat
                    ==> (#[trigger] shallows@[k])@ == elem_region(*s, *ik, dv->Arr_0@[k]),
            ik is CString ==> tags@.len() == cnt as nat
                && forall|k: int| 0 <= k < cnt as nat
                    ==> (#[trigger] tags@[k]) as nat
                        == dv->Arr_0@[k]->Str_0@.len() + 1,
        decreases cnt - j,
    {
        let ghost e = dv->Arr_0@[j as int];
        let ghost cur = rd.read();
        let ghost piece = enc_elem(*s, *ik, e, cur);
        proof {
            assert(elem_wf(*s, *ik, e));
            assert(enc_elems(*s, *ik, dv, cur, j as int)
                == piece + enc_elems(*s, *ik, dv, cur + piece.len(), j + 1));
            lemma_bytes_at_concat(rd.buf(), cur, piece,
                enc_elems(*s, *ik, dv, cur + piece.len(), j + 1));
        }
        match ik {
            InnerKind::PrimSlice { .. } => {
                proof {
                    assert(false);
                }
            },
            InnerKind::RecInline { tid } => {
                let ghost sub = e->Rec_0;
                proof {
                    assert(piece == enc_fields(*s, *tid as int, *sub, cur, 0));
                }
                let _ns = shallows.len();
                let ju = j as usize;
                let dfields = deserialize_without_shallow_copy(s, *tid, rd, &shallows[ju], Ghost(*sub));
                let sh = shallows[ju].clone();
                proof {
                    assert(sh@ == shallows@[j as int]@);
                }
                let r2 = RecordValue { bytes: sh, deep: dfields };
                proof {
                    let t2 = s.types@[*tid as int];
                    assert(type_wf(*s, t2));
                    lemma_patched_len(t2, *sub, t2.fields@.len() as int);
                    assert(record_wf(*s, *tid as int, r2));
                    assert(equiv_rec(*s, *tid as int, r2, *sub)) by {
                        assert forall|jj: int|
                            0 <= jj < t2.size && !crate::descriptor::in_ptr_slot(t2, jj)
                            implies r2.bytes@[jj] == sub.bytes@[jj] by {
                            lemma_patched_plain(t2, *sub, jj);
                        }
                    }
                }
                res.push(DeepValue::Rec(Box::new(r2)));
            },
            InnerKind::RecPtr { tid } => {
                let ghost sub = e->Rec_0;
                proof {
                    assert(piece == enc_rec(*s, *tid as int, *sub, cur));
                }
                let r2 = deserialize_with(s, *tid, rd, Ghost(*sub));
                res.push(DeepValue::Rec(Box::new(r2)));
            },
            InnerKind::CString => {
                let ghost b = e->Str_0;
                let _nt = tags.len();
                let tag = tags[j as usize];
                proof {
                    assert(piece == b@ + seq![0u8]);
                    assert(tag as nat == b@.len() + 1);
                    assert(tag as nat <= usize::MAX as nat);
                }
                let mut sb = rd.read_slice(tag as usize);
                proof {
                    assert(sb@ == b@ + seq![0u8]);
                }
                let _last = sb.pop();
                proof {
                    assert(sb@ =~= b@);
                }
                res.push(DeepValue::Str(sb));
            },
            InnerKind::Dynamic => {
                let (dtid, r2) = deserialize_dyn(s, rd, Ghost(e));
                res.push(DeepValue::Dyn(dtid, Box::new(r2)));
            },
        }
        j = j + 1;
    }
    proof {
        assert(enc_elems(*s, *ik, dv, rd.read(), cnt as int) =~= Seq::<u8>::empty());
        assert(rd.read() == p1 + deeps.len()) by {
            assert(deeps == enc_elems(*s, *ik, dv, p1, 0));
        }
    }
    DeepValue::Arr(res)
}

/// An array of plain primitives has no deep payload.
proof fn lemma_enc_elems_prim_empty(
    s: Schema,
    ik: InnerKind,
    dv: DeepValue,
    pos: int,
    j: int,
)
    requires
        ik is PrimSlice,
    ensures
        enc_elems(s, ik, dv, pos, j) =~= Seq::<u8>::empty(),
    decreases arr_len(dv) - j,
{
    if 0 <= j < arr_len(dv) {
        lemma_enc_elems_prim_empty(s, ik, dv, pos, j + 1);
        assert(enc_elem(s, ik, dv->Arr_0@[j], pos) =~= Seq::<u8>::empty());
        assert(enc_elems(s, ik, dv, pos, j)
            =~= enc_elem(s, ik, dv->Arr_0@[j], pos) + enc_elems(s, ik, dv, pos, j + 1));
    }
}

} // verus!
