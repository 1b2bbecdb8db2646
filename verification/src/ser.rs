//! The serializer: walks a live record value under its descriptor and
//! appends the dump — shallow copy first, then the deep payload of each
//! field in declaration order — patching length tags into pointer slots as
//! the deep pass reaches each string field.
//!
//! Every function is proved to append exactly the wire image of
//! [`crate::wire::enc_rec`] and its parts.

use vstd::prelude::*;
use crate::buffer::{CDumpBufferWriter, CDumpWriter, set_length_in_ptr};
use crate::bytes::{le_bytes, pad_len, zeros, u64_to_le8, PTR_SIZE};
use crate::descriptor::{
    ElemKind, FieldDesc, FieldKind, InnerKind, Schema, field_wf, inner_kind_wf,
    kind_wf, schema_wf, type_wf,
};
use crate::value::{deep_wf, elem_wf, record_wf, DeepValue, RecordValue};
use crate::wire::{
    arr_region, elem_region, elem_region_raw, enc_elem, enc_elems, enc_field,
    enc_fields, enc_rec, inner_align, lemma_elem_region_len, lemma_patched_len,
    lemma_region_raw_len, lemma_region_split, lemma_write_concat, lemma_write_nest,
    lemma_write_prefix, lemma_write_same, lemma_write_skip, lemma_write_suffix, patch_shallow,
    patched_upto, region_raw_from, region_upto, write_bytes_at,
};

verus! {

/// Serialize the record `v` of type `tid`: align the buffer to the record's
/// alignment, append its shallow image, then run the deep pass.  Appends
/// exactly the wire image of the record.
pub fn serialize(s: &Schema, tid: usize, v: &RecordValue, buf: &mut CDumpBufferWriter)
    requires
        schema_wf(*s),
        record_wf(*s, tid as int, *v),
    ensures
        final(buf).buf() == old(buf).buf()
            + enc_rec(*s, tid as int, *v, old(buf).buf().len() as int),
    decreases *v, 3int, 0int,
{
    let ghost t = s.types@[tid as int];
    proof {
        assert(type_wf(*s, t));
    }
    buf.align(s.types[tid].align);
    let start = buf.len();
    buf.push_slice(v.bytes.as_slice());
    proof {
        assert(buf.buf().subrange(start as int, start + t.size) =~= v.bytes@);
    }
    serialize_without_shallow_copy(s, tid, v, buf, start);
    proof {
        let buf0 = old(buf).buf();
        let p = zeros(pad_len(buf0.len() as int, t.align as int));
        let mid = buf0 + p + v.bytes@;
        lemma_patched_len(t, *v, t.fields@.len() as int);
        lemma_write_suffix(buf0 + p, v.bytes@, patch_shallow(t, *v));
        assert((buf0 + p) + v.bytes@ =~= buf0 + p + v.bytes@);
        assert(write_bytes_at(mid, start as int, patch_shallow(t, *v))
            == (buf0 + p) + patch_shallow(t, *v));
        assert((buf0 + p) + patch_shallow(t, *v)
            + enc_fields(*s, tid as int, *v, mid.len() as int, 0)
            =~= buf0 + (p + patch_shallow(t, *v)
                + enc_fields(*s, tid as int, *v, buf0.len() + p.len() + t.size, 0)));
    }
}

/// The deep pass: serialize the non-shallow fields of `v`, whose shallow
/// image was copied to the buffer at `start`, patching string slots in that
/// image as it goes.
pub fn serialize_without_shallow_copy(
    s: &Schema,
    tid: usize,
    v: &RecordValue,
    buf: &mut CDumpBufferWriter,
    start: usize,
)
    requires
        schema_wf(*s),
        record_wf(*s, tid as int, *v),
        start + s.types@[tid as int].size <= old(buf).buf().len(),
        old(buf).buf().subrange(start as int, start + s.types@[tid as int].size) == v.bytes@,
    ensures
        final(buf).buf() == write_bytes_at(
            old(buf).buf(),
            start as int,
            patch_shallow(s.types@[tid as int], *v),
        ) + enc_fields(*s, tid as int, *v, old(buf).buf().len() as int, 0),
    decreases *v, 2int, 0int,
{
    let ghost t = s.types@[tid as int];
    let ghost buf0 = old(buf).buf();
    let ghost p0 = buf0.len() as int;
    let ghost mut done: Seq<u8> = Seq::empty();
    let total = buf.len();
    let nf = s.types[tid].fields.len();
    proof {
        assert(type_wf(*s, t));
        lemma_write_same(buf0, start as int, v.bytes@);
        assert(write_bytes_at(buf0, start as int, patched_upto(t, *v, 0)) + done =~= buf0);
        assert(enc_fields(*s, tid as int, *v, p0, 0)
            =~= done + enc_fields(*s, tid as int, *v, p0 + done.len(), 0));
    }
    let mut i: usize = 0;
    while i < nf
        invariant
            schema_wf(*s),
            record_wf(*s, tid as int, *v),
            t == s.types@[tid as int],
            type_wf(*s, t),
            nf == t.fields@.len(),
            buf0.len() == total,
            p0 == buf0.len() as int,
            start + t.size <= buf0.len(),
            buf0.subrange(start as int, start + t.size) == v.bytes@,
            i <= nf,
            buf.buf() == write_bytes_at(buf0, start as int, patched_upto(t, *v, i as int))
                + done,
            enc_fields(*s, tid as int, *v, p0, 0)
                == done + enc_fields(*s, tid as int, *v, p0 + done.len(), i as int),
        decreases nf - i,
    {
        let ghost pre = buf.buf();
        let ghost f = t.fields@[i as int];
        let ghost d = v.deep@[i as int];
        let ghost cur = p0 + done.len();
        proof {
            assert(field_wf(*s, t, f));
            assert(deep_wf(*s, f, v.bytes@, d));
            lemma_patched_len(t, *v, i as int);
            assert(pre.len() == p0 + done.len());
            assert(enc_fields(*s, tid as int, *v, cur, i as int)
                == enc_field(*s, f, d, cur)
                    + enc_fields(
                        *s, tid as int, *v,
                        cur + enc_field(*s, f, d, cur).len(),
                        i + 1,
                    ));
        }
        let off = s.types[tid].fields[i].offset;
        serialize_field(
            s,
            &s.types[tid].fields[i],
            &v.deep[i],
            buf,
            start + off,
            Ghost(v.bytes@),
        );
        proof {
            let piece = enc_field(*s, f, d, cur);
            if f.kind is CString && d is Str {
                let tag = le_bytes(d->Str_0@.len() + 1, 8);
                crate::bytes::lemma_le_bytes_len(d->Str_0@.len() + 1, 8);
                // fold the slot patch into the shallow image
                lemma_write_concat(
                    write_bytes_at(buf0, start as int, patched_upto(t, *v, i as int)),
                    done,
                    start + f.offset,
                    tag,
                );
                lemma_write_nest(
                    buf0,
                    start as int,
                    patched_upto(t, *v, i as int),
                    f.offset as int,
                    tag,
                );
                assert(patched_upto(t, *v, i + 1)
                    == write_bytes_at(patched_upto(t, *v, i as int), f.offset as int, tag));
                assert(buf.buf() == write_bytes_at(
                    buf0, start as int, patched_upto(t, *v, i + 1)) + done + piece);
            } else {
                assert(patched_upto(t, *v, i + 1) == patched_upto(t, *v, i as int));
                assert(buf.buf() == write_bytes_at(
                    buf0, start as int, patched_upto(t, *v, i + 1)) + done + piece);
            }
            assert(write_bytes_at(buf0, start as int, patched_upto(t, *v, i + 1))
                + done + piece
                =~= write_bytes_at(buf0, start as int, patched_upto(t, *v, i + 1))
                    + (done + piece));
            done = done + piece;
        }
        i = i + 1;
    }
}

/// Serialize the deep part of one field.  For a non-null string field the
/// pointer slot at `slot` is rewritten to the length tag; everything else is
/// a pure append of the field's wire image.
fn serialize_field(
    s: &Schema,
    f: &FieldDesc,
    d: &DeepValue,
    buf: &mut CDumpBufferWriter,
    slot: usize,
    Ghost(shallow): Ghost<Seq<u8>>,
)
    requires
        schema_wf(*s),
        kind_wf(*s, f.kind),
        deep_wf(*s, *f, shallow, *d),
        f.kind is CString && *d is Str ==> slot + PTR_SIZE <= old(buf).buf().len(),
    ensures
        ({
            let piece = enc_field(*s, *f, *d, old(buf).buf().len() as int);
            if f.kind is CString && *d is Str {
                final(buf).buf() == write_bytes_at(
                    old(buf).buf(),
                    slot as int,
                    le_bytes(d->Str_0@.len() + 1, 8),
                ) + piece
            } else {
                final(buf).buf() == old(buf).buf() + piece
            }
        }),
    decreases *d, 3int, 0int,
{
    match (&f.kind, d) {
        (FieldKind::Reference(ElemKind::Prim { size: _, align }), DeepValue::Prim(b)) => {
            buf.align(*align);
            buf.push_slice(b.as_slice());
            proof {
                let p = zeros(pad_len(old(buf).buf().len() as int, *align as int));
                assert(old(buf).buf() + p + b@ =~= old(buf).buf() + (p + b@));
            }
        },
        (FieldKind::Reference(ElemKind::Rec { tid }), DeepValue::Rec(r)) => {
            serialize(s, *tid, r, buf);
        },
        (FieldKind::CString, DeepValue::Str(b)) => {
            let n = b.len();
            let tag: u64 = n as u64 + 1;
            set_length_in_ptr(buf, slot, tag);
            let ghost mid = write_bytes_at(
                old(buf).buf(), slot as int, le_bytes(n as nat + 1, 8));
            proof {
                crate::bytes::lemma_le_bytes_len(n as nat + 1, 8);
                assert(buf.buf() =~= mid);
            }
            buf.push_slice(b.as_slice());
            let mut z: Vec<u8> = Vec::new();
            z.push(0u8);
            buf.push_slice(z.as_slice());
            proof {
                assert(z@ =~= seq![0u8]);
                assert(mid + b@ + z@ =~= mid + (b@ + seq![0u8]));
                assert(mid.len() == old(buf).buf().len());
            }
        },
        (FieldKind::Dynamic, DeepValue::Dyn(dtid, r)) => {
            serialize_dyn(s, *dtid, r, buf);
        },
        (FieldKind::Array { len: _, inner }, DeepValue::Arr(elems)) => {
            proof {
                assert(*d == DeepValue::Arr(*elems));
            }
            serialize_array(s, inner, elems, buf, Ghost(*d));
        },
        _ => {
            proof {
                assert(enc_field(*s, *f, *d, old(buf).buf().len() as int)
                    =~= Seq::<u8>::empty());
                assert(buf.buf() + Seq::<u8>::empty() =~= buf.buf());
            }
        },
    }
}

/// Serialize one dynamic payload: align to the pointer size, append the
/// type-id word, then the payload record.
fn serialize_dyn(s: &Schema, dtid: usize, r: &RecordValue, buf: &mut CDumpBufferWriter)
    requires
        schema_wf(*s),
        record_wf(*s, dtid as int, *r),
    ensures
        final(buf).buf() == old(buf).buf() + ({
            let pos = old(buf).buf().len() as int;
            let p = zeros(pad_len(pos, PTR_SIZE as int));
            p + le_bytes(dtid as nat, 8) + enc_rec(*s, dtid as int, *r, pos + p.len() + 8)
        }),
    decreases *r, 4int, 0int,
{
    buf.align(PTR_SIZE);
    let w = u64_to_le8(dtid as u64);
    buf.push_slice(w.as_slice());
    proof {
        assert(w@ == le_bytes(dtid as nat, 8));
    }
    serialize(s, dtid, r, buf);
    proof {
        let pos = old(buf).buf().len() as int;
        let p = zeros(pad_len(pos, PTR_SIZE as int));
        assert(old(buf).buf() + p + w@ + enc_rec(*s, dtid as int, *r, pos + p.len() + 8)
            =~= old(buf).buf()
                + (p + le_bytes(dtid as nat, 8)
                    + enc_rec(*s, dtid as int, *r, pos + p.len() + 8)));
    }
}

/// Serialize an array field: align for the element kind, append the shallow
/// region of all elements, then run each element's deep pass, patching the
/// region's string slots with their length tags.
fn serialize_array(
    s: &Schema,
    ik: &InnerKind,
    elems: &Vec<DeepValue>,
    buf: &mut CDumpBufferWriter,
    Ghost(d): Ghost<DeepValue>,
)
    requires
        schema_wf(*s),
        inner_kind_wf(*s, *ik),
        d == DeepValue::Arr(*elems),
        forall|j: int| 0 <= j < elems@.len() ==> elem_wf(*s, *ik, #[trigger] elems@[j]),
    ensures
        final(buf).buf() == old(buf).buf() + ({
            let pos = old(buf).buf().len() as int;
            let p = zeros(pad_len(pos, inner_align(*s, *ik)));
            let region = arr_region(*s, *ik, d, 0);
            p + region + enc_elems(*s, *ik, d, pos + p.len() + region.len(), 0)
        }),
    decreases d, 2int, 0int,
{
    let al: usize = match ik {
        InnerKind::PrimSlice { size: _, align } => *align,
        InnerKind::RecInline { tid } => s.types[*tid].align,
        InnerKind::RecPtr { .. } => PTR_SIZE,
        InnerKind::CString => PTR_SIZE,
        InnerKind::Dynamic => PTR_SIZE,
    };
    proof {
        match ik {
            InnerKind::RecInline { tid } => {
                assert(type_wf(*s, s.types@[*tid as int]));
            },
            _ => {},
        }
        assert(al as int == inner_align(*s, *ik));
        assert(al >= 1);
    }
    buf.align(al);
    let rstart = buf.len();
    let ghost base = buf.buf();
    let n = elems.len();

    // the shallow region: every element's raw image, in order
    let ghost mut done_r: Seq<u8> = Seq::empty();
    proof {
        assert(base + done_r =~= base);
        assert(region_raw_from(*s, *ik, d, 0)
            =~= done_r + region_raw_from(*s, *ik, d, 0));
    }
    let mut j: usize = 0;
    while j < n
        invariant
            schema_wf(*s),
            inner_kind_wf(*s, *ik),
            d == DeepValue::Arr(*elems),
            forall|k: int| 0 <= k < elems@.len() ==> elem_wf(*s, *ik, #[trigger] elems@[k]),
            n == elems@.len(),
            j <= n,
            buf.buf() == base + done_r,
            region_raw_from(*s, *ik, d, 0)
                == done_r + region_raw_from(*s, *ik, d, j as int),
        decreases n - j,
    {
        let ghost raw = elem_region_raw(*s, *ik, d->Arr_0@[j as int]);
        proof {
            assert(region_raw_from(*s, *ik, d, j as int)
                == raw + region_raw_from(*s, *ik, d, j + 1));
        }
        match (ik, &elems[j]) {
            (InnerKind::PrimSlice { .. }, DeepValue::Prim(b)) => {
                buf.push_slice(b.as_slice());
            },
            (InnerKind::RecInline { .. }, DeepValue::Rec(r)) => {
                buf.push_slice(r.bytes.as_slice());
            },
            (InnerKind::RecPtr { .. }, _) | (InnerKind::CString, DeepValue::Str(_))
            | (InnerKind::Dynamic, _) => {
                let z = u64_to_le8(0);
                buf.push_slice(z.as_slice());
                proof {
                    crate::bytes::lemma_le_bytes_zero(8);
                    assert(z@ =~= zeros(PTR_SIZE as int));
                }
            },
            _ => {
                proof {
                    assert(elem_wf(*s, *ik, elems@[j as int]));
                    assert(false);
                }
            },
        }
        proof {
            assert(buf.buf() == base + done_r + raw);
            assert(base + done_r + raw =~= base + (done_r + raw));
            assert(region_raw_from(*s, *ik, d, 0)
                =~= (done_r + raw) + region_raw_from(*s, *ik, d, j + 1));
            done_r = done_r + raw;
        }
        j = j + 1;
    }
    proof {
        assert(region_raw_from(*s, *ik, d, n as int) =~= Seq::<u8>::empty());
        assert(done_r + region_raw_from(*s, *ik, d, n as int) =~= done_r);
        assert(done_r == region_raw_from(*s, *ik, d, 0));
    }

    // the deep pass over the elements
    serialize_array_deep(s, ik, elems, buf, rstart, Ghost(d), Ghost(base));
    proof {
        let pos = old(buf).buf().len() as int;
        let p = zeros(pad_len(pos, inner_align(*s, *ik)));
        let region = arr_region(*s, *ik, d, 0);
        lemma_region_raw_len(*s, *ik, d, 0);
        assert(base == old(buf).buf() + p);
        assert(old(buf).buf() + p + region
            + enc_elems(*s, *ik, d, pos + p.len() + region.len(), 0)
            =~= old(buf).buf()
                + (p + region + enc_elems(*s, *ik, d, pos + p.len() + region.len(), 0)));
    }
}

/// The per-element deep pass of an array whose raw shallow region was just
/// appended: rewrites each string element's slot to its length tag and
/// emits each element's deep payload.
#[verifier::rlimit(50)]
fn serialize_array_deep(
    s: &Schema,
    ik: &InnerKind,
    elems: &Vec<DeepValue>,
    buf: &mut CDumpBufferWriter,
    rstart: usize,
    Ghost(d): Ghost<DeepValue>,
    Ghost(base): Ghost<Seq<u8>>,
)
    requires
        schema_wf(*s),
        inner_kind_wf(*s, *ik),
        d == DeepValue::Arr(*elems),
        forall|j: int| 0 <= j < elems@.len() ==> elem_wf(*s, *ik, #[trigger] elems@[j]),
        old(buf).buf() == base + region_raw_from(*s, *ik, d, 0),
        rstart == base.len(),
    ensures
        final(buf).buf() == base + arr_region(*s, *ik, d, 0)
            + enc_elems(
                *s, *ik, d,
                (base.len() + arr_region(*s, *ik, d, 0).len()) as int,
                0,
            ),
    decreases d, 1int, 0int,
{
    let n = elems.len();
    let total = buf.len();
    let ghost p1 = (base.len() + arr_region(*s, *ik, d, 0).len()) as int;
    let ghost mut done: Seq<u8> = Seq::empty();
    let mut epos: usize = rstart;
    proof {
        lemma_region_raw_len(*s, *ik, d, 0);
        assert(region_upto(*s, *ik, d, 0) =~= Seq::<u8>::empty());
        assert(base + region_upto(*s, *ik, d, 0) + region_raw_from(*s, *ik, d, 0) + done
            =~= base + region_raw_from(*s, *ik, d, 0));
        assert(enc_elems(*s, *ik, d, p1, 0)
            =~= done + enc_elems(*s, *ik, d, p1 + done.len(), 0));
    }
    let mut j: usize = 0;
    while j < n
        invariant
            schema_wf(*s),
            inner_kind_wf(*s, *ik),
            d == DeepValue::Arr(*elems),
            forall|k: int| 0 <= k < elems@.len() ==> elem_wf(*s, *ik, #[trigger] elems@[k]),
            n == elems@.len(),
            j <= n,
            total == base.len() + arr_region(*s, *ik, d, 0).len(),
            p1 == total as int,
            epos == base.len() + region_upto(*s, *ik, d, j as int).len(),
            buf.buf() == base + region_upto(*s, *ik, d, j as int)
                + region_raw_from(*s, *ik, d, j as int) + done,
            region_upto(*s, *ik, d, j as int).len()
                + region_raw_from(*s, *ik, d, j as int).len()
                == arr_region(*s, *ik, d, 0).len(),
            enc_elems(*s, *ik, d, p1, 0)
                == done + enc_elems(*s, *ik, d, p1 + done.len(), j as int),
        decreases n - j,
    {
        let ghost e = d->Arr_0@[j as int];
        let ghost raw = elem_region_raw(*s, *ik, e);
        let ghost fin = elem_region(*s, *ik, e);
        let ghost head = base + region_upto(*s, *ik, d, j as int);
        let ghost tail = region_raw_from(*s, *ik, d, j + 1);
        let ghost piece = enc_elem(*s, *ik, e, p1 + done.len());
        proof {
            assert(elem_wf(*s, *ik, e));
            assert(region_raw_from(*s, *ik, d, j as int) == raw + tail);
            lemma_elem_region_len(*s, *ik, e);
            assert(enc_elems(*s, *ik, d, p1 + done.len(), j as int)
                == piece + enc_elems(*s, *ik, d, p1 + done.len() + piece.len(), j + 1));
            assert(buf.buf() =~= head + (raw + (tail + done)));
            assert(region_upto(*s, *ik, d, j + 1)
                == region_upto(*s, *ik, d, j as int) + fin);
            assert(head.len() + fin.len() + tail.len() == total);
        }
        match (ik, &elems[j]) {
            (InnerKind::PrimSlice { size, .. }, DeepValue::Prim(b)) => {
                proof {
                    assert(raw == fin);
                    assert(fin.len() == *size);
                    assert(piece =~= Seq::<u8>::empty());
                    assert(buf.buf() =~= head + fin + tail + (done + piece));
                }
                epos = epos + *size;
            },
            (InnerKind::RecInline { tid }, DeepValue::Rec(r)) => {
                let ghost t2 = s.types@[*tid as int];
                proof {
                    assert(type_wf(*s, t2));
                    assert(record_wf(*s, *tid as int, **r));
                    assert(head.len() + raw.len() + tail.len() + done.len()
                        == buf.buf().len());
                    assert(buf.buf().subrange(epos as int, epos + t2.size)
                        =~= r.bytes@) by {
                        assert(buf.buf() =~= head + (r.bytes@ + (tail + done)));
                    }
                }
                serialize_without_shallow_copy(s, *tid, r, buf, epos);
                proof {
                    let pre = head + (r.bytes@ + (tail + done));
                    lemma_patched_len(t2, **r, t2.fields@.len() as int);
                    lemma_write_skip(head, r.bytes@ + (tail + done), 0,
                        patch_shallow(t2, **r));
                    lemma_write_prefix(r.bytes@, tail + done, patch_shallow(t2, **r));
                    assert(fin == patch_shallow(t2, **r));
                    assert(fin.len() == t2.size);
                    assert(piece == enc_fields(*s, *tid as int, **r, pre.len() as int, 0));
                    assert(buf.buf() =~= head + fin + tail + (done + piece));
                }
                epos = epos + s.types[*tid].size;
            },
            (InnerKind::RecPtr { tid }, DeepValue::Rec(r)) => {
                serialize(s, *tid, r, buf);
                proof {
                    assert(raw == fin);
                    assert(piece == enc_rec(*s, *tid as int, **r,
                        (head + (raw + (tail + done))).len() as int));
                    assert(buf.buf() =~= head + fin + tail + (done + piece));
                }
                epos = epos + PTR_SIZE;
            },
            (InnerKind::CString, DeepValue::Str(b)) => {
                let nb = b.len();
                let tag: u64 = nb as u64 + 1;
                proof {
                    crate::bytes::lemma_le_bytes_len(nb as nat + 1, 8);
                    assert(epos + PTR_SIZE <= buf.buf().len());
                }
                set_length_in_ptr(buf, epos, tag);
                proof {
                    let pre = head + (raw + (tail + done));
                    lemma_write_skip(head, raw + (tail + done), 0, le_bytes(nb as nat + 1, 8));
                    lemma_write_prefix(raw, tail + done, le_bytes(nb as nat + 1, 8));
                    assert(buf.buf() =~= write_bytes_at(pre, epos as int,
                        le_bytes(nb as nat + 1, 8)));
                    assert(fin == le_bytes(nb as nat + 1, 8));
                    assert(buf.buf() =~= head + fin + (tail + done));
                }
                buf.push_slice(b.as_slice());
                let mut z: Vec<u8> = Vec::new();
                z.push(0u8);
                buf.push_slice(z.as_slice());
                proof {
                    assert(z@ =~= seq![0u8]);
                    assert(piece =~= b@ + seq![0u8]);
                    assert(buf.buf() =~= head + fin + tail + (done + piece));
                }
                epos = epos + PTR_SIZE;
            },
            (InnerKind::Dynamic, DeepValue::Dyn(dtid, r)) => {
                serialize_dyn(s, *dtid, r, buf);
                proof {
                    assert(raw == fin);
                    assert(piece == ({
                        let pos = (head + (raw + (tail + done))).len() as int;
                        let p = zeros(pad_len(pos, PTR_SIZE as int));
                        p + le_bytes(*dtid as nat, 8)
                            + enc_rec(*s, *dtid as int, **r, pos + p.len() + 8)
                    }));
                    assert(buf.buf() =~= head + fin + tail + (done + piece));
                }
                epos = epos + PTR_SIZE;
            },
            _ => {
                proof {
                    assert(elem_wf(*s, *ik, elems@[j as int]));
                    assert(false);
                }
            },
        }
        proof {
            assert(region_upto(*s, *ik, d, j + 1)
                == region_upto(*s, *ik, d, j as int) + fin);
            assert(buf.buf() =~= base + region_upto(*s, *ik, d, j + 1)
                + region_raw_from(*s, *ik, d, j + 1) + (done + piece));
            assert(enc_elems(*s, *ik, d, p1, 0)
                =~= (done + piece)
                    + enc_elems(*s, *ik, d, p1 + (done + piece).len(), j + 1));
            done = done + piece;
        }
        j = j + 1;
    }
    proof {
        assert(region_raw_from(*s, *ik, d, n as int) =~= Seq::<u8>::empty());
        lemma_region_split(*s, *ik, d, n as int);
        assert(arr_region(*s, *ik, d, n as int) =~= Seq::<u8>::empty());
        assert(region_upto(*s, *ik, d, n as int) + arr_region(*s, *ik, d, n as int)
            =~= region_upto(*s, *ik, d, n as int));
        assert(region_upto(*s, *ik, d, n as int) == arr_region(*s, *ik, d, 0));
        assert(enc_elems(*s, *ik, d, p1 + done.len(), n as int) =~= Seq::<u8>::empty());
        assert(done + enc_elems(*s, *ik, d, p1 + done.len(), n as int) =~= done);
        assert(buf.buf() =~= base + arr_region(*s, *ik, d, 0)
            + region_raw_from(*s, *ik, d, n as int) + done);
        assert(base + arr_region(*s, *ik, d, 0) + region_raw_from(*s, *ik, d, n as int)
            + done
            =~= base + arr_region(*s, *ik, d, 0) + enc_elems(*s, *ik, d, p1, 0));
    }
}

} // verus!
