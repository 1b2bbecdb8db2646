//! The format's global guarantees, stated over the wire image.
//!
//! Round-trip identity and pointer-identity preservation are carried by the
//! contracts of `serialize`, `deserialize` and `deserialize_to`; this module
//! states the remaining laws: replay of consecutive dumps, alignment of
//! every record region, and the length-tag discipline of string fields.

use vstd::prelude::*;
use crate::bytes::{le_bytes, le_val, pad_len, zeros, PTR_SIZE};
use crate::descriptor::Schema;
use crate::value::{record_wf, RecordValue};
use crate::wire::{
    enc_rec, holds_enc, lemma_patched_len, lemma_patched_slot, patch_shallow,
};

verus! {

/// Round-trip identity: a buffer that continues a dump produced by
/// `serialize` — its prior contents, the record's wire image, anything
/// after — satisfies the deserializer's precondition at the dump's offset.
/// `deserialize_with`'s contract then gives back a record structurally
/// equal to the dumped one (byte-equal plain fields, equal strings,
/// element-wise equal arrays, equal dynamic payloads), and `deserialize_to`
/// refreshes an equal-shaped tree to the same values.
pub proof fn lemma_round_trip(s: Schema, tid: int, v: RecordValue, pre: Seq<u8>, rest: Seq<u8>)
    requires
        record_wf(s, tid, v),
    ensures
        holds_enc(s, tid, v, pre + enc_rec(s, tid, v, pre.len() as int) + rest,
            pre.len() as int),
{
    let e = enc_rec(s, tid, v, pre.len() as int);
    let b = pre + e + rest;
    assert(b.subrange(pre.len() as int, (pre.len() + e.len()) as int) =~= e);
}

/// Idempotent replay: dumping two records back to back leaves a buffer from
/// which each is replayed in order — the first dump is readable at its
/// offset and the second right after it, however the buffer continues.
/// With `serialize`'s guarantee that a dump only appends, this extends to
/// any number of consecutive dumps.
pub proof fn lemma_replay(
    s: Schema,
    tid1: int,
    v1: RecordValue,
    tid2: int,
    v2: RecordValue,
    pre: Seq<u8>,
    rest: Seq<u8>,
)
    requires
        record_wf(s, tid1, v1),
        record_wf(s, tid2, v2),
    ensures
        ({
            let e1 = enc_rec(s, tid1, v1, pre.len() as int);
            let e2 = enc_rec(s, tid2, v2, (pre.len() + e1.len()) as int);
            let b = pre + e1 + e2 + rest;
            &&& holds_enc(s, tid1, v1, b, pre.len() as int)
            &&& holds_enc(s, tid2, v2, b, (pre.len() + e1.len()) as int)
        }),
{
    let e1 = enc_rec(s, tid1, v1, pre.len() as int);
    let e2 = enc_rec(s, tid2, v2, (pre.len() + e1.len()) as int);
    let b = pre + e1 + e2 + rest;
    assert(b.subrange(pre.len() as int, (pre.len() + e1.len()) as int) =~= e1);
    assert(b.subrange((pre.len() + e1.len()) as int, (pre.len() + e1.len() + e2.len()) as int) =~= e2);
}

/// Alignment: every dumped record region begins at a byte offset that is a
/// multiple of the record type's alignment — the padding in front of the
/// shallow image carries any position there.
pub proof fn lemma_alignment(s: Schema, tid: int, v: RecordValue, pos: int)
    requires
        0 <= tid < s.types@.len(),
        s.types@[tid].align >= 1,
        pos >= 0,
        record_wf(s, tid, v),
    ensures
        ({
            let t = s.types@[tid];
            let p = pad_len(pos, t.align as int);
            &&& (pos + p) % (t.align as int) == 0
            &&& enc_rec(s, tid, v, pos).subrange(0, p) == zeros(p)
            &&& enc_rec(s, tid, v, pos).subrange(p, p + t.size) == patch_shallow(t, v)
        }),
{
    let t = s.types@[tid];
    let p = pad_len(pos, t.align as int);
    crate::bytes::lemma_pad_len_bounds(pos, t.align as int);
    lemma_patched_len(t, v, t.fields@.len() as int);
    assert(enc_rec(s, tid, v, pos).subrange(0, p) =~= zeros(p));
    assert(enc_rec(s, tid, v, pos).subrange(p, p + t.size) =~= patch_shallow(t, v));
}

/// Length-tag invariance: the tag written into a non-null string field's
/// pointer slot is the string's length plus one for the terminator, and it
/// equals the number of bytes the string contributes to the deep payload —
/// exactly what replay consumes for it.
pub proof fn lemma_length_tag(s: Schema, tid: int, v: RecordValue, k: int)
    requires
        record_wf(s, tid, v),
        crate::descriptor::type_wf(s, s.types@[tid]),
        0 <= k < s.types@[tid].fields@.len(),
        s.types@[tid].fields@[k].kind is CString,
        v.deep@[k] is Str,
    ensures
        ({
            let t = s.types@[tid];
            let f = t.fields@[k];
            let b = v.deep@[k]->Str_0;
            let tag = patch_shallow(t, v).subrange(f.offset as int, f.offset + PTR_SIZE);
            &&& tag == le_bytes(b@.len() + 1, 8)
            &&& le_val(tag) == b@.len() + 1
            &&& forall|pos: int| crate::wire::enc_field(s, f, v.deep@[k], pos).len()
                == b@.len() + 1
        }),
{
    let t = s.types@[tid];
    let f = t.fields@[k];
    let b = v.deep@[k]->Str_0;
    lemma_patched_slot(s, t, v, k, t.fields@.len() as int);
    crate::bytes::lemma_pow256_8();
    crate::bytes::lemma_le_roundtrip(b@.len() + 1, 8);
    assert(crate::value::deep_wf(s, f, v.bytes@, v.deep@[k]));
    assert forall|pos: int| crate::wire::enc_field(s, f, v.deep@[k], pos).len()
        == b@.len() + 1 by {
        assert(crate::wire::enc_field(s, f, v.deep@[k], pos) == b@ + seq![0u8]);
    }
}

} // verus!
