//! The field descriptor model: a static description of each serializable
//! record type — its size and alignment and, per declared field, the field's
//! offset and kind — plus the descriptor-time validation.
//!
//! Pointer-depth rules are built into the shape of [`FieldKind`]: a lone
//! pointer-to-pointer, a pointer deeper than two levels, an array of
//! single-level dynamic pointers, and an array of pointers to primitives
//! cannot be written down at all.  What remains to validate are the numeric
//! well-formedness conditions of [`schema_wf`].

use vstd::prelude::*;
use crate::bytes::PTR_SIZE;
use crate::bytes::le_val;

verus! {

/// The length expression of an array field, evaluated against the enclosing
/// record's shallow image: the unsigned integer field of `width` bytes at
/// `offset`, divided by `divisor`.
pub struct LenExpr {
    pub offset: usize,
    pub width: usize,
    pub divisor: u64,
}

/// The pointee of a single-level reference field.
pub enum ElemKind {
    /// A primitive of the given size and alignment; its deep image is its
    /// raw bytes.
    Prim { size: usize, align: usize },
    /// A record of the given type, dumped recursively.
    Rec { tid: usize },
}

/// The element kind of an array field.
pub enum InnerKind {
    /// A run of plain primitives: the region copy is the whole payload.
    PrimSlice { size: usize, align: usize },
    /// Records laid out inline in the region, each with its own deep pass.
    RecInline { tid: usize },
    /// Pointers to records: the region holds one pointer slot per element
    /// and each record is dumped after the region.
    RecPtr { tid: usize },
    /// Pointers to NUL-terminated byte strings.
    CString,
    /// Double pointers to dynamically typed payloads.
    Dynamic,
}

/// The kind of one declared field.
pub enum FieldKind {
    /// Scalar or fully-inline aggregate: covered by the shallow copy, no
    /// deep part.
    Plain,
    /// Fixed-size inline array of plain elements: covered by the shallow
    /// copy, no deep part.
    InlineArray,
    /// Single pointer to one element.
    Reference(ElemKind),
    /// Pointer to a NUL-terminated byte string.
    CString,
    /// Pointer to a contiguous run of elements, counted by `len`.
    Array { len: LenExpr, inner: InnerKind },
    /// Opaque pointer whose payload carries its own type: dumped as a
    /// pointer-sized type-id word followed by the record of that type.
    Dynamic,
}

/// One declared field: its offset within the record and its kind.
pub struct FieldDesc {
    pub offset: usize,
    pub kind: FieldKind,
}

/// One record type: its C-ABI size and alignment, and its fields in
/// declaration order.
pub struct TypeDesc {
    pub size: usize,
    pub align: usize,
    pub fields: Vec<FieldDesc>,
}

/// The descriptor table; a type id is an index into `types`.
pub struct Schema {
    pub types: Vec<TypeDesc>,
}

impl FieldKind {
    /// Whether the field is covered entirely by the shallow copy.
    pub open spec fn is_shallow(self) -> bool {
        self is Plain || self is InlineArray
    }
}

/// The count an array length expression yields on a shallow image.
pub open spec fn eval_len(le: LenExpr, bytes: Seq<u8>) -> nat {
    le_val(bytes.subrange(le.offset as int, le.offset + le.width)) / (le.divisor as nat)
}

/// Whether byte `j` of a shallow image of type `t` lies in the pointer slot
/// of some non-shallow field.
pub open spec fn in_ptr_slot(t: TypeDesc, j: int) -> bool {
    exists|i: int| 0 <= i < t.fields@.len()
        && !t.fields@[i].kind.is_shallow()
        && t.fields@[i].offset <= j < t.fields@[i].offset + PTR_SIZE
}

/// Well-formedness of one length expression against a record of size
/// `size`: it reads in bounds, with a sensible width and a nonzero divisor,
/// and never from inside a pointer slot (so a dump and its replay agree on
/// every count).
pub open spec fn len_expr_wf(t: TypeDesc, le: LenExpr) -> bool {
    &&& 1 <= le.width <= 8
    &&& le.offset + le.width <= t.size
    &&& le.divisor >= 1
    &&& forall|j: int| le.offset <= j < le.offset + le.width ==> !in_ptr_slot(t, j)
}

/// Well-formedness of a reference field's pointee description.
pub open spec fn elem_kind_wf(s: Schema, ek: ElemKind) -> bool {
    match ek {
        ElemKind::Prim { size, align } => {
            &&& size >= 1
            &&& align >= 1
            &&& (size as int) % (align as int) == 0
        },
        ElemKind::Rec { tid } => tid < s.types@.len(),
    }
}

/// Well-formedness of an array field's element description.
pub open spec fn inner_kind_wf(s: Schema, ik: InnerKind) -> bool {
    match ik {
        InnerKind::PrimSlice { size, align } => {
            &&& size >= 1
            &&& align >= 1
            &&& (size as int) % (align as int) == 0
        },
        InnerKind::RecInline { tid } => tid < s.types@.len(),
        InnerKind::RecPtr { tid } => tid < s.types@.len(),
        InnerKind::CString => true,
        InnerKind::Dynamic => true,
    }
}

/// Well-formedness of a field kind, apart from anything that depends on the
/// enclosing record.
pub open spec fn kind_wf(s: Schema, k: FieldKind) -> bool {
    match k {
        FieldKind::Plain => true,
        FieldKind::InlineArray => true,
        FieldKind::Reference(ek) => elem_kind_wf(s, ek),
        FieldKind::CString => true,
        FieldKind::Dynamic => true,
        FieldKind::Array { len: _, inner } => inner_kind_wf(s, inner),
    }
}

/// Well-formedness of one field of type `t` against the schema `s`.
pub open spec fn field_wf(s: Schema, t: TypeDesc, f: FieldDesc) -> bool {
    &&& f.offset <= t.size
    &&& !f.kind.is_shallow() ==> f.offset + PTR_SIZE <= t.size
    &&& (f.kind matches FieldKind::Array { len, inner: _ } ==> len_expr_wf(t, len))
    &&& kind_wf(s, f.kind)
}

/// The pointer slots of two distinct non-shallow fields never overlap.
pub open spec fn slots_disjoint(t: TypeDesc) -> bool {
    forall|i: int, j: int|
        0 <= i < j < t.fields@.len()
            && !t.fields@[i].kind.is_shallow()
            && !t.fields@[j].kind.is_shallow()
        ==> (t.fields@[i].offset + PTR_SIZE <= t.fields@[j].offset
            || t.fields@[j].offset + PTR_SIZE <= t.fields@[i].offset)
}

/// Well-formedness of one record type against the schema.
pub open spec fn type_wf(s: Schema, t: TypeDesc) -> bool {
    &&& t.size >= 1
    &&& t.align >= 1
    &&& (t.size as int) % (t.align as int) == 0
    &&& slots_disjoint(t)
    &&& forall|i: int| 0 <= i < t.fields@.len() ==> field_wf(s, t, #[trigger] t.fields@[i])
}

/// Well-formedness of the whole descriptor table.
pub open spec fn schema_wf(s: Schema) -> bool {
    forall|tid: int| 0 <= tid < s.types@.len() ==> type_wf(s, #[trigger] s.types@[tid])
}

/// Descriptor-time validation: accepts a schema exactly when it is
/// well-formed.  Everything else the source-level rules reject — a missing
/// C-layout directive, pointer depth over two, a dynamic field without its
/// hooks, an array of single-level dynamic pointers, an array of pointers to
/// primitives — has no representation in [`FieldKind`] in the first place.
pub fn validate_schema(s: &Schema) -> (r: bool)
    ensures
        r == schema_wf(*s),
{
    let n = s.types.len();
    let mut tidx: usize = 0;
    while tidx < n
        invariant
            n == s.types@.len(),
            tidx <= n,
            forall|tid: int| 0 <= tid < tidx ==> type_wf(*s, #[trigger] s.types@[tid]),
        decreases n - tidx,
    {
        if !validate_type(s, &s.types[tidx]) {
            return false;
        }
        tidx = tidx + 1;
    }
    true
}

fn validate_type(s: &Schema, t: &TypeDesc) -> (r: bool)
    ensures
        r == type_wf(*s, *t),
{
    if t.size < 1 || t.align < 1 || t.size % t.align != 0 {
        return false;
    }
    let n = t.fields.len();
    let mut i: usize = 0;
    while i < n
        invariant
            n == t.fields@.len(),
            i <= n,
            forall|k: int| 0 <= k < i ==> field_wf(*s, *t, #[trigger] t.fields@[k]),
        decreases n - i,
    {
        if !validate_field(s, t, &t.fields[i]) {
            return false;
        }
        i = i + 1;
    }
    let mut i: usize = 0;
    while i < n
        invariant
            n == t.fields@.len(),
            i <= n,
            forall|k: int| 0 <= k < n ==> field_wf(*s, *t, #[trigger] t.fields@[k]),
            forall|k: int, l: int|
                0 <= k < l < n && k < i
                    && !t.fields@[k].kind.is_shallow()
                    && !t.fields@[l].kind.is_shallow()
                ==> (t.fields@[k].offset + PTR_SIZE <= t.fields@[l].offset
                    || t.fields@[l].offset + PTR_SIZE <= t.fields@[k].offset),
        decreases n - i,
    {
        if !t.fields[i].kind.is_shallow_exec() {
            let oi = t.fields[i].offset;
            let mut l: usize = i + 1;
            while l < n
                invariant
                    n == t.fields@.len(),
                    i < n,
                    i < l,
                    l <= n,
                    oi == t.fields@[i as int].offset,
                    !t.fields@[i as int].kind.is_shallow(),
                    forall|k: int| 0 <= k < n ==> field_wf(*s, *t, #[trigger] t.fields@[k]),
                    forall|m: int|
                        i < m < l && !t.fields@[m].kind.is_shallow()
                        ==> (t.fields@[i as int].offset + PTR_SIZE <= t.fields@[m].offset
                            || t.fields@[m].offset + PTR_SIZE <= t.fields@[i as int].offset),
                decreases n - l,
            {
                if !t.fields[l].kind.is_shallow_exec() {
                    let ol = t.fields[l].offset;
                    if !(oi + PTR_SIZE <= ol || ol + PTR_SIZE <= oi) {
                        return false;
                    }
                }
                l = l + 1;
            }
        }
        i = i + 1;
    }
    true
}

impl FieldKind {
    /// Executable mirror of [`FieldKind::is_shallow`].
    pub fn is_shallow_exec(&self) -> (r: bool)
        ensures
            r == self.is_shallow(),
    {
        match self {
            FieldKind::Plain => true,
            FieldKind::InlineArray => true,
            _ => false,
        }
    }
}

fn validate_field(s: &Schema, t: &TypeDesc, f: &FieldDesc) -> (r: bool)
    ensures
        r == field_wf(*s, *t, *f),
{
    if f.offset > t.size {
        return false;
    }
    if !f.kind.is_shallow_exec() && !(t.size >= PTR_SIZE && f.offset <= t.size - PTR_SIZE) {
        return false;
    }
    match &f.kind {
        FieldKind::Plain => true,
        FieldKind::InlineArray => true,
        FieldKind::Reference(ElemKind::Prim { size, align }) => {
            *size >= 1 && *align >= 1 && *size % *align == 0
        },
        FieldKind::Reference(ElemKind::Rec { tid }) => *tid < s.types.len(),
        FieldKind::CString => true,
        FieldKind::Dynamic => true,
        FieldKind::Array { len, inner } => {
            if !validate_len_expr(t, len) {
                return false;
            }
            match inner {
                InnerKind::PrimSlice { size, align } => {
                    *size >= 1 && *align >= 1 && *size % *align == 0
                },
                InnerKind::RecInline { tid } => *tid < s.types.len(),
                InnerKind::RecPtr { tid } => *tid < s.types.len(),
                InnerKind::CString => true,
                InnerKind::Dynamic => true,
            }
        },
    }
}

fn validate_len_expr(t: &TypeDesc, le: &LenExpr) -> (r: bool)
    ensures
        r == len_expr_wf(*t, *le),
{
    if !(1 <= le.width && le.width <= 8 && le.divisor >= 1) {
        return false;
    }
    if !(le.offset <= t.size && le.width <= t.size - le.offset) {
        return false;
    }
    let n = t.fields.len();
    let mut i: usize = 0;
    while i < n
        invariant
            n == t.fields@.len(),
            i <= n,
            le.offset + le.width <= t.size,
            forall|k: int|
                0 <= k < i && !(#[trigger] t.fields@[k]).kind.is_shallow()
                ==> (t.fields@[k].offset + PTR_SIZE <= le.offset
                    || le.offset + le.width <= t.fields@[k].offset),
        decreases n - i,
    {
        if !t.fields[i].kind.is_shallow_exec() {
            let o = t.fields[i].offset;
            let before = le.offset >= PTR_SIZE && o <= le.offset - PTR_SIZE;
            let after = le.offset + le.width <= o;
            if !(before || after) {
                proof {
                    let j: int = if o >= le.offset { o as int } else { le.offset as int };
                    assert(t.fields@[i as int].offset <= j
                        < t.fields@[i as int].offset + PTR_SIZE);
                    assert(in_ptr_slot(*t, j));
                }
                return false;
            }
        }
        i = i + 1;
    }
    proof {
        assert forall|j: int| le.offset <= j < le.offset + le.width
            implies !in_ptr_slot(*t, j) by {
            if in_ptr_slot(*t, j) {
                let k = choose|k: int| 0 <= k < t.fields@.len()
                    && !t.fields@[k].kind.is_shallow()
                    && t.fields@[k].offset <= j < t.fields@[k].offset + PTR_SIZE;
                assert(!(t.fields@[k].offset <= j < t.fields@[k].offset + PTR_SIZE));
            }
        }
    }
    true
}

} // verus!
