//! A deep binary dump/restore codec for C-ABI record graphs.
//!
//! A record is a fixed-size block of bytes whose pointer-typed fields may
//! refer to other records, NUL-terminated byte strings, contiguous arrays, or
//! dynamically typed payloads.  A static field descriptor ([`descriptor`])
//! drives a serializer that emits a single self-contained byte buffer — the
//! shallow image of each record followed by its deep payload in declaration
//! order — and a deserializer that rebuilds an equivalent record graph from
//! that buffer, or refreshes a caller-supplied graph in place.
//!
//! The wire layout, the alignment discipline and the pointer-slot rewrite
//! protocol are specified by the [`wire`] module; the serializer and the
//! deserializer are proved against it.

pub mod bytes;
pub mod buffer;
pub mod descriptor;
pub mod value;
pub mod wire;
pub mod ser;
pub mod de;
pub mod refresh;
pub mod laws;
pub mod uniq;
pub mod prim;

pub use buffer::{
    AlignedBytes, CDumpBufferReader, CDumpBufferWriter, CDumpReader, CDumpWriter,
};
pub use de::{deserialize, deserialize_to};
pub use descriptor::{
    validate_schema, ElemKind, FieldDesc, FieldKind, InnerKind, LenExpr, Schema, TypeDesc,
};
pub use prim::{CDeserialize, CSerialize};
pub use ser::serialize;
pub use value::{DeepValue, RecordValue};
