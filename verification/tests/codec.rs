//! Round-trip tests of the codec over hand-written descriptors, mirroring
//! record layouts a C compiler would produce on a 64-bit little-endian host.

use cdump::buffer::{CDumpBufferWriter, CDumpWriter};
use cdump::de::{deserialize, deserialize_to};
use cdump::descriptor::{
    validate_schema, ElemKind, FieldDesc, FieldKind, InnerKind, LenExpr, Schema, TypeDesc,
};
use cdump::ser::serialize;
use cdump::value::{DeepValue, RecordValue};

fn fd_plain(offset: usize) -> FieldDesc {
    FieldDesc { offset, kind: FieldKind::Plain }
}

fn fd_reference(offset: usize, tid: usize) -> FieldDesc {
    FieldDesc { offset, kind: FieldKind::Reference(ElemKind::Rec { tid }) }
}

fn fd_ref_prim(offset: usize, size: usize, align: usize) -> FieldDesc {
    FieldDesc { offset, kind: FieldKind::Reference(ElemKind::Prim { size, align }) }
}

fn fd_cstring(offset: usize) -> FieldDesc {
    FieldDesc { offset, kind: FieldKind::CString }
}

fn fd_dynamic(offset: usize) -> FieldDesc {
    FieldDesc { offset, kind: FieldKind::Dynamic }
}

fn fd_array(offset: usize, len: LenExpr, inner: InnerKind) -> FieldDesc {
    FieldDesc { offset, kind: FieldKind::Array { len, inner } }
}

fn len_field(offset: usize, width: usize) -> LenExpr {
    LenExpr { offset, width, divisor: 1 }
}

/// A stand-in for a live (stale) pointer in a shallow image: any non-zero
/// slot value.
const STALE: u64 = 0xdead_beef;

fn put_u64(bytes: &mut Vec<u8>, off: usize, v: u64) {
    let le = v.to_le_bytes();
    for i in 0..8 {
        bytes[off + i] = le[i];
    }
}

fn put_u32(bytes: &mut Vec<u8>, off: usize, v: u32) {
    let le = v.to_le_bytes();
    for i in 0..4 {
        bytes[off + i] = le[i];
    }
}

fn put_f64(bytes: &mut Vec<u8>, off: usize, v: f64) {
    let le = v.to_le_bytes();
    for i in 0..8 {
        bytes[off + i] = le[i];
    }
}

fn put_f32(bytes: &mut Vec<u8>, off: usize, v: f32) {
    let le = v.to_le_bytes();
    for i in 0..4 {
        bytes[off + i] = le[i];
    }
}

fn get_u32(bytes: &Vec<u8>, off: usize) -> u32 {
    u32::from_le_bytes([bytes[off], bytes[off + 1], bytes[off + 2], bytes[off + 3]])
}

fn get_u16(bytes: &Vec<u8>, off: usize) -> u16 {
    u16::from_le_bytes([bytes[off], bytes[off + 1]])
}

fn get_u8(bytes: &Vec<u8>, off: usize) -> u8 {
    bytes[off]
}

fn get_f64(bytes: &Vec<u8>, off: usize) -> f64 {
    let mut le = [0u8; 8];
    le.copy_from_slice(&bytes[off..off + 8]);
    f64::from_le_bytes(le)
}

fn get_f32(bytes: &Vec<u8>, off: usize) -> f32 {
    let mut le = [0u8; 4];
    le.copy_from_slice(&bytes[off..off + 4]);
    f32::from_le_bytes(le)
}

fn str_value(text: &str) -> DeepValue {
    DeepValue::Str(text.as_bytes().to_vec())
}

fn str_bytes(d: &DeepValue) -> &Vec<u8> {
    match d {
        DeepValue::Str(b) => b,
        _ => panic!("expected a string field"),
    }
}

fn rec_value(d: &DeepValue) -> &RecordValue {
    match d {
        DeepValue::Rec(r) => r,
        _ => panic!("expected a record field"),
    }
}

fn arr_elems(d: &DeepValue) -> &Vec<DeepValue> {
    match d {
        DeepValue::Arr(e) => e,
        _ => panic!("expected an array field"),
    }
}

fn prim_bytes(d: &DeepValue) -> &Vec<u8> {
    match d {
        DeepValue::Prim(b) => b,
        _ => panic!("expected a primitive field"),
    }
}

fn dyn_value(d: &DeepValue) -> (usize, &RecordValue) {
    match d {
        DeepValue::Dyn(tid, r) => (*tid, r),
        _ => panic!("expected a dynamic field"),
    }
}

#[test]
fn shallow() {
    // Foo { a: u32, b: f64 }: a at 0, b at 8, size 16, align 8
    let schema = Schema {
        types: vec![TypeDesc { size: 16, align: 8, fields: vec![fd_plain(0), fd_plain(8)] }],
    };
    assert!(validate_schema(&schema));

    let mut bytes = vec![0u8; 16];
    put_u32(&mut bytes, 0, 1984);
    put_f64(&mut bytes, 8, 2024.06);
    let obj = RecordValue { bytes, deep: vec![DeepValue::Null, DeepValue::Null] };

    let mut buf = CDumpBufferWriter::new(16);
    serialize(&schema, 0, &obj, &mut buf);
    assert_eq!(buf.len(), 16);

    let mut reader = buf.into_reader();
    let copy = deserialize(&schema, 0, &mut reader);

    assert_eq!(get_u32(&copy.bytes, 0), 1984);
    assert_eq!(get_f64(&copy.bytes, 8), 2024.06);
}

fn shallow_bar_plain() -> TypeDesc {
    // ShallowBar { a: f64, b: u8, c: u32 }: a at 0, b at 8, c at 12, size 16
    TypeDesc { size: 16, align: 8, fields: vec![fd_plain(0), fd_plain(8), fd_plain(12)] }
}

fn make_shallow_bar_plain(a: f64, b: u8, c: u32) -> RecordValue {
    let mut bytes = vec![0u8; 16];
    put_f64(&mut bytes, 0, a);
    bytes[8] = b;
    put_u32(&mut bytes, 12, c);
    RecordValue {
        bytes,
        deep: vec![DeepValue::Null, DeepValue::Null, DeepValue::Null],
    }
}

fn assert_shallow_bar_plain(r: &RecordValue, a: f64, b: u8, c: u32) {
    assert_eq!(get_f64(&r.bytes, 0), a);
    assert_eq!(get_u8(&r.bytes, 8), b);
    assert_eq!(get_u32(&r.bytes, 12), c);
}

#[test]
fn deep() {
    // DeepFoo { a: u8, b: *const ShallowBar, c: f32, d: *const ShallowBar }
    let schema = Schema {
        types: vec![
            TypeDesc {
                size: 32,
                align: 8,
                fields: vec![fd_plain(0), fd_reference(8, 1), fd_plain(16), fd_reference(24, 1)],
            },
            shallow_bar_plain(),
        ],
    };
    assert!(validate_schema(&schema));

    let mut bytes = vec![0u8; 32];
    bytes[0] = 19;
    put_u64(&mut bytes, 8, STALE);
    put_f32(&mut bytes, 16, 2024.06);
    put_u64(&mut bytes, 24, STALE);
    let obj = RecordValue {
        bytes,
        deep: vec![
            DeepValue::Null,
            DeepValue::Rec(Box::new(make_shallow_bar_plain(19.84, 20, 1864))),
            DeepValue::Null,
            DeepValue::Rec(Box::new(make_shallow_bar_plain(20.77, 11, 7864))),
        ],
    };

    let mut buf = CDumpBufferWriter::new(16);
    serialize(&schema, 0, &obj, &mut buf);

    let mut reader = buf.into_reader();
    let copy = deserialize(&schema, 0, &mut reader);

    assert_eq!(get_u8(&copy.bytes, 0), 19);
    assert_eq!(get_f32(&copy.bytes, 16), 2024.06);
    assert_shallow_bar_plain(rec_value(&copy.deep[1]), 19.84, 20, 1864);
    assert_shallow_bar_plain(rec_value(&copy.deep[3]), 20.77, 11, 7864);
}

#[test]
fn very_deep() {
    // VeryDeepFoo { a: u8, b: *mut DeepFoo }
    let schema = Schema {
        types: vec![
            TypeDesc { size: 16, align: 8, fields: vec![fd_plain(0), fd_reference(8, 1)] },
            TypeDesc {
                size: 32,
                align: 8,
                fields: vec![fd_plain(0), fd_reference(8, 2), fd_plain(16), fd_reference(24, 2)],
            },
            shallow_bar_plain(),
        ],
    };
    assert!(validate_schema(&schema));

    let mut inner_bytes = vec![0u8; 32];
    inner_bytes[0] = 19;
    put_u64(&mut inner_bytes, 8, STALE);
    put_f32(&mut inner_bytes, 16, 2024.06);
    put_u64(&mut inner_bytes, 24, STALE);
    let inner = RecordValue {
        bytes: inner_bytes,
        deep: vec![
            DeepValue::Null,
            DeepValue::Rec(Box::new(make_shallow_bar_plain(19.84, 20, 1864))),
            DeepValue::Null,
            DeepValue::Rec(Box::new(make_shallow_bar_plain(20.77, 11, 7864))),
        ],
    };
    let mut bytes = vec![0u8; 16];
    bytes[0] = 21;
    put_u64(&mut bytes, 8, STALE);
    let obj = RecordValue {
        bytes,
        deep: vec![DeepValue::Null, DeepValue::Rec(Box::new(inner))],
    };

    let mut buf = CDumpBufferWriter::new(16);
    serialize(&schema, 0, &obj, &mut buf);

    let mut reader = buf.into_reader();
    let copy = deserialize(&schema, 0, &mut reader);

    assert_eq!(get_u8(&copy.bytes, 0), 21);
    let mid = rec_value(&copy.deep[1]);
    assert_eq!(get_u8(&mid.bytes, 0), 19);
    assert_shallow_bar_plain(rec_value(&mid.deep[1]), 19.84, 20, 1864);
}

#[test]
fn deep_of_primitives() {
    // DeepOfPrimitives { a: *mut u16, b: *const isize }
    let schema = Schema {
        types: vec![TypeDesc {
            size: 16,
            align: 8,
            fields: vec![fd_ref_prim(0, 2, 2), fd_ref_prim(8, 8, 8)],
        }],
    };
    assert!(validate_schema(&schema));

    let mut bytes = vec![0u8; 16];
    put_u64(&mut bytes, 0, STALE);
    put_u64(&mut bytes, 8, STALE);
    let obj = RecordValue {
        bytes,
        deep: vec![
            DeepValue::Prim(0x1234u16.to_le_bytes().to_vec()),
            DeepValue::Prim(0x5678i64.to_le_bytes().to_vec()),
        ],
    };

    let mut buf = CDumpBufferWriter::new(16);
    serialize(&schema, 0, &obj, &mut buf);

    let mut reader = buf.into_reader();
    let copy = deserialize(&schema, 0, &mut reader);

    assert_eq!(get_u16(prim_bytes(&copy.deep[0]), 0), 0x1234);
    assert_eq!(
        i64::from_le_bytes(prim_bytes(&copy.deep[1]).as_slice().try_into().unwrap()),
        0x5678
    );
}

#[test]
fn deep_const() {
    // DeepFoo { a: u8, b: *const ShallowBar, c: f32 }
    let schema = Schema {
        types: vec![
            TypeDesc {
                size: 24,
                align: 8,
                fields: vec![fd_plain(0), fd_reference(8, 1), fd_plain(16)],
            },
            shallow_bar_plain(),
        ],
    };
    assert!(validate_schema(&schema));

    let mut bytes = vec![0u8; 24];
    bytes[0] = 19;
    put_u64(&mut bytes, 8, STALE);
    put_f32(&mut bytes, 16, 2024.06);
    let obj = RecordValue {
        bytes,
        deep: vec![
            DeepValue::Null,
            DeepValue::Rec(Box::new(make_shallow_bar_plain(19.84, 20, 1864))),
            DeepValue::Null,
        ],
    };

    let mut buf = CDumpBufferWriter::new(16);
    serialize(&schema, 0, &obj, &mut buf);

    let mut reader = buf.into_reader();
    let copy = deserialize(&schema, 0, &mut reader);

    assert_eq!(get_u8(&copy.bytes, 0), 19);
    assert_eq!(get_f32(&copy.bytes, 16), 2024.06);
    assert_shallow_bar_plain(rec_value(&copy.deep[1]), 19.84, 20, 1864);
}

#[test]
fn deserialize_ref() {
    // the zero-copy replay entry of the source becomes an owned replay here;
    // same layout and values as `deep`
    let schema = Schema {
        types: vec![
            TypeDesc {
                size: 32,
                align: 8,
                fields: vec![fd_plain(0), fd_reference(8, 1), fd_plain(16), fd_reference(24, 1)],
            },
            shallow_bar_plain(),
        ],
    };
    let mut bytes = vec![0u8; 32];
    bytes[0] = 19;
    put_u64(&mut bytes, 8, STALE);
    put_f32(&mut bytes, 16, 2024.06);
    put_u64(&mut bytes, 24, STALE);
    let obj = RecordValue {
        bytes,
        deep: vec![
            DeepValue::Null,
            DeepValue::Rec(Box::new(make_shallow_bar_plain(19.84, 20, 1864))),
            DeepValue::Null,
            DeepValue::Rec(Box::new(make_shallow_bar_plain(20.77, 11, 7864))),
        ],
    };

    let mut buf = CDumpBufferWriter::new(16);
    serialize(&schema, 0, &obj, &mut buf);

    let mut reader = buf.into_reader();
    let copy = deserialize(&schema, 0, &mut reader);

    assert_eq!(get_u8(&copy.bytes, 0), 19);
    assert_eq!(get_f32(&copy.bytes, 16), 2024.06);
    assert_shallow_bar_plain(rec_value(&copy.deep[1]), 19.84, 20, 1864);
    assert_shallow_bar_plain(rec_value(&copy.deep[3]), 20.77, 11, 7864);
}

#[test]
fn cstring() {
    // Foo { a: u32, text: *const c_char }
    let schema = Schema {
        types: vec![TypeDesc { size: 16, align: 8, fields: vec![fd_plain(0), fd_cstring(8)] }],
    };
    assert!(validate_schema(&schema));

    let mut bytes = vec![0u8; 16];
    put_u32(&mut bytes, 0, 1984);
    put_u64(&mut bytes, 8, STALE);
    let obj = RecordValue {
        bytes,
        deep: vec![DeepValue::Null, str_value("Hello world!")],
    };

    let mut buf = CDumpBufferWriter::new(16);
    serialize(&schema, 0, &obj, &mut buf);

    let mut reader = buf.into_reader();
    let copy = deserialize(&schema, 0, &mut reader);

    assert_eq!(get_u32(&copy.bytes, 0), 1984);
    assert_eq!(str_bytes(&copy.deep[1]).as_slice(), b"Hello world!");
    // the replayed string is fresh storage, not the input's
    assert!(!std::ptr::eq(
        str_bytes(&obj.deep[1]).as_ptr(),
        str_bytes(&copy.deep[1]).as_ptr(),
    ));
}

#[test]
fn null_cstring() {
    // a null string pointer survives the round trip as a null
    let schema = Schema {
        types: vec![TypeDesc { size: 8, align: 8, fields: vec![fd_cstring(0)] }],
    };
    assert!(validate_schema(&schema));

    let obj = RecordValue { bytes: vec![0u8; 8], deep: vec![DeepValue::Null] };

    let mut buf = CDumpBufferWriter::new(16);
    serialize(&schema, 0, &obj, &mut buf);

    let mut reader = buf.into_reader();
    let copy = deserialize(&schema, 0, &mut reader);

    assert!(matches!(copy.deep[0], DeepValue::Null));
}

fn shallow_bar_cstring() -> TypeDesc {
    // ShallowBar { a: f64, b: *const c_char, c: u32 }: size 24, align 8
    TypeDesc { size: 24, align: 8, fields: vec![fd_plain(0), fd_cstring(8), fd_plain(16)] }
}

fn make_shallow_bar_cstring(a: f64, b: &str, c: u32) -> RecordValue {
    let mut bytes = vec![0u8; 24];
    put_f64(&mut bytes, 0, a);
    put_u64(&mut bytes, 8, STALE);
    put_u32(&mut bytes, 16, c);
    RecordValue {
        bytes,
        deep: vec![DeepValue::Null, str_value(b), DeepValue::Null],
    }
}

fn assert_shallow_bar_cstring(r: &RecordValue, a: f64, b: &str, c: u32) {
    assert_eq!(get_f64(&r.bytes, 0), a);
    assert_eq!(str_bytes(&r.deep[1]).as_slice(), b.as_bytes());
    assert_eq!(get_u32(&r.bytes, 16), c);
}

#[test]
fn array() {
    // DeepFoo { len: u32, b: *const ShallowBar, c: f64 } with b an inline
    // array of records counted by len
    let schema = Schema {
        types: vec![
            TypeDesc {
                size: 24,
                align: 8,
                fields: vec![
                    fd_plain(0),
                    fd_array(8, len_field(0, 4), InnerKind::RecInline { tid: 1 }),
                    fd_plain(16),
                ],
            },
            shallow_bar_cstring(),
        ],
    };
    assert!(validate_schema(&schema));

    let mut bytes = vec![0u8; 24];
    put_u32(&mut bytes, 0, 2);
    put_u64(&mut bytes, 8, STALE);
    put_f64(&mut bytes, 16, 2024.07);
    let obj = RecordValue {
        bytes,
        deep: vec![
            DeepValue::Null,
            DeepValue::Arr(vec![
                DeepValue::Rec(Box::new(make_shallow_bar_cstring(19.84, "what", 1864))),
                DeepValue::Rec(Box::new(make_shallow_bar_cstring(20.77, "11", 7864))),
            ]),
            DeepValue::Null,
        ],
    };

    let mut buf = CDumpBufferWriter::new(16);
    serialize(&schema, 0, &obj, &mut buf);

    let mut reader = buf.into_reader();
    let copy = deserialize(&schema, 0, &mut reader);

    assert_eq!(get_u32(&copy.bytes, 0), 2);
    assert_eq!(get_f64(&copy.bytes, 16), 2024.07);
    let elems = arr_elems(&copy.deep[1]);
    assert_eq!(elems.len(), 2);
    assert_shallow_bar_cstring(rec_value(&elems[0]), 19.84, "what", 1864);
    assert_shallow_bar_cstring(rec_value(&elems[1]), 20.77, "11", 7864);
}

#[test]
fn of_primitives() {
    // ArrayOfPrimitives { len: u32, b: *const u16 }
    let schema = Schema {
        types: vec![TypeDesc {
            size: 16,
            align: 8,
            fields: vec![
                fd_plain(0),
                fd_array(8, len_field(0, 4), InnerKind::PrimSlice { size: 2, align: 2 }),
            ],
        }],
    };
    assert!(validate_schema(&schema));

    let values: [u16; 5] = [45644, 2566, 3345, 8854, 12345];
    let mut bytes = vec![0u8; 16];
    put_u32(&mut bytes, 0, values.len() as u32);
    put_u64(&mut bytes, 8, STALE);
    let obj = RecordValue {
        bytes,
        deep: vec![
            DeepValue::Null,
            DeepValue::Arr(
                values.iter().map(|v| DeepValue::Prim(v.to_le_bytes().to_vec())).collect(),
            ),
        ],
    };

    let mut buf = CDumpBufferWriter::new(16);
    serialize(&schema, 0, &obj, &mut buf);

    let mut reader = buf.into_reader();
    let copy = deserialize(&schema, 0, &mut reader);

    assert_eq!(get_u32(&copy.bytes, 0), 5);
    let elems = arr_elems(&copy.deep[1]);
    assert_eq!(elems.len(), 5);
    for (i, v) in values.iter().enumerate() {
        assert_eq!(get_u16(prim_bytes(&elems[i]), 0), *v);
    }
}

#[test]
fn expression_in_len() {
    // ArrayWithExpressionInLen { len: u8, b: *const u32 } with the count
    // written as len divided by the element width
    let schema = Schema {
        types: vec![TypeDesc {
            size: 16,
            align: 8,
            fields: vec![
                fd_plain(0),
                fd_array(
                    8,
                    LenExpr { offset: 0, width: 1, divisor: 4 },
                    InnerKind::PrimSlice { size: 4, align: 4 },
                ),
            ],
        }],
    };
    assert!(validate_schema(&schema));

    let values: [u32; 5] = [567353453, 2352623, 457345353, 23525235, 2384279479];
    let mut bytes = vec![0u8; 16];
    bytes[0] = (values.len() * 4) as u8;
    put_u64(&mut bytes, 8, STALE);
    let obj = RecordValue {
        bytes,
        deep: vec![
            DeepValue::Null,
            DeepValue::Arr(
                values.iter().map(|v| DeepValue::Prim(v.to_le_bytes().to_vec())).collect(),
            ),
        ],
    };

    let mut buf = CDumpBufferWriter::new(16);
    serialize(&schema, 0, &obj, &mut buf);

    let mut reader = buf.into_reader();
    let copy = deserialize(&schema, 0, &mut reader);

    assert_eq!(get_u8(&copy.bytes, 0), 20);
    let elems = arr_elems(&copy.deep[1]);
    assert_eq!(elems.len(), 5);
    for (i, v) in values.iter().enumerate() {
        assert_eq!(get_u32(prim_bytes(&elems[i]), 0), *v);
    }
}

#[test]
fn array_of_pointers() {
    // ArrayOfPointers { len: u8, data: *const *const ShallowBar }
    let schema = Schema {
        types: vec![
            TypeDesc {
                size: 16,
                align: 8,
                fields: vec![
                    fd_plain(0),
                    fd_array(8, len_field(0, 1), InnerKind::RecPtr { tid: 1 }),
                ],
            },
            shallow_bar_cstring(),
        ],
    };
    assert!(validate_schema(&schema));

    let mut bytes = vec![0u8; 16];
    bytes[0] = 2;
    put_u64(&mut bytes, 8, STALE);
    let obj = RecordValue {
        bytes,
        deep: vec![
            DeepValue::Null,
            DeepValue::Arr(vec![
                DeepValue::Rec(Box::new(make_shallow_bar_cstring(
                    4.7232552462,
                    "in that order of can-ing",
                    1234515,
                ))),
                DeepValue::Rec(Box::new(make_shallow_bar_cstring(
                    -235252.5572352,
                    "bad habits",
                    1212385628,
                ))),
            ]),
        ],
    };

    let mut buf = CDumpBufferWriter::new(16);
    serialize(&schema, 0, &obj, &mut buf);

    let mut reader = buf.into_reader();
    let copy = deserialize(&schema, 0, &mut reader);

    assert_eq!(get_u8(&copy.bytes, 0), 2);
    let elems = arr_elems(&copy.deep[1]);
    assert_eq!(elems.len(), 2);
    assert_shallow_bar_cstring(
        rec_value(&elems[0]),
        4.7232552462,
        "in that order of can-ing",
        1234515,
    );
    assert_shallow_bar_cstring(
        rec_value(&elems[1]),
        -235252.5572352,
        "bad habits",
        1212385628,
    );
}

#[test]
fn cstring_array() {
    // Foo { len: u32, text: *const *const c_char }
    let schema = Schema {
        types: vec![TypeDesc {
            size: 16,
            align: 8,
            fields: vec![fd_plain(0), fd_array(8, len_field(0, 4), InnerKind::CString)],
        }],
    };
    assert!(validate_schema(&schema));

    let mut bytes = vec![0u8; 16];
    put_u32(&mut bytes, 0, 2);
    put_u64(&mut bytes, 8, STALE);
    let obj = RecordValue {
        bytes,
        deep: vec![
            DeepValue::Null,
            DeepValue::Arr(vec![str_value("Hello world!"), str_value("Hello miyazaki!")]),
        ],
    };

    let mut buf = CDumpBufferWriter::new(16);
    serialize(&schema, 0, &obj, &mut buf);

    let mut reader = buf.into_reader();
    let copy = deserialize(&schema, 0, &mut reader);

    assert_eq!(get_u32(&copy.bytes, 0), 2);
    let elems = arr_elems(&copy.deep[1]);
    assert_eq!(elems.len(), 2);
    assert_eq!(str_bytes(&elems[0]).as_slice(), b"Hello world!");
    assert_eq!(str_bytes(&elems[1]).as_slice(), b"Hello miyazaki!");
}

fn dynamic_bar() -> TypeDesc {
    // DynamicBar { ty: u32 discriminator, text: *const c_char }: size 16
    TypeDesc { size: 16, align: 8, fields: vec![fd_plain(0), fd_cstring(8)] }
}

fn make_dynamic_bar(ty: u32, text: &str) -> RecordValue {
    let mut bytes = vec![0u8; 16];
    put_u32(&mut bytes, 0, ty);
    put_u64(&mut bytes, 8, STALE);
    RecordValue { bytes, deep: vec![DeepValue::Null, str_value(text)] }
}

#[test]
fn dynamic() {
    // Foo { a: u32, d: *const c_void (dynamic), text: *const c_char }; the
    // registered hook dumps a type-id word followed by the payload record
    let schema = Schema {
        types: vec![
            TypeDesc {
                size: 24,
                align: 8,
                fields: vec![fd_plain(0), fd_dynamic(8), fd_cstring(16)],
            },
            dynamic_bar(),
        ],
    };
    assert!(validate_schema(&schema));

    let mut bytes = vec![0u8; 24];
    put_u32(&mut bytes, 0, 1984);
    put_u64(&mut bytes, 8, STALE);
    put_u64(&mut bytes, 16, STALE);
    let obj = RecordValue {
        bytes,
        deep: vec![
            DeepValue::Null,
            DeepValue::Dyn(1, Box::new(make_dynamic_bar(1, "Never coming back!"))),
            str_value("Hello world!"),
        ],
    };

    let mut buf = CDumpBufferWriter::new(16);
    serialize(&schema, 0, &obj, &mut buf);

    let mut reader = buf.into_reader();
    let copy = deserialize(&schema, 0, &mut reader);

    assert_eq!(get_u32(&copy.bytes, 0), 1984);
    let (tid, bar) = dyn_value(&copy.deep[1]);
    assert_eq!(tid, 1);
    assert_eq!(get_u32(&bar.bytes, 0), 1);
    assert_eq!(str_bytes(&bar.deep[1]).as_slice(), b"Never coming back!");
    assert_eq!(str_bytes(&copy.deep[2]).as_slice(), b"Hello world!");
}

#[test]
fn array_of_dynamic_types() {
    // ArrayOfDynamicTypes { len: u8, data: *const *const c_void }
    let schema = Schema {
        types: vec![
            TypeDesc {
                size: 16,
                align: 8,
                fields: vec![
                    fd_plain(0),
                    fd_array(8, len_field(0, 1), InnerKind::Dynamic),
                ],
            },
            dynamic_bar(),
        ],
    };
    assert!(validate_schema(&schema));

    let mut bytes = vec![0u8; 16];
    bytes[0] = 2;
    put_u64(&mut bytes, 8, STALE);
    let obj = RecordValue {
        bytes,
        deep: vec![
            DeepValue::Null,
            DeepValue::Arr(vec![
                DeepValue::Dyn(1, Box::new(make_dynamic_bar(1, "Never coming back!"))),
                DeepValue::Dyn(1, Box::new(make_dynamic_bar(1, "Hello world!"))),
            ]),
        ],
    };

    let mut buf = CDumpBufferWriter::new(16);
    serialize(&schema, 0, &obj, &mut buf);

    let mut reader = buf.into_reader();
    let copy = deserialize(&schema, 0, &mut reader);

    assert_eq!(get_u8(&copy.bytes, 0), 2);
    let elems = arr_elems(&copy.deep[1]);
    assert_eq!(elems.len(), 2);
    let (t0, b0) = dyn_value(&elems[0]);
    let (t1, b1) = dyn_value(&elems[1]);
    assert_eq!(t0, 1);
    assert_eq!(t1, 1);
    assert_eq!(str_bytes(&b0.deep[1]).as_slice(), b"Never coming back!");
    assert_eq!(str_bytes(&b1.deep[1]).as_slice(), b"Hello world!");
}

#[test]
fn vk_instance_create_info() {
    // VkInstanceCreateInfo { p_next: dynamic, p_application_info: *const
    // VkApplicationInfo, enabled_layer_count: u32, pp_enabled_layer_names:
    // *const *const c_char, enabled_extension_count: u32,
    // pp_enabled_extension_names: *const *const c_char }
    // VkApplicationInfo { p_next: dynamic, p_application_name: *const
    // c_char, p_engine_name: *const c_char }
    let schema = Schema {
        types: vec![
            TypeDesc {
                size: 48,
                align: 8,
                fields: vec![
                    fd_dynamic(0),
                    fd_reference(8, 1),
                    fd_plain(16),
                    fd_array(24, len_field(16, 4), InnerKind::CString),
                    fd_plain(32),
                    fd_array(40, len_field(32, 4), InnerKind::CString),
                ],
            },
            TypeDesc {
                size: 24,
                align: 8,
                fields: vec![fd_dynamic(0), fd_cstring(8), fd_cstring(16)],
            },
        ],
    };
    assert!(validate_schema(&schema));

    let mut ai_bytes = vec![0u8; 24];
    put_u64(&mut ai_bytes, 8, STALE);
    let app_info = RecordValue {
        bytes: ai_bytes,
        deep: vec![DeepValue::Null, str_value("vulkaninfo"), DeepValue::Null],
    };

    let mut bytes = vec![0u8; 48];
    put_u64(&mut bytes, 8, STALE);
    put_u32(&mut bytes, 16, 0);
    put_u32(&mut bytes, 32, 2);
    put_u64(&mut bytes, 40, STALE);
    let obj = RecordValue {
        bytes,
        deep: vec![
            DeepValue::Null,
            DeepValue::Rec(Box::new(app_info)),
            DeepValue::Null,
            DeepValue::Null,
            DeepValue::Null,
            DeepValue::Arr(vec![
                str_value("VK_KHR_surface"),
                str_value("VK_KHR_win32_surface"),
            ]),
        ],
    };

    let mut buf = CDumpBufferWriter::new(16);
    serialize(&schema, 0, &obj, &mut buf);

    let mut reader = buf.into_reader();
    let copy = deserialize(&schema, 0, &mut reader);

    assert!(matches!(copy.deep[0], DeepValue::Null));
    let ai = rec_value(&copy.deep[1]);
    assert!(matches!(ai.deep[0], DeepValue::Null));
    assert_eq!(str_bytes(&ai.deep[1]).as_slice(), b"vulkaninfo");
    assert!(matches!(ai.deep[2], DeepValue::Null));
    assert_eq!(get_u32(&copy.bytes, 16), 0);
    assert!(matches!(copy.deep[3], DeepValue::Null));
    assert_eq!(get_u32(&copy.bytes, 32), 2);
    let names = arr_elems(&copy.deep[5]);
    assert_eq!(str_bytes(&names[0]).as_slice(), b"VK_KHR_surface");
    assert_eq!(str_bytes(&names[1]).as_slice(), b"VK_KHR_win32_surface");
}

#[test]
fn idempotent_replay() {
    // two dumps into one buffer replay in order
    let schema = Schema {
        types: vec![TypeDesc { size: 16, align: 8, fields: vec![fd_plain(0), fd_cstring(8)] }],
    };
    let mut b1 = vec![0u8; 16];
    put_u32(&mut b1, 0, 7);
    put_u64(&mut b1, 8, STALE);
    let first = RecordValue { bytes: b1, deep: vec![DeepValue::Null, str_value("one")] };
    let mut b2 = vec![0u8; 16];
    put_u32(&mut b2, 0, 8);
    put_u64(&mut b2, 8, STALE);
    let second = RecordValue { bytes: b2, deep: vec![DeepValue::Null, str_value("two")] };

    let mut buf = CDumpBufferWriter::new(16);
    serialize(&schema, 0, &first, &mut buf);
    serialize(&schema, 0, &second, &mut buf);

    let mut reader = buf.into_reader();
    let c1 = deserialize(&schema, 0, &mut reader);
    let c2 = deserialize(&schema, 0, &mut reader);

    assert_eq!(get_u32(&c1.bytes, 0), 7);
    assert_eq!(str_bytes(&c1.deep[1]).as_slice(), b"one");
    assert_eq!(get_u32(&c2.bytes, 0), 8);
    assert_eq!(str_bytes(&c2.deep[1]).as_slice(), b"two");
}

#[test]
fn alignment_padding() {
    // a one-byte record followed by an eight-aligned record: the second
    // dump begins at the next multiple of its alignment
    let schema = Schema {
        types: vec![
            TypeDesc { size: 1, align: 1, fields: vec![fd_plain(0)] },
            TypeDesc { size: 16, align: 8, fields: vec![fd_plain(0), fd_plain(8)] },
        ],
    };
    let tiny = RecordValue { bytes: vec![0xAB], deep: vec![DeepValue::Null] };
    let mut wb = vec![0u8; 16];
    put_f64(&mut wb, 8, 1.5);
    let wide = RecordValue { bytes: wb, deep: vec![DeepValue::Null, DeepValue::Null] };

    let mut buf = CDumpBufferWriter::new(16);
    serialize(&schema, 0, &tiny, &mut buf);
    assert_eq!(buf.len(), 1);
    serialize(&schema, 1, &wide, &mut buf);
    // 7 bytes of padding, then the 16-byte shallow image
    assert_eq!(buf.len(), 24);

    let mut reader = buf.into_reader();
    let c1 = deserialize(&schema, 0, &mut reader);
    let c2 = deserialize(&schema, 1, &mut reader);
    assert_eq!(get_u8(&c1.bytes, 0), 0xAB);
    assert_eq!(get_f64(&c2.bytes, 8), 1.5);
}

#[test]
fn length_tag_in_slot() {
    // the string field's pointer slot carries length-plus-terminator on the
    // wire
    let schema = Schema {
        types: vec![TypeDesc { size: 16, align: 8, fields: vec![fd_plain(0), fd_cstring(8)] }],
    };
    let mut bytes = vec![0u8; 16];
    put_u32(&mut bytes, 0, 1);
    put_u64(&mut bytes, 8, STALE);
    let obj = RecordValue { bytes, deep: vec![DeepValue::Null, str_value("Hello world!")] };

    let mut buf = CDumpBufferWriter::new(16);
    serialize(&schema, 0, &obj, &mut buf);
    // shallow image (16 bytes) + 13 string bytes
    assert_eq!(buf.len(), 16 + 13);

    let reader = buf.into_reader();
    let mut tag = [0u8; 8];
    for i in 0..8 {
        tag[i] = cdump::buffer::CDumpReader::byte_at(&reader, 8 + i);
    }
    assert_eq!(u64::from_le_bytes(tag), 13);
}

#[test]
fn empty_cstring() {
    // the empty string still carries its terminator: tag 1, one NUL byte
    let schema = Schema {
        types: vec![TypeDesc { size: 8, align: 8, fields: vec![fd_cstring(0)] }],
    };
    let mut bytes = vec![0u8; 8];
    put_u64(&mut bytes, 0, STALE);
    let obj = RecordValue { bytes, deep: vec![str_value("")] };

    let mut buf = CDumpBufferWriter::new(16);
    serialize(&schema, 0, &obj, &mut buf);
    assert_eq!(buf.len(), 9);

    let mut reader = buf.into_reader();
    let copy = deserialize(&schema, 0, &mut reader);
    assert_eq!(str_bytes(&copy.deep[0]).len(), 0);
}

#[test]
fn empty_array() {
    // a non-null array of zero elements dumps no region and no payload
    let schema = Schema {
        types: vec![TypeDesc {
            size: 16,
            align: 8,
            fields: vec![
                fd_plain(0),
                fd_array(8, len_field(0, 4), InnerKind::PrimSlice { size: 2, align: 2 }),
            ],
        }],
    };
    let mut bytes = vec![0u8; 16];
    put_u32(&mut bytes, 0, 0);
    put_u64(&mut bytes, 8, STALE);
    let obj = RecordValue {
        bytes,
        deep: vec![DeepValue::Null, DeepValue::Arr(vec![])],
    };

    let mut buf = CDumpBufferWriter::new(16);
    serialize(&schema, 0, &obj, &mut buf);
    assert_eq!(buf.len(), 16);

    let mut reader = buf.into_reader();
    let copy = deserialize(&schema, 0, &mut reader);
    assert_eq!(arr_elems(&copy.deep[1]).len(), 0);
}

#[test]
fn rejects_bad_descriptor() {
    // a pointer slot that does not fit in the record is refused at
    // descriptor-validation time
    let bad = Schema {
        types: vec![TypeDesc { size: 8, align: 8, fields: vec![fd_cstring(4)] }],
    };
    assert!(!validate_schema(&bad));
    // a length expression reading from inside a pointer slot is refused
    let bad2 = Schema {
        types: vec![TypeDesc {
            size: 16,
            align: 8,
            fields: vec![
                fd_array(8, len_field(10, 2), InnerKind::PrimSlice { size: 2, align: 2 }),
            ],
        }],
    };
    assert!(!validate_schema(&bad2));
}

#[test]
fn deserialize_to_original_memory_tree() {
    // mode C: refresh a pre-allocated same-shape tree; every pointer slot
    // keeps its bytes, every payload takes the dumped values
    let schema = Schema {
        types: vec![
            // DeepFoo { a: u8, b: *mut ShallowBar, c: f32, d: *mut ShallowBar,
            //           number_ptr: *mut u32, array_primitive_len: u32,
            //           array_primitive: *mut u16 }
            TypeDesc {
                size: 56,
                align: 8,
                fields: vec![
                    fd_plain(0),
                    fd_reference(8, 1),
                    fd_plain(16),
                    fd_reference(24, 1),
                    fd_ref_prim(32, 4, 4),
                    fd_plain(40),
                    fd_array(48, len_field(40, 4), InnerKind::PrimSlice { size: 2, align: 2 }),
                ],
            },
            // ShallowBar { a: f64, b: u8, c: u32, ptr: *mut c_void (dynamic) }
            TypeDesc {
                size: 24,
                align: 8,
                fields: vec![fd_plain(0), fd_plain(8), fd_plain(12), fd_dynamic(16)],
            },
            // Dynamic { value: u8 }
            TypeDesc { size: 1, align: 1, fields: vec![fd_plain(0)] },
        ],
    };
    assert!(validate_schema(&schema));

    let make_bar = |a: f64, b: u8, c: u32, value: u8, slot: u64| {
        let mut bytes = vec![0u8; 24];
        put_f64(&mut bytes, 0, a);
        bytes[8] = b;
        put_u32(&mut bytes, 12, c);
        put_u64(&mut bytes, 16, slot);
        RecordValue {
            bytes,
            deep: vec![
                DeepValue::Null,
                DeepValue::Null,
                DeepValue::Null,
                DeepValue::Dyn(
                    2,
                    Box::new(RecordValue {
                        bytes: vec![value],
                        deep: vec![DeepValue::Null],
                    }),
                ),
            ],
        }
    };
    let make_foo = |a: u8, c: f32, number: u32, arr: &[u16], bar1: RecordValue,
        bar2: RecordValue, slots: [u64; 4]| {
        let mut bytes = vec![0u8; 56];
        bytes[0] = a;
        put_u64(&mut bytes, 8, slots[0]);
        put_f32(&mut bytes, 16, c);
        put_u64(&mut bytes, 24, slots[1]);
        put_u64(&mut bytes, 32, slots[2]);
        put_u32(&mut bytes, 40, arr.len() as u32);
        put_u64(&mut bytes, 48, slots[3]);
        RecordValue {
            bytes,
            deep: vec![
                DeepValue::Null,
                DeepValue::Rec(Box::new(bar1)),
                DeepValue::Null,
                DeepValue::Rec(Box::new(bar2)),
                DeepValue::Prim(number.to_le_bytes().to_vec()),
                DeepValue::Null,
                DeepValue::Arr(
                    arr.iter().map(|v| DeepValue::Prim(v.to_le_bytes().to_vec())).collect(),
                ),
            ],
        }
    };

    // the populated source tree, dumped into the buffer
    let src = make_foo(
        19,
        2024.08,
        0x13,
        &[5, 7, 13, 0],
        make_bar(19.84, 20, 1864, 10, STALE),
        make_bar(20.77, 11, 7864, 128, STALE),
        [STALE; 4],
    );
    let mut buf = CDumpBufferWriter::new(16);
    serialize(&schema, 0, &src, &mut buf);
    let mut reader = buf.into_reader();

    // the pre-allocated destination tree: zeroed payloads, its own distinct
    // non-zero pointer slots
    let mut dst = make_foo(
        0,
        0.0,
        0,
        &[0, 0, 0, 0],
        make_bar(0.0, 0, 0, 0, 0x1111),
        make_bar(0.0, 0, 0, 0, 0x2222),
        [0x3333, 0x4444, 0x5555, 0x6666],
    );

    deserialize_to(&schema, 0, &mut reader, &mut dst);

    // payloads refreshed from the dump
    assert_eq!(get_u8(&dst.bytes, 0), 19);
    assert_eq!(get_f32(&dst.bytes, 16), 2024.08);
    assert_eq!(get_u32(&dst.bytes, 40), 4);
    assert_eq!(get_u32(prim_bytes(&dst.deep[4]), 0), 0x13);
    let arr = arr_elems(&dst.deep[6]);
    let expect: [u16; 4] = [5, 7, 13, 0];
    for i in 0..4 {
        assert_eq!(get_u16(prim_bytes(&arr[i]), 0), expect[i]);
    }
    let bar1 = rec_value(&dst.deep[1]);
    assert_eq!(get_f64(&bar1.bytes, 0), 19.84);
    assert_eq!(get_u8(&bar1.bytes, 8), 20);
    assert_eq!(get_u32(&bar1.bytes, 12), 1864);
    let (dt1, dyn1) = dyn_value(&bar1.deep[3]);
    assert_eq!(dt1, 2);
    assert_eq!(dyn1.bytes[0], 10);
    let bar2 = rec_value(&dst.deep[3]);
    assert_eq!(get_f64(&bar2.bytes, 0), 20.77);
    assert_eq!(get_u8(&bar2.bytes, 8), 11);
    assert_eq!(get_u32(&bar2.bytes, 12), 7864);
    let (dt2, dyn2) = dyn_value(&bar2.deep[3]);
    assert_eq!(dt2, 2);
    assert_eq!(dyn2.bytes[0], 128);

    // pointer identity preserved: every slot keeps the destination's bytes
    let slot = |bytes: &Vec<u8>, off: usize| {
        let mut le = [0u8; 8];
        le.copy_from_slice(&bytes[off..off + 8]);
        u64::from_le_bytes(le)
    };
    assert_eq!(slot(&dst.bytes, 8), 0x3333);
    assert_eq!(slot(&dst.bytes, 24), 0x4444);
    assert_eq!(slot(&dst.bytes, 32), 0x5555);
    assert_eq!(slot(&dst.bytes, 48), 0x6666);
    assert_eq!(slot(&bar1.bytes, 16), 0x1111);
    assert_eq!(slot(&bar2.bytes, 16), 0x2222);
}
