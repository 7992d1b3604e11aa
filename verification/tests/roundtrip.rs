use pcd_rs::{
    DataKind, DynReader, DynRecord, Error, Field, FieldDef, Schema, ViewPoint, WriterInit,
};

fn zero_viewpoint() -> ViewPoint {
    let z = 0.0f64.to_bits();
    let one = 1.0f64.to_bits();
    ViewPoint { tx: z, ty: z, tz: z, qw: one, qx: z, qy: z, qz: z }
}

fn xyzrgb_schema() -> Schema {
    Schema {
        fields: vec![
            FieldDef { name: b"x".to_vec(), kind: pcd_rs::ValueKind::F32, count: 1 },
            FieldDef { name: b"y".to_vec(), kind: pcd_rs::ValueKind::F32, count: 1 },
            FieldDef { name: b"z".to_vec(), kind: pcd_rs::ValueKind::F32, count: 1 },
            FieldDef { name: b"rgb".to_vec(), kind: pcd_rs::ValueKind::F32, count: 1 },
        ],
    }
}

fn float_record(x: f32, y: f32, z: f32, rgb: f32) -> DynRecord {
    DynRecord(vec![
        Field::F32(vec![x.to_bits()]),
        Field::F32(vec![y.to_bits()]),
        Field::F32(vec![z.to_bits()]),
        Field::F32(vec![rgb.to_bits()]),
    ])
}

fn mixed_schema() -> Schema {
    Schema {
        fields: vec![
            FieldDef { name: b"a".to_vec(), kind: pcd_rs::ValueKind::I8, count: 2 },
            FieldDef { name: b"b".to_vec(), kind: pcd_rs::ValueKind::U16, count: 1 },
            FieldDef { name: b"c".to_vec(), kind: pcd_rs::ValueKind::I32, count: 1 },
            FieldDef { name: b"d".to_vec(), kind: pcd_rs::ValueKind::F64, count: 1 },
        ],
    }
}

fn mixed_record(a0: i8, a1: i8, b: u16, c: i32, d: f64) -> DynRecord {
    DynRecord(vec![
        Field::I8(vec![a0, a1]),
        Field::U16(vec![b]),
        Field::I32(vec![c]),
        Field::F64(vec![d.to_bits()]),
    ])
}

fn write_file(kind: DataKind, schema: Schema, records: &[DynRecord]) -> Vec<u8> {
    let init = WriterInit {
        version: b".7".to_vec(),
        width: records.len() as u64,
        height: 1,
        viewpoint: zero_viewpoint(),
        data_kind: kind,
        schema,
    };
    let mut w = init.build_dyn().expect("writer builds");
    for r in records {
        w.push(r).expect("push succeeds");
    }
    w.finish().expect("finish succeeds")
}

fn read_all(bytes: Vec<u8>) -> (pcd_rs::PcdMeta, Vec<DynRecord>) {
    let mut r = DynReader::new(bytes).expect("header parses");
    let meta = r.meta().clone();
    let mut out = Vec::new();
    while let Some(item) = r.next() {
        out.push(item.expect("record decodes"));
    }
    (meta, out)
}

#[test]
fn round_trip_ascii_floats() {
    let recs = vec![
        float_record(0.5, -1.25, 3.0e7, 42.0),
        float_record(-0.0, 1.0e-40, f32::INFINITY, f32::NEG_INFINITY),
    ];
    let bytes = write_file(DataKind::Ascii, xyzrgb_schema(), &recs);
    let (meta, back) = read_all(bytes);
    assert_eq!(meta.num_points, 2);
    assert_eq!(meta.data, DataKind::Ascii);
    assert_eq!(back, recs);
}

#[test]
fn round_trip_binary_floats() {
    let recs = vec![
        float_record(0.5, -1.25, 3.0e7, 42.0),
        float_record(f32::NAN, -0.0, f32::MIN_POSITIVE, 1.0e-45),
    ];
    let bytes = write_file(DataKind::Binary, xyzrgb_schema(), &recs);
    let (meta, back) = read_all(bytes);
    assert_eq!(meta.num_points, 2);
    assert_eq!(meta.data, DataKind::Binary);
    // binary carries every bit pattern exactly, NaN payloads included
    assert_eq!(back, recs);
}

#[test]
fn round_trip_ascii_mixed_integers() {
    let recs = vec![
        mixed_record(-128, 127, 65535, -2147483648, -1.5e300),
        mixed_record(0, -1, 0, 2147483647, 0.0),
    ];
    let bytes = write_file(DataKind::Ascii, mixed_schema(), &recs);
    let (_, back) = read_all(bytes);
    assert_eq!(back, recs);
}

#[test]
fn round_trip_binary_mixed_integers() {
    let recs = vec![
        mixed_record(-128, 127, 65535, -2147483648, -1.5e300),
        mixed_record(5, -7, 1234, -42, 6.25),
    ];
    let bytes = write_file(DataKind::Binary, mixed_schema(), &recs);
    let (_, back) = read_all(bytes);
    assert_eq!(back, recs);
}

#[test]
fn cross_encoding_equivalence() {
    let recs = vec![
        float_record(1.0, -2.5, 0.125, 4.2e6),
        float_record(9.87e-3, 6.0221e23, -1.0, 255.0),
    ];
    let ascii = write_file(DataKind::Ascii, xyzrgb_schema(), &recs);
    let binary = write_file(DataKind::Binary, xyzrgb_schema(), &recs);
    let (_, from_ascii) = read_all(ascii);
    let (_, from_binary) = read_all(binary);
    assert_eq!(from_ascii, from_binary);
    assert_eq!(from_ascii, recs);
}

#[test]
fn truncation_detected_at_correct_point() {
    let recs = vec![float_record(1.0, 2.0, 3.0, 4.0), float_record(5.0, 6.0, 7.0, 8.0)];
    let mut bytes = write_file(DataKind::Binary, xyzrgb_schema(), &recs);
    // drop one byte: the second point is short by at least one field's width
    bytes.pop();
    let mut r = DynReader::new(bytes).expect("header parses");
    let first = r.next().expect("first present").expect("first decodes");
    assert_eq!(first, recs[0]);
    let second = r.next().expect("second present");
    assert_eq!(second, Err(Error::Truncation { point: 1 }));
}

#[test]
fn over_push_rejected_without_corruption() {
    let init = WriterInit {
        version: b".7".to_vec(),
        width: 1,
        height: 1,
        viewpoint: zero_viewpoint(),
        data_kind: DataKind::Ascii,
        schema: xyzrgb_schema(),
    };
    let mut w = init.build_dyn().expect("writer builds");
    w.push(&float_record(1.0, 2.0, 3.0, 4.0)).expect("first push fits");
    let err = w.push(&float_record(9.0, 9.0, 9.0, 9.0));
    assert_eq!(err, Err(Error::WriteOverflow));
    // the earlier bytes are intact: the file still reads as one point
    let bytes = w.finish().expect("finish succeeds");
    let (_, back) = read_all(bytes);
    assert_eq!(back, vec![float_record(1.0, 2.0, 3.0, 4.0)]);
}
