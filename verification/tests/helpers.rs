use pcd_rs::{
    load_dyn_records, DataKind, Error, Field, FieldDef, HMRecords, PcdSerialize, PointXyzRgb,
    Schema, ViewPoint, Writer, WriterInit,
};

fn small_file() -> Vec<u8> {
    let header = "VERSION .7\nFIELDS idx v\nSIZE 4 2\nTYPE U I\nCOUNT 1 2\nWIDTH 2\nHEIGHT 1\nVIEWPOINT 0 0 0 1 0 0 0\nPOINTS 2\nDATA ascii\n";
    let data = "7 -1 +2\n8 0 -32768\n";
    let mut v = header.as_bytes().to_vec();
    v.extend_from_slice(data.as_bytes());
    v
}

#[test]
fn load_dyn_records_pairs_names_with_values() {
    let recs = load_dyn_records(small_file()).expect("loads");
    assert_eq!(recs.len(), 2);
    assert_eq!(recs[0].len(), 2);
    assert_eq!(recs[0][0].0, b"idx".to_vec());
    assert_eq!(recs[0][0].1, Field::U32(vec![7]));
    assert_eq!(recs[0][1].0, b"v".to_vec());
    assert_eq!(recs[0][1].1, Field::I16(vec![-1, 2]));
    assert_eq!(recs[1][0].1, Field::U32(vec![8]));
    assert_eq!(recs[1][1].1, Field::I16(vec![0, -32768]));
}

#[test]
fn load_dyn_records_surfaces_decode_faults() {
    let header = "VERSION .7\nFIELDS v\nSIZE 2\nTYPE U\nWIDTH 1\nHEIGHT 1\nVIEWPOINT 0 0 0 1 0 0 0\nPOINTS 1\nDATA ascii\n";
    let mut v = header.as_bytes().to_vec();
    v.extend_from_slice(b"70000\n");
    let got = load_dyn_records(v);
    assert_eq!(got, Err(Error::BadToken { point: 0, slot: 0 }));
}

#[test]
fn hm_records_iterates_like_the_loader() {
    let mut it = HMRecords::new(small_file()).expect("opens");
    let all = load_dyn_records(small_file()).expect("loads");
    let mut n = 0;
    while let Some(item) = it.next() {
        let pairs = item.expect("decodes");
        assert_eq!(pairs, all[n]);
        n += 1;
    }
    assert_eq!(n, 2);
}

#[test]
fn typed_writer_round_trips_through_typed_reader() {
    let schema = Schema {
        fields: vec![
            FieldDef { name: b"x".to_vec(), kind: pcd_rs::ValueKind::F32, count: 1 },
            FieldDef { name: b"y".to_vec(), kind: pcd_rs::ValueKind::F32, count: 1 },
            FieldDef { name: b"z".to_vec(), kind: pcd_rs::ValueKind::F32, count: 1 },
            FieldDef { name: b"rgb".to_vec(), kind: pcd_rs::ValueKind::F32, count: 1 },
        ],
    };
    let z = 0.0f64.to_bits();
    let init = WriterInit {
        version: b".7".to_vec(),
        width: 1,
        height: 1,
        viewpoint: ViewPoint { tx: z, ty: z, tz: z, qw: 1.0f64.to_bits(), qx: z, qy: z, qz: z },
        data_kind: DataKind::Binary,
        schema,
    };
    let mut w: Writer<PointXyzRgb> = init.build().expect("binds and builds");
    let p = PointXyzRgb {
        x: 1.0f32.to_bits(),
        y: 2.0f32.to_bits(),
        z: 3.0f32.to_bits(),
        rgb: 4.2e6f32.to_bits(),
    };
    w.push(&p).expect("push fits");
    let bytes = w.finish().expect("finish succeeds");
    let mut r: pcd_rs::Reader<PointXyzRgb> = pcd_rs::Reader::new(bytes).expect("binds");
    let back = r.next().unwrap().expect("decodes");
    assert_eq!(back, p);
    assert!(r.next().is_none());
}

#[test]
fn writer_refuses_inconsistent_metadata() {
    let schema = Schema { fields: vec![] };
    let z = 0.0f64.to_bits();
    let init = WriterInit {
        version: b".7".to_vec(),
        width: 1,
        height: 1,
        viewpoint: ViewPoint { tx: z, ty: z, tz: z, qw: z, qx: z, qy: z, qz: z },
        data_kind: DataKind::Ascii,
        schema,
    };
    assert_eq!(init.build_dyn().err(), Some(Error::Meta));
}

#[test]
fn writer_refuses_mismatched_record_shape() {
    let schema = Schema {
        fields: vec![FieldDef { name: b"x".to_vec(), kind: pcd_rs::ValueKind::U8, count: 1 }],
    };
    let z = 0.0f64.to_bits();
    let init = WriterInit {
        version: b".7".to_vec(),
        width: 1,
        height: 1,
        viewpoint: ViewPoint { tx: z, ty: z, tz: z, qw: z, qx: z, qy: z, qz: z },
        data_kind: DataKind::Ascii,
        schema,
    };
    let mut w = init.build_dyn().expect("builds");
    let wrong = pcd_rs::DynRecord(vec![Field::I8(vec![1])]);
    assert_eq!(w.push(&wrong), Err(Error::WriteShape));
    let unfinished = w.finish();
    assert_eq!(unfinished, Err(Error::Meta));
}

#[test]
fn serialize_trait_produces_matching_record() {
    let p = PointXyzRgb { x: 1, y: 2, z: 3, rgb: 4 };
    let rec = p.to_record();
    assert_eq!(rec.0.len(), 4);
    assert_eq!(rec.0[0], Field::F32(vec![1]));
    assert_eq!(rec.0[3], Field::F32(vec![4]));
}
