use pcd_rs::{
    DataKind, DynReader, DynRecord, Error, Field, HeaderFault, PcdDeserialize, PointXyzRgb,
    Reader, ValueKind,
};

fn ascii_file(header_tail: &str, data: &str) -> Vec<u8> {
    let mut s = String::new();
    s.push_str(header_tail);
    s.push_str(data);
    s.into_bytes()
}

const XYZRGB_HEADER: &str = "VERSION .7\nFIELDS x y z rgb\nSIZE 4 4 4 4\nTYPE F F F F\nCOUNT 1 1 1 1\nWIDTH 1\nHEIGHT 1\nVIEWPOINT 0 0 0 1 0 0 0\nPOINTS 1\nDATA ascii\n";

#[test]
fn concrete_ascii_scenario() {
    let bytes = ascii_file(XYZRGB_HEADER, "0.0 0.0 0.0 4.2e+06\n");
    let mut r = DynReader::new(bytes).expect("header parses");
    let meta = r.meta().clone();
    assert_eq!(meta.version, b".7".to_vec());
    assert_eq!(meta.width, 1);
    assert_eq!(meta.height, 1);
    assert_eq!(meta.num_points, 1);
    assert_eq!(meta.data, DataKind::Ascii);
    assert_eq!(meta.field_defs.fields.len(), 4);
    assert_eq!(meta.field_defs.fields[3].name, b"rgb".to_vec());
    assert_eq!(meta.field_defs.fields[3].kind, ValueKind::F32);
    assert_eq!(meta.viewpoint.tx, 0.0f64.to_bits());
    assert_eq!(meta.viewpoint.qw, 1.0f64.to_bits());
    let rec = r.next().expect("one point").expect("decodes");
    let want = DynRecord(vec![
        Field::F32(vec![0.0f32.to_bits()]),
        Field::F32(vec![0.0f32.to_bits()]),
        Field::F32(vec![0.0f32.to_bits()]),
        Field::F32(vec![4.2e6f32.to_bits()]),
    ]);
    assert_eq!(rec, want);
    assert!(r.next().is_none());
}

#[test]
fn header_arity_mismatch_rejected() {
    // FIELDS lists 4 names but TYPE lists 3 codes
    let bytes = ascii_file(
        "VERSION .7\nFIELDS x y z rgb\nSIZE 4 4 4 4\nTYPE F F F\nCOUNT 1 1 1 1\nWIDTH 1\nHEIGHT 1\nVIEWPOINT 0 0 0 1 0 0 0\nPOINTS 1\nDATA ascii\n",
        "0 0 0 0\n",
    );
    let err = DynReader::new(bytes).err().expect("parse fails");
    assert_eq!(err, Error::HeaderFormat { line: 4, fault: HeaderFault::Arity });
}

#[test]
fn header_key_out_of_order_rejected() {
    let bytes = ascii_file(
        "VERSION .7\nSIZE 4\nFIELDS x\nTYPE F\nWIDTH 1\nHEIGHT 1\nVIEWPOINT 0 0 0 1 0 0 0\nPOINTS 1\nDATA ascii\n",
        "0\n",
    );
    let err = DynReader::new(bytes).err().expect("parse fails");
    assert_eq!(err, Error::HeaderFormat { line: 2, fault: HeaderFault::Key });
}

#[test]
fn header_missing_line_rejected() {
    let bytes = b"VERSION .7\nFIELDS x\nSIZE 4\n".to_vec();
    let err = DynReader::new(bytes).err().expect("parse fails");
    assert_eq!(err, Error::HeaderFormat { line: 4, fault: HeaderFault::Missing });
}

#[test]
fn header_bad_type_code_rejected() {
    let bytes = ascii_file(
        "VERSION .7\nFIELDS x\nSIZE 4\nTYPE Q\nWIDTH 1\nHEIGHT 1\nVIEWPOINT 0 0 0 1 0 0 0\nPOINTS 1\nDATA ascii\n",
        "0\n",
    );
    let err = DynReader::new(bytes).err().expect("parse fails");
    assert_eq!(err, Error::HeaderFormat { line: 4, fault: HeaderFault::Type });
}

#[test]
fn header_unsupported_size_rejected() {
    let bytes = ascii_file(
        "VERSION .7\nFIELDS x\nSIZE 3\nTYPE F\nWIDTH 1\nHEIGHT 1\nVIEWPOINT 0 0 0 1 0 0 0\nPOINTS 1\nDATA ascii\n",
        "0\n",
    );
    let err = DynReader::new(bytes).err().expect("parse fails");
    assert_eq!(err, Error::HeaderFormat { line: 4, fault: HeaderFault::Type });
}

#[test]
fn header_bad_number_rejected() {
    let bytes = ascii_file(
        "VERSION .7\nFIELDS x\nSIZE 4\nTYPE F\nWIDTH one\nHEIGHT 1\nVIEWPOINT 0 0 0 1 0 0 0\nPOINTS 1\nDATA ascii\n",
        "0\n",
    );
    let err = DynReader::new(bytes).err().expect("parse fails");
    assert_eq!(err, Error::HeaderFormat { line: 5, fault: HeaderFault::Number });
}

#[test]
fn header_bad_viewpoint_rejected() {
    let bytes = ascii_file(
        "VERSION .7\nFIELDS x\nSIZE 4\nTYPE F\nWIDTH 1\nHEIGHT 1\nVIEWPOINT 0 0 zero 1 0 0 0\nPOINTS 1\nDATA ascii\n",
        "0\n",
    );
    let err = DynReader::new(bytes).err().expect("parse fails");
    assert_eq!(err, Error::HeaderFormat { line: 7, fault: HeaderFault::Float });
}

#[test]
fn header_bad_data_kind_rejected() {
    let bytes = ascii_file(
        "VERSION .7\nFIELDS x\nSIZE 4\nTYPE F\nWIDTH 1\nHEIGHT 1\nVIEWPOINT 0 0 0 1 0 0 0\nPOINTS 1\nDATA base64\n",
        "0\n",
    );
    let err = DynReader::new(bytes).err().expect("parse fails");
    assert_eq!(err, Error::HeaderFormat { line: 9, fault: HeaderFault::Data });
}

#[test]
fn header_zero_count_rejected() {
    let bytes = ascii_file(
        "VERSION .7\nFIELDS x\nSIZE 4\nTYPE F\nCOUNT 0\nWIDTH 1\nHEIGHT 1\nVIEWPOINT 0 0 0 1 0 0 0\nPOINTS 1\nDATA ascii\n",
        "0\n",
    );
    let err = DynReader::new(bytes).err().expect("parse fails");
    assert_eq!(err, Error::HeaderFormat { line: 5, fault: HeaderFault::Layout });
}

#[test]
fn header_count_defaults_to_one() {
    let bytes = ascii_file(
        "VERSION .7\nFIELDS x y\nSIZE 4 2\nTYPE F U\nWIDTH 1\nHEIGHT 1\nVIEWPOINT 0 0 0 1 0 0 0\nPOINTS 1\nDATA ascii\n",
        "1.5 9\n",
    );
    let mut r = DynReader::new(bytes).expect("header parses");
    let meta = r.meta().clone();
    assert_eq!(meta.field_defs.fields[0].count, 1);
    assert_eq!(meta.field_defs.fields[1].count, 1);
    let rec = r.next().unwrap().unwrap();
    assert_eq!(
        rec,
        DynRecord(vec![Field::F32(vec![1.5f32.to_bits()]), Field::U16(vec![9])]),
    );
}

#[test]
fn ascii_token_count_mismatch() {
    let bytes = ascii_file(XYZRGB_HEADER, "0.0 0.0 0.0\n");
    let mut r = DynReader::new(bytes).expect("header parses");
    let got = r.next().expect("one item");
    assert_eq!(got, Err(Error::AsciiShape { point: 0 }));
}

#[test]
fn ascii_bad_token() {
    let bytes = ascii_file(XYZRGB_HEADER, "0.0 zebra 0.0 1.0\n");
    let mut r = DynReader::new(bytes).expect("header parses");
    let got = r.next().expect("one item");
    assert_eq!(got, Err(Error::BadToken { point: 0, slot: 1 }));
}

#[test]
fn ascii_fault_consumes_the_line() {
    // line boundaries are recoverable: after a fault the next call reads
    // the following line
    let header = "VERSION .7\nFIELDS x y z rgb\nSIZE 4 4 4 4\nTYPE F F F F\nCOUNT 1 1 1 1\nWIDTH 2\nHEIGHT 1\nVIEWPOINT 0 0 0 1 0 0 0\nPOINTS 2\nDATA ascii\n";
    let bytes = ascii_file(header, "0.0 zebra 0.0 1.0\n1.0 2.0 3.0 4.0\n");
    let mut r = DynReader::new(bytes).expect("header parses");
    let first = r.next().expect("one item");
    assert_eq!(first, Err(Error::BadToken { point: 0, slot: 1 }));
    let second = r.next().expect("another item").expect("good line decodes");
    let want = DynRecord(vec![
        Field::F32(vec![1.0f32.to_bits()]),
        Field::F32(vec![2.0f32.to_bits()]),
        Field::F32(vec![3.0f32.to_bits()]),
        Field::F32(vec![4.0f32.to_bits()]),
    ]);
    assert_eq!(second, want);
}

#[test]
fn ascii_missing_line_is_truncation() {
    let bytes = ascii_file(XYZRGB_HEADER, "");
    let mut r = DynReader::new(bytes).expect("header parses");
    let got = r.next().expect("one item");
    assert_eq!(got, Err(Error::Truncation { point: 0 }));
}

#[test]
fn ascii_integer_range_is_checked() {
    let bytes = ascii_file(
        "VERSION .7\nFIELDS v\nSIZE 1\nTYPE I\nWIDTH 1\nHEIGHT 1\nVIEWPOINT 0 0 0 1 0 0 0\nPOINTS 1\nDATA ascii\n",
        "128\n",
    );
    let mut r = DynReader::new(bytes).expect("header parses");
    let got = r.next().expect("one item");
    assert_eq!(got, Err(Error::BadToken { point: 0, slot: 0 }));
}

#[test]
fn ascii_special_float_tokens() {
    let bytes = ascii_file(XYZRGB_HEADER, "nan inf -Inf -0.0\n");
    let mut r = DynReader::new(bytes).expect("header parses");
    let rec = r.next().unwrap().expect("decodes");
    match &rec.0[0] {
        Field::F32(v) => assert!(f32::from_bits(v[0]).is_nan()),
        _ => panic!("wrong field kind"),
    }
    match &rec.0[1] {
        Field::F32(v) => assert_eq!(f32::from_bits(v[0]), f32::INFINITY),
        _ => panic!("wrong field kind"),
    }
    match &rec.0[2] {
        Field::F32(v) => assert_eq!(f32::from_bits(v[0]), f32::NEG_INFINITY),
        _ => panic!("wrong field kind"),
    }
    match &rec.0[3] {
        Field::F32(v) => assert_eq!(v[0], (-0.0f32).to_bits()),
        _ => panic!("wrong field kind"),
    }
}

#[test]
fn ascii_float_token_really_parses() {
    // a decoder that handed the token's bytes back unchanged would fail here
    let bytes = ascii_file(XYZRGB_HEADER, "1.5 -2.5 0.0625 1e3\n");
    let mut r = DynReader::new(bytes).expect("header parses");
    let rec = r.next().unwrap().expect("decodes");
    let want = DynRecord(vec![
        Field::F32(vec![1.5f32.to_bits()]),
        Field::F32(vec![(-2.5f32).to_bits()]),
        Field::F32(vec![0.0625f32.to_bits()]),
        Field::F32(vec![1000.0f32.to_bits()]),
    ]);
    assert_eq!(rec, want);
}

#[test]
fn static_and_dynamic_paths_agree() {
    let data = "0.25 -8.5 3.25 7.0\n";
    let bytes_a = ascii_file(XYZRGB_HEADER, data);
    let bytes_b = ascii_file(XYZRGB_HEADER, data);
    let mut dynr = DynReader::new(bytes_a).expect("header parses");
    let mut statr: Reader<PointXyzRgb> = Reader::new(bytes_b).expect("binds");
    let d = dynr.next().unwrap().expect("dynamic decodes");
    let s = statr.next().unwrap().expect("static decodes");
    let want = PointXyzRgb {
        x: 0.25f32.to_bits(),
        y: (-8.5f32).to_bits(),
        z: 3.25f32.to_bits(),
        rgb: 7.0f32.to_bits(),
    };
    assert_eq!(s, want);
    let d_bits: Vec<u32> = d
        .0
        .iter()
        .map(|f| match f {
            Field::F32(v) => v[0],
            _ => panic!("wrong field kind"),
        })
        .collect();
    assert_eq!(d_bits, vec![s.x, s.y, s.z, s.rgb]);
}

#[test]
fn binding_checks_field_names() {
    // four F32 fields of the right shape, but wrongly named
    let bytes = ascii_file(
        "VERSION .7\nFIELDS a b c d\nSIZE 4 4 4 4\nTYPE F F F F\nWIDTH 1\nHEIGHT 1\nVIEWPOINT 0 0 0 1 0 0 0\nPOINTS 1\nDATA ascii\n",
        "0 0 0 0\n",
    );
    let got: Result<Reader<PointXyzRgb>, Error> = Reader::new(bytes);
    assert_eq!(got.err(), Some(Error::Binding));
}

#[test]
fn binding_mismatch_rejected_at_open() {
    let bytes = ascii_file(
        "VERSION .7\nFIELDS x y\nSIZE 4 4\nTYPE F F\nWIDTH 1\nHEIGHT 1\nVIEWPOINT 0 0 0 1 0 0 0\nPOINTS 1\nDATA ascii\n",
        "0 0\n",
    );
    let got: Result<Reader<PointXyzRgb>, Error> = Reader::new(bytes);
    assert_eq!(got.err(), Some(Error::Binding));
}
