use nbt::blob::NbtBlob;
use nbt::error::NbtError;
use nbt::value::NbtValue;

#[test]
fn nbt_nonempty() {
    let mut nbt = NbtBlob::new("".to_string());
    nbt.insert("name".to_string(), NbtValue::String("Herobrine".to_string()));
    nbt.insert("health".to_string(), NbtValue::Byte(100));
    nbt.insert("food".to_string(), NbtValue::Float((20.0f32).to_bits()));
    nbt.insert("emeralds".to_string(), NbtValue::Short(12345));
    nbt.insert("timestamp".to_string(), NbtValue::Int(1424778774));

    let bytes = vec![
        0x0a, 0x00, 0x00, 0x08, 0x00, 0x04, 0x6e, 0x61, 0x6d, 0x65, 0x00, 0x09, 0x48, 0x65, 0x72,
        0x6f, 0x62, 0x72, 0x69, 0x6e, 0x65, 0x01, 0x00, 0x06, 0x68, 0x65, 0x61, 0x6c, 0x74, 0x68,
        0x64, 0x05, 0x00, 0x04, 0x66, 0x6f, 0x6f, 0x64, 0x41, 0xa0, 0x00, 0x00, 0x02, 0x00, 0x08,
        0x65, 0x6d, 0x65, 0x72, 0x61, 0x6c, 0x64, 0x73, 0x30, 0x39, 0x03, 0x00, 0x09, 0x74, 0x69,
        0x6d, 0x65, 0x73, 0x74, 0x61, 0x6d, 0x70, 0x54, 0xec, 0x66, 0x16, 0x00,
    ];

    // Test correct length.
    assert_eq!(bytes.len(), nbt.len());

    // Test decoding.
    let file = NbtBlob::proto_decode(&bytes).unwrap();
    assert_eq!(&file, &nbt);
}

#[test]
fn nbt_empty_nbtfile() {
    let nbt = NbtBlob::new("".to_string());

    let bytes = vec![0x0a, 0x00, 0x00, 0x00];

    // Test correct length.
    assert_eq!(bytes.len(), nbt.len());

    // Test encoding.
    let mut dst = Vec::new();
    NbtBlob::proto_encode(&nbt, &mut dst).unwrap();
    assert_eq!(&dst, &bytes);

    // Test decoding.
    let file = NbtBlob::proto_decode(&bytes).unwrap();
    assert_eq!(&file, &nbt);
}

#[test]
fn nbt_nested_compound() {
    let inner = vec![("test".to_string(), NbtValue::Byte(123))];
    let mut nbt = NbtBlob::new("".to_string());
    nbt.insert("inner".to_string(), NbtValue::Compound(inner));

    let bytes = vec![
        0x0a, 0x00, 0x00, 0x0a, 0x00, 0x05, 0x69, 0x6e, 0x6e, 0x65, 0x72, 0x01, 0x00, 0x04, 0x74,
        0x65, 0x73, 0x74, 0x7b, 0x00, 0x00,
    ];

    // Test correct length.
    assert_eq!(bytes.len(), nbt.len());

    // Test encoding.
    let mut dst = Vec::new();
    NbtBlob::proto_encode(&nbt, &mut dst).unwrap();
    assert_eq!(&dst, &bytes);

    // Test decoding.
    let file = NbtBlob::proto_decode(&bytes).unwrap();
    assert_eq!(&file, &nbt);
}

#[test]
fn nbt_empty_list() {
    let mut nbt = NbtBlob::new("".to_string());
    nbt.insert("list".to_string(), NbtValue::List(Vec::new()));

    let bytes = vec![
        0x0a, 0x00, 0x00, 0x09, 0x00, 0x04, 0x6c, 0x69, 0x73, 0x74, 0x01, 0x00, 0x00, 0x00, 0x00,
        0x00,
    ];

    // Test correct length.
    assert_eq!(bytes.len(), nbt.len());

    // Test encoding.
    let mut dst = Vec::new();
    NbtBlob::proto_encode(&nbt, &mut dst).unwrap();
    assert_eq!(&dst, &bytes);

    // Test decoding.
    let file = NbtBlob::proto_decode(&bytes).unwrap();
    assert_eq!(&file, &nbt);
}

#[test]
fn nbt_no_root() {
    let bytes = vec![0x00];
    // Will fail, because the root is not a compound.
    assert!(NbtBlob::from_reader(&bytes).is_err());
}

#[test]
fn nbt_invalid_list() {
    let mut nbt = NbtBlob::new("".to_string());
    let mut badlist = Vec::new();
    badlist.push(NbtValue::Byte(1));
    badlist.push(NbtValue::Short(1));
    // Will fail to insert, because the List is heterogeneous.
    assert!(nbt.insert("list".to_string(), NbtValue::List(badlist)).is_none());
}

#[test]
fn nbt_bad_compression() {
    // These aren't in the zlib or gzip format, so they'll fail.
    let bytes = vec![0x00, 0x00, 0x00, 0x00, 0x00, 0x00, 0x00, 0x00, 0x00];
    assert!(NbtBlob::from_gzip(&bytes).is_err());
    assert!(NbtBlob::from_zlib(&bytes).is_err());
}

#[test]
fn nbt_compression() {
    // Create a non-trivial NbtBlob.
    let mut nbt = NbtBlob::new("".to_string());
    nbt.insert("name".to_string(), NbtValue::String("Herobrine".to_string()));
    nbt.insert("health".to_string(), NbtValue::Byte(100));
    nbt.insert("food".to_string(), NbtValue::Float((20.0f32).to_bits()));
    nbt.insert("emeralds".to_string(), NbtValue::Short(12345));
    nbt.insert("timestamp".to_string(), NbtValue::Int(1424778774));

    // Test zlib encoding/decoding.
    let mut zlib_dst = Vec::new();
    nbt.write_zlib(&mut zlib_dst).unwrap();
    let zlib_file = NbtBlob::from_zlib(&zlib_dst).unwrap();
    assert_eq!(&nbt, &zlib_file);

    // Test gzip encoding/decoding.
    let mut gzip_dst = Vec::new();
    nbt.write_gzip(&mut gzip_dst).unwrap();
    let gz_file = NbtBlob::from_gzip(&gzip_dst).unwrap();
    assert_eq!(&nbt, &gz_file);
}

#[test]
fn nbt_reference_vector_length() {
    // The documented length formula: 3 header bytes, then per entry
    // 3 + name + payload, then the terminator - 72 bytes for this blob.
    let mut nbt = NbtBlob::new("".to_string());
    nbt.insert("name".to_string(), NbtValue::String("Herobrine".to_string()));
    nbt.insert("health".to_string(), NbtValue::Byte(100));
    nbt.insert("food".to_string(), NbtValue::Float((20.0f32).to_bits()));
    nbt.insert("emeralds".to_string(), NbtValue::Short(12345));
    nbt.insert("timestamp".to_string(), NbtValue::Int(1424778774));
    assert_eq!(nbt.len(), 72);

    // The blob decodes back from its own encoding.
    let mut dst = Vec::new();
    nbt.write(&mut dst).unwrap();
    assert_eq!(dst.len(), 72);
    let back = NbtBlob::from_reader(&dst).unwrap();
    assert_eq!(&back, &nbt);
}

#[test]
fn nbt_round_trip_all_kinds() {
    // One value of every tag id, nested lists and compounds included.
    let mut nbt = NbtBlob::new("level".to_string());
    nbt.insert("b".to_string(), NbtValue::Byte(-7));
    nbt.insert("s".to_string(), NbtValue::Short(-1234));
    nbt.insert("i".to_string(), NbtValue::Int(-100000));
    nbt.insert("l".to_string(), NbtValue::Long(-(1i64 << 40)));
    nbt.insert("f".to_string(), NbtValue::Float((3.5f32).to_bits()));
    nbt.insert("d".to_string(), NbtValue::Double((2.25f64).to_bits()));
    nbt.insert("ba".to_string(), NbtValue::ByteArray(vec![-1, 0, 1]));
    nbt.insert("str".to_string(), NbtValue::String("hēllo, wörld".to_string()));
    nbt.insert(
        "list".to_string(),
        NbtValue::List(vec![NbtValue::Short(3), NbtValue::Short(-9)]),
    );
    nbt.insert(
        "nested".to_string(),
        NbtValue::Compound(vec![(
            "inner".to_string(),
            NbtValue::List(vec![NbtValue::Compound(vec![])]),
        )]),
    );
    nbt.insert("ia".to_string(), NbtValue::IntArray(vec![-2, 123456789]));

    let mut dst = Vec::new();
    nbt.write(&mut dst).unwrap();
    assert_eq!(dst.len(), nbt.len());
    let back = NbtBlob::from_reader(&dst).unwrap();
    assert_eq!(&back, &nbt);
}

#[test]
fn nbt_value_len_matches_written_bytes() {
    // The per-value length oracle, on each variant.
    let values = vec![
        NbtValue::Byte(1),
        NbtValue::Short(2),
        NbtValue::Int(3),
        NbtValue::Long(4),
        NbtValue::Float((1.0f32).to_bits()),
        NbtValue::Double((1.0f64).to_bits()),
        NbtValue::ByteArray(vec![1, 2, 3]),
        NbtValue::String("abc".to_string()),
        NbtValue::List(vec![NbtValue::Byte(1), NbtValue::Byte(2)]),
        NbtValue::Compound(vec![("k".to_string(), NbtValue::Int(5))]),
        NbtValue::IntArray(vec![7, 8]),
    ];
    for v in &values {
        let mut dst = Vec::new();
        v.write(&mut dst).unwrap();
        assert_eq!(dst.len(), v.len());
    }
}

#[test]
fn nbt_insert_overwrites_and_reports_prior() {
    let mut nbt = NbtBlob::new("".to_string());
    assert!(nbt.insert("k".to_string(), NbtValue::Byte(1)).is_none());
    let prior = nbt.insert("k".to_string(), NbtValue::Byte(2));
    assert_eq!(prior, Some(NbtValue::Byte(1)));
    assert_eq!(nbt.index(&"k".to_string()), &NbtValue::Byte(2));
}

#[test]
fn nbt_rejected_insert_leaves_blob_unchanged() {
    let mut nbt = NbtBlob::new("".to_string());
    nbt.insert("keep".to_string(), NbtValue::Byte(9));
    let before_len = nbt.len();
    let bad = NbtValue::List(vec![NbtValue::Byte(1), NbtValue::Short(1)]);
    assert!(nbt.insert("list".to_string(), bad).is_none());
    assert_eq!(nbt.len(), before_len);
    assert_eq!(nbt.index(&"keep".to_string()), &NbtValue::Byte(9));
}

#[test]
fn nbt_no_root_is_format_violation() {
    // A lone terminator byte: the root is not a Compound, and the error
    // is a format violation, not an I/O failure.
    let bytes = vec![0x00];
    let err = NbtBlob::from_reader(&bytes).unwrap_err();
    assert_eq!(err, NbtError::NonCompoundRoot);
    assert!(err.is_format_violation());
}

#[test]
fn nbt_invalid_id_error() {
    // Root compound holding an entry with tag id 0x0c: unknown.
    let bytes = vec![0x0a, 0x00, 0x00, 0x0c, 0x00, 0x01, 0x78, 0x00];
    let err = NbtBlob::from_reader(&bytes).unwrap_err();
    assert_eq!(err, NbtError::InvalidId);
    assert!(err.is_format_violation());
}

#[test]
fn nbt_truncated_error() {
    // The document ends inside an Int payload.
    let bytes = vec![0x0a, 0x00, 0x00, 0x03, 0x00, 0x01, 0x78, 0x01, 0x02];
    let err = NbtBlob::from_reader(&bytes).unwrap_err();
    assert_eq!(err, NbtError::Truncated);
    assert!(!err.is_format_violation());
}

#[test]
fn nbt_invalid_utf8_error() {
    // An entry name of one byte 0xff: not UTF-8.
    let bytes = vec![0x0a, 0x00, 0x00, 0x01, 0x00, 0x01, 0xff, 0x07, 0x00];
    let err = NbtBlob::from_reader(&bytes).unwrap_err();
    assert_eq!(err, NbtError::InvalidUtf8);
    assert!(err.is_format_violation());
}

#[test]
fn nbt_write_heterogeneous_list_fails() {
    let bad = NbtValue::List(vec![NbtValue::Byte(1), NbtValue::Short(1)]);
    let mut dst = Vec::new();
    assert_eq!(bad.write(&mut dst), Err(NbtError::HeterogeneousList));
}

#[test]
fn nbt_non_ascii_string_payload() {
    // Multi-byte UTF-8 must survive the byte-level round trip, and the
    // String length field counts bytes, not characters.
    let mut nbt = NbtBlob::new("".to_string());
    nbt.insert("s".to_string(), NbtValue::String("ä☃".to_string()));
    // header: 1 + 2 + 0 bytes; entry: 1 + 2 + 1 + (2 + 5); terminator: 1.
    assert_eq!(nbt.len(), 15);
    let mut dst = Vec::new();
    nbt.write(&mut dst).unwrap();
    assert_eq!(dst.len(), 15);
    let back = NbtBlob::from_reader(&dst).unwrap();
    assert_eq!(&back, &nbt);
}

#[test]
fn nbt_error_messages() {
    assert_eq!(
        NbtError::HeterogeneousList.message(),
        "list values must be homogeneous"
    );
    assert_eq!(NbtError::NonCompoundRoot.message(), "root value must be a Compound");
}

#[test]
fn nbt_negative_byte_array_count() {
    // A ByteArray whose 4-byte count has its high bit set (negative as
    // a signed 32-bit value) never decodes; it fails as a truncation.
    let bytes = vec![
        0x0a, 0x00, 0x00, 0x07, 0x00, 0x01, 0x62, 0xff, 0xff, 0xff, 0xff, 0x01, 0x02, 0x00,
    ];
    assert_eq!(NbtBlob::from_reader(&bytes).unwrap_err(), NbtError::Truncated);
}

#[test]
fn nbt_negative_list_count() {
    // Same for a List count.
    let bytes = vec![
        0x0a, 0x00, 0x00, 0x09, 0x00, 0x01, 0x6c, 0x01, 0x80, 0x00, 0x00, 0x00, 0x01, 0x00,
    ];
    assert_eq!(NbtBlob::from_reader(&bytes).unwrap_err(), NbtError::Truncated);
}

#[test]
fn nbt_negative_int_array_count() {
    // Same for an IntArray count.
    let bytes = vec![
        0x0a, 0x00, 0x00, 0x0b, 0x00, 0x01, 0x69, 0x80, 0x00, 0x00, 0x01, 0x00,
    ];
    assert_eq!(NbtBlob::from_reader(&bytes).unwrap_err(), NbtError::Truncated);
}
