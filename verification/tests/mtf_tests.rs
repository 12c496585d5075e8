use packed_data::mtf::{
    build_string_table, read_mtf, read_string, write_mtf, FieldDef, MTFError, TypeDef,
};
use packed_data::mtf_api::dynamic::is_byte_field;
use packed_data::mtf_api::{write_slice_with_mtf, DynamicContainer, FieldHandle};

fn create_test_blob() -> Vec<u8> {
    let mut blob = Vec::new();
    blob.extend_from_slice(b"MTF\0");
    blob.extend_from_slice(&1u32.to_le_bytes());
    blob.extend_from_slice(&1u32.to_le_bytes());
    blob.extend_from_slice(&0u32.to_le_bytes());
    blob.extend_from_slice(&64u32.to_le_bytes());
    blob.extend_from_slice(&2u32.to_le_bytes());

    blob.extend_from_slice(&5u32.to_le_bytes());
    blob.extend_from_slice(&0u32.to_le_bytes());
    blob.extend_from_slice(&32u32.to_le_bytes());

    blob.extend_from_slice(&7u32.to_le_bytes());
    blob.extend_from_slice(&32u32.to_le_bytes());
    blob.extend_from_slice(&32u32.to_le_bytes());

    blob.extend_from_slice(&9u32.to_le_bytes());

    blob.extend_from_slice(b"Test\0x\0y\0");

    blob
}

#[test]
fn test_dynamic_container_creation() {
    let data = vec![1u8, 2, 3, 4, 5, 6, 7, 8];
    let blob = create_test_blob();

    let container = DynamicContainer::from_raw(data, &blob).unwrap();
    assert_eq!(container.len(), 1);
    assert_eq!(container.name_of_type().unwrap(), "Test");
}

#[test]
fn test_field_access() {
    let data = vec![0x01, 0x02, 0x03, 0x04, 0x05, 0x06, 0x07, 0x08];
    let blob = create_test_blob();

    let mut container = DynamicContainer::from_raw(data, &blob).unwrap();

    let x = container.field(0, "x", 4, 4).unwrap();
    assert_eq!(u32::from_le_bytes([x[0], x[1], x[2], x[3]]), 0x04030201);

    container.field_mut(0, "y", 4, 4).set(&0xDEADBEEF_u32.to_le_bytes());

    let y = container.field(0, "y", 4, 4).unwrap();
    assert_eq!(u32::from_le_bytes([y[0], y[1], y[2], y[3]]), 0xDEADBEEF);
}

#[test]
fn writing_one_field_leaves_the_others() {
    let data: Vec<u8> = (1..=16).collect();
    let blob = create_test_blob();
    let mut container = DynamicContainer::from_raw(data, &blob).unwrap();
    assert_eq!(container.len(), 2);

    container.field_mut(0, "y", 4, 4).set(&[0xAA, 0xBB, 0xCC, 0xDD]);

    assert_eq!(container.field(0, "x", 4, 4).unwrap(), &[1, 2, 3, 4]);
    assert_eq!(container.field(0, "y", 4, 4).unwrap(), &[0xAA, 0xBB, 0xCC, 0xDD]);
    assert_eq!(container.field(1, "x", 4, 4).unwrap(), &[9, 10, 11, 12]);
    assert_eq!(container.field(1, "y", 4, 4).unwrap(), &[13, 14, 15, 16]);
    assert_eq!(
        container.raw(),
        &[1, 2, 3, 4, 0xAA, 0xBB, 0xCC, 0xDD, 9, 10, 11, 12, 13, 14, 15, 16]
    );
}

#[test]
fn lookups_that_do_not_match_give_nothing() {
    let data: Vec<u8> = (1..=12).collect();
    let blob = create_test_blob();
    let mut container = DynamicContainer::from_raw(data.clone(), &blob).unwrap();
    // one whole struct, and four bytes that do not count
    assert_eq!(container.len(), 1);
    assert!(!container.is_empty());
    assert!(container.field(1, "x", 4, 4).is_none());
    assert!(container.field(0, "z", 4, 4).is_none());
    assert!(container.field(0, "x", 2, 2).is_none());
    assert!(container.field(0, "x", 8, 8).is_none());
    // y lies at byte 4, which is no multiple of 8
    assert!(container.field(0, "y", 4, 8).is_none());
    assert!(container.field(0, "y", 4, 1).is_some());

    let mut handle = container.field_mut(3, "x", 4, 4);
    assert!(!handle.is_some());
    assert!(handle.get().is_none());
    handle.set(&[0, 0, 0, 0]);
    let mut handle = container.field_mut(0, "x", 4, 4);
    assert!(handle.is_some());
    assert_eq!(handle.get().unwrap(), &[1, 2, 3, 4]);
    // a value of another length is not written
    handle.set(&[9, 9]);
    assert_eq!(container.raw(), &data[..]);
    assert!(!FieldHandle::none().is_some());
}

#[test]
fn handles_chain_and_apply() {
    let data: Vec<u8> = (1..=8).collect();
    let blob = create_test_blob();
    let mut container = DynamicContainer::from_raw(data, &blob).unwrap();
    container.field_mut(0, "x", 4, 4).set(&[0, 0, 0, 0]).set(&[5, 6, 7, 8]).apply(|mut bytes| {
        bytes.reverse();
        bytes
    });
    assert_eq!(container.raw(), &[8, 7, 6, 5, 5, 6, 7, 8]);
    // a result of another length is not written, and nothing is called for nothing
    container.field_mut(0, "y", 4, 4).apply(|_| vec![1]);
    container.field_mut(9, "y", 4, 4).apply(|_| unreachable!());
    assert_eq!(container.raw(), &[8, 7, 6, 5, 5, 6, 7, 8]);
    let mut handle = container.field_mut(0, "y", 4, 4);
    handle.get_mut().unwrap()[3] = 0;
    assert_eq!(handle.get().unwrap(), &[5, 6, 7, 0]);
    assert!(FieldHandle::none().get_mut().is_none());
    assert_eq!(container.raw(), &[8, 7, 6, 5, 5, 6, 7, 0]);
}

#[test]
fn format_error_texts() {
    assert_eq!(MTFError::InvalidMagic.to_string(), "Invalid magic bytes (expected MTF\\0)");
    assert_eq!(MTFError::UnsupportedVersion(2).to_string(), "Unsupported version: 2");
    assert_eq!(MTFError::UnexpectedEof.to_string(), "Unexpected end of data");
    assert_eq!(MTFError::InvalidUtf8.to_string(), "Invalid UTF-8 in string table");
    assert_eq!(
        MTFError::InvalidStringOffset(4000000000).to_string(),
        "String offset 4000000000 out of bounds"
    );
    let io_err = std::io::Error::new(std::io::ErrorKind::Other, "disk on fire");
    assert_eq!(MTFError::from(io_err).to_string(), "IO error: disk on fire");
}

#[test]
fn names_and_indices() {
    let blob = create_test_blob();
    let mut container = DynamicContainer::from_raw(vec![0u8; 24], &blob).unwrap();
    assert_eq!(container.field_names(), vec!["x".to_string(), "y".to_string()]);
    let mut it = container.iter();
    assert_eq!(it.size_hint(), (3, Some(3)));
    assert_eq!(it.next(), Some(0));
    assert_eq!(it.next(), Some(1));
    assert_eq!(it.next(), Some(2));
    assert_eq!(it.next(), None);
    container.raw_mut()[23] = 5;
    assert_eq!(container.field(2, "y", 4, 4).unwrap(), &[0, 0, 0, 5]);
}

#[test]
fn a_type_of_size_zero_has_no_structs() {
    let mut blob = Vec::new();
    write_mtf(
        &[TypeDef { name_offset: 0, size_bits: 0, fields: vec![] }],
        b"Empty\0",
        &mut blob,
    )
    .unwrap();
    let container = DynamicContainer::from_raw(vec![1, 2, 3], &blob).unwrap();
    assert_eq!(container.len(), 0);
    assert!(container.is_empty());
    assert_eq!(container.name_of_type().unwrap(), "Empty");
}

#[test]
fn construction_fails_on_what_the_blob_lacks() {
    let mut blob = Vec::new();
    write_mtf(&[], b"", &mut blob).unwrap();
    assert!(matches!(
        DynamicContainer::from_raw(vec![], &blob),
        Err(MTFError::UnexpectedEof)
    ));

    let field = FieldDef { name_offset: 9, offset_bits: 0, size_bits: 8 };
    let mut blob = Vec::new();
    write_mtf(
        &[TypeDef { name_offset: 0, size_bits: 8, fields: vec![field] }],
        b"T\0",
        &mut blob,
    )
    .unwrap();
    assert!(matches!(
        DynamicContainer::from_raw(vec![], &blob),
        Err(MTFError::InvalidStringOffset(9))
    ));
    assert!(matches!(
        DynamicContainer::from_raw(vec![], b"MTF"),
        Err(MTFError::UnexpectedEof)
    ));
}

#[test]
fn a_file_ends_with_the_blob_and_its_size() {
    let blob = create_test_blob();
    let mut file: Vec<u8> = (1..=8).collect();
    file.extend_from_slice(&blob);
    file.extend_from_slice(&(blob.len() as u32).to_le_bytes());
    let container = DynamicContainer::from_file(&file).unwrap();
    assert_eq!(container.len(), 1);
    assert_eq!(container.raw(), &[1, 2, 3, 4, 5, 6, 7, 8]);

    assert!(matches!(DynamicContainer::from_file(&[1, 2, 3]), Err(MTFError::UnexpectedEof)));
    assert!(matches!(
        DynamicContainer::from_file(&[0, 0, 0, 9, 0, 0, 0]),
        Err(MTFError::UnexpectedEof)
    ));
}

#[test]
fn structs_then_size_then_blob() {
    let mut out = vec![0xEE];
    write_slice_with_mtf(&mut out, &[1, 2, 3], &[7, 7]).unwrap();
    assert_eq!(out, vec![0xEE, 1, 2, 3, 2, 0, 0, 0, 7, 7]);
}

fn sample_types() -> Vec<TypeDef> {
    vec![
        TypeDef {
            name_offset: 0,
            size_bits: 64,
            fields: vec![
                FieldDef { name_offset: 5, offset_bits: 0, size_bits: 32 },
                FieldDef { name_offset: 7, offset_bits: 32, size_bits: 32 },
            ],
        },
        TypeDef { name_offset: 9, size_bits: 3, fields: vec![] },
        TypeDef {
            name_offset: 0xFFFF_FFFF,
            size_bits: 0xFFFF_FFFF,
            fields: vec![FieldDef { name_offset: 1, offset_bits: 2, size_bits: 3 }],
        },
    ]
}

#[test]
fn blob_round_trip() {
    let types = sample_types();
    let strings = b"Test\0x\0y\0Tiny\0";
    let mut blob = vec![];
    write_mtf(&types, strings, &mut blob).unwrap();
    // followed by bytes that do not belong to the blob
    blob.extend_from_slice(&[1, 2, 3]);
    let (got, table) = read_mtf(&blob).unwrap();
    assert_eq!(got, types);
    assert_eq!(table, strings);
}

#[test]
fn blob_round_trip_of_nothing() {
    let mut blob = vec![];
    write_mtf(&[], &[], &mut blob).unwrap();
    assert_eq!(blob, vec![b'M', b'T', b'F', 0, 1, 0, 0, 0, 0, 0, 0, 0, 0, 0, 0, 0]);
    let (types, strings) = read_mtf(&blob).unwrap();
    assert!(types.is_empty());
    assert!(strings.is_empty());
}

#[test]
fn blob_layout_is_exact() {
    assert_eq!(create_test_blob(), {
        let mut blob = vec![];
        write_mtf(&sample_types()[..1], b"Test\0x\0y\0", &mut blob).unwrap();
        blob
    });
}

#[test]
fn read_refuses_what_is_wrong() {
    assert!(matches!(read_mtf(&[]), Err(MTFError::UnexpectedEof)));
    assert!(matches!(read_mtf(b"MTF\0\x01\0\0\0\0\0\0"), Err(MTFError::UnexpectedEof)));
    assert!(matches!(read_mtf(b"MTG\0\x01\0\0\0\0\0\0\0"), Err(MTFError::InvalidMagic)));
    assert!(matches!(
        read_mtf(b"MTF\0\x02\0\0\0\0\0\0\0\0\0\0\0"),
        Err(MTFError::UnsupportedVersion(2))
    ));
    // no room for the length of the string table
    assert!(matches!(read_mtf(b"MTF\0\x01\0\0\0\0\0\0\0\0\0"), Err(MTFError::UnexpectedEof)));
    // a string table that is shorter than it says
    assert!(matches!(
        read_mtf(b"MTF\0\x01\0\0\0\0\0\0\0\x02\0\0\0a"),
        Err(MTFError::UnexpectedEof)
    ));
    let blob = create_test_blob();
    for cut in 12..blob.len() {
        assert!(matches!(read_mtf(&blob[..cut]), Err(MTFError::UnexpectedEof)), "cut at {}", cut);
    }
    assert!(read_mtf(&blob).is_ok());
}

#[test]
fn names_from_the_string_table() {
    let table = b"Test\0x\0\xFF\0tail";
    assert_eq!(read_string(table, 0).unwrap(), "Test");
    assert_eq!(read_string(table, 2).unwrap(), "st");
    assert_eq!(read_string(table, 4).unwrap(), "");
    assert_eq!(read_string(table, 5).unwrap(), "x");
    assert!(matches!(read_string(table, 7), Err(MTFError::InvalidUtf8)));
    assert!(matches!(read_string(table, 9), Err(MTFError::UnexpectedEof)));
    assert!(matches!(read_string(table, 13), Err(MTFError::InvalidStringOffset(13))));
    assert!(matches!(read_string(b"", 0), Err(MTFError::InvalidStringOffset(0))));
    assert_eq!(read_string("gr\u{fc}n\0".as_bytes(), 0).unwrap(), "gr\u{fc}n");
}

#[test]
fn string_table_and_offsets() {
    let (table, offsets) = build_string_table(&["Test", "x", "y", "x"]);
    assert_eq!(table, b"Test\0x\0y\0x\0");
    assert_eq!(offsets.len(), 3);
    assert_eq!(offsets.get("Test"), Some(0));
    assert_eq!(offsets.get("y"), Some(7));
    // the later of two equal names stays
    assert_eq!(offsets.get("x"), Some(9));
    assert_eq!(offsets.get("z"), None);
    assert_eq!(offsets.keys(), vec!["Test".to_string(), "x".to_string(), "y".to_string()]);
    assert_eq!(read_string(&table, 7).unwrap(), "y");
}

fn container_of(size_bits: u32, fields: Vec<FieldDef>, data: Vec<u8>) -> DynamicContainer {
    let mut blob = Vec::new();
    write_mtf(&[TypeDef { name_offset: 0, size_bits, fields }], b"T\0a\0b\0", &mut blob).unwrap();
    DynamicContainer::from_raw(data, &blob).unwrap()
}

#[test]
fn a_field_outside_its_struct_gives_nothing() {
    // structs of 4 bytes; `a` ends 4 bytes past its struct, `b` starts past it
    let fields = vec![
        FieldDef { name_offset: 2, offset_bits: 0, size_bits: 64 },
        FieldDef { name_offset: 4, offset_bits: 32, size_bits: 32 },
    ];
    let data: Vec<u8> = (1..=16).collect();
    let mut container = container_of(32, fields, data.clone());
    assert_eq!(container.len(), 4);
    assert!(container.field(0, "a", 8, 1).is_none());
    assert!(container.field(0, "b", 4, 1).is_none());
    assert!(container.field(3, "a", 8, 1).is_none());

    let mut handle = container.field_mut(0, "a", 8, 1);
    assert!(!handle.is_some());
    handle.set(&[0; 8]);
    container.field_mut(0, "b", 4, 1).set(&[0; 4]);
    assert_eq!(container.raw(), &data[..]);
}

#[test]
fn a_field_that_ends_with_its_struct_is_found() {
    let fields = vec![
        FieldDef { name_offset: 2, offset_bits: 0, size_bits: 16 },
        FieldDef { name_offset: 4, offset_bits: 16, size_bits: 16 },
    ];
    let mut container = container_of(32, fields, (1..=8).collect());
    assert_eq!(container.field(1, "b", 2, 2).unwrap(), &[7, 8]);
    container.field_mut(1, "b", 2, 2).set(&[0xAA, 0xBB]);
    assert_eq!(container.raw(), &[1, 2, 3, 4, 5, 6, 0xAA, 0xBB]);
}

#[test]
fn a_field_of_loose_bits_gives_nothing() {
    // `a` starts in the middle of a byte, `b` takes no whole number of bytes
    let fields = vec![
        FieldDef { name_offset: 2, offset_bits: 4, size_bits: 8 },
        FieldDef { name_offset: 4, offset_bits: 16, size_bits: 12 },
    ];
    let data: Vec<u8> = (1..=8).collect();
    let mut container = container_of(32, fields, data.clone());
    assert_eq!(container.len(), 2);
    assert!(container.field(0, "a", 1, 1).is_none());
    assert!(container.field(0, "b", 2, 1).is_none());
    assert!(container.field(0, "b", 1, 1).is_none());
    assert!(!container.field_mut(0, "a", 1, 1).is_some());
    container.field_mut(0, "b", 2, 1).set(&[0, 0]);
    container.field_mut(1, "a", 1, 1).set(&[0]);
    assert_eq!(container.raw(), &data[..]);
}

#[test]
fn fields_of_whole_bytes_within_the_type() {
    let inside = FieldDef { name_offset: 0, offset_bits: 8, size_bits: 24 };
    assert!(is_byte_field(&inside, 32));
    assert!(!is_byte_field(&inside, 31));
    assert!(!is_byte_field(&FieldDef { name_offset: 0, offset_bits: 9, size_bits: 8 }, 32));
    assert!(!is_byte_field(&FieldDef { name_offset: 0, offset_bits: 8, size_bits: 7 }, 32));
    assert!(!is_byte_field(
        &FieldDef { name_offset: 0, offset_bits: 0xFFFF_FFF8, size_bits: 16 },
        0xFFFF_FFFF
    ));
    assert!(is_byte_field(&FieldDef { name_offset: 0, offset_bits: 0, size_bits: 0 }, 0));
}
