use packed_data::pak::builder::pack_asset;
use packed_data::pak::{
    hash_name, AssetEntry, AssetType, PakBuilder, PakError, PakHeader, PakReader, TocEntry,
    FLAG_COMPRESSED, HEADER_SIZE, MAX_NAME_LENGTH, PAK_MAGIC, PAK_VERSION, TOC_ENTRY_SIZE,
};
use packed_data::raw_bytes::RawBytesContainer;
use std::io;

#[test]
fn test_asset_entry_new() {
    let entry = AssetEntry::new("test.png", vec![1, 2, 3, 4], AssetType::Texture);
    assert_eq!(entry.name, "test.png");
    assert_eq!(entry.size(), 4);
}

#[test]
fn test_builder_new() {
    let builder = PakBuilder::new();
    assert_eq!(builder.asset_count(), 0);
    assert_eq!(builder.level(), 3);
    assert_eq!(builder.threshold(), 512);
}

#[test]
fn test_builder_settings() {
    let mut builder = PakBuilder::new();
    builder.compression_level(10).compress_threshold(1024);

    assert_eq!(builder.level(), 10);
    assert_eq!(builder.threshold(), 1024);
}

#[test]
fn test_add_asset() {
    let mut builder = PakBuilder::new();
    builder.add_asset(AssetEntry::new("test.txt", b"Hello".to_vec(), AssetType::Data));

    assert_eq!(builder.asset_count(), 1);
    assert_eq!(builder.asset(0).unwrap().name, "test.txt");
}

#[test]
fn test_build() {
    let mut builder = PakBuilder::new();

    builder.add_asset(AssetEntry::new("test.txt", b"Hello, PAK!".to_vec(), AssetType::Data));

    builder.add_asset(AssetEntry::new("data.bin", vec![1, 2, 3, 4, 5], AssetType::Data));

    let bytes = builder.build().unwrap();

    assert!(bytes.len() as u64 > HEADER_SIZE as u64);
}

#[test]
fn test_constants() {
    assert_eq!(&PAK_MAGIC, b"PAK\0");
    assert_eq!(PAK_VERSION, 1);
    assert_eq!(HEADER_SIZE, 32);
    assert_eq!(TOC_ENTRY_SIZE, 48);
}

#[test]
fn test_error_display() {
    let err = PakError::InvalidMagic;
    assert_eq!(err.to_string(), "Invalid magic bytes (expected 'PAK\\0')");

    let err = PakError::UnsupportedVersion(99);
    assert_eq!(err.to_string(), "Unsupported PAK version: 99");

    let err = PakError::AssetNotFound("test.png".to_string());
    assert_eq!(err.to_string(), "Asset not found: test.png");
}

#[test]
fn test_io_error_conversion() {
    let io_err = io::Error::new(io::ErrorKind::NotFound, "file not found");
    let pak_err: PakError = io_err.into();

    assert!(matches!(pak_err, PakError::Io(_)));
}

#[test]
fn test_hash_name() {
    let hash1 = hash_name("test.png");
    let hash2 = hash_name("test.png");
    let hash3 = hash_name("other.png");

    assert_eq!(hash1, hash2);
    assert_ne!(hash1, hash3);
}

#[test]
fn test_header_size() {
    assert_eq!(std::mem::size_of::<PakHeader>(), HEADER_SIZE);
}

#[test]
fn test_header_new() {
    let header = PakHeader::new(10, 1024, 32);
    assert_eq!(header.magic, PAK_MAGIC);

    let version = header.version;
    let entry_count = header.entry_count;

    assert_eq!(version, PAK_VERSION);
    assert_eq!(entry_count, 10);
}

#[test]
fn test_toc_entry_size() {
    assert_eq!(std::mem::size_of::<TocEntry>(), TOC_ENTRY_SIZE);
}

#[test]
fn test_toc_entry_new() {
    let entry = TocEntry::new("test.png", 1024, 2048, AssetType::Texture);

    let offset = entry.offset;
    let size = entry.size;

    assert_eq!(offset, 1024);
    assert_eq!(size, 2048);
    assert!(!entry.is_compressed());
}

#[test]
fn test_imports() {
    let _: Option<PakError> = None;
    let _: Option<PakHeader> = None;
    let _: Option<TocEntry> = None;
    let _: Option<AssetType> = None;
    let _: Option<PakBuilder> = None;
    let _: Option<PakReader> = None;
    let _: Option<AssetEntry> = None;
}

fn open(bytes: Vec<u8>) -> Result<PakReader, PakError> {
    PakReader::open(RawBytesContainer::from_vec(bytes))
}

#[test]
fn test_reader_open_and_read() {
    let mut builder = PakBuilder::new();

    builder.add_asset(AssetEntry::new("test.txt", b"Hello, PAK!".to_vec(), AssetType::Data));

    builder.add_asset(AssetEntry::new("data.bin", vec![1, 2, 3, 4, 5], AssetType::Data));

    let reader = open(builder.build().unwrap()).unwrap();

    assert_eq!(reader.asset_count(), 2);

    let data = reader.get_asset("test.txt").unwrap();
    assert_eq!(data, b"Hello, PAK!");

    let data = reader.get_asset("data.bin").unwrap();
    assert_eq!(data, vec![1, 2, 3, 4, 5]);
}

#[test]
fn test_list_assets() {
    let mut builder = PakBuilder::new();

    builder.add_asset(AssetEntry::new("a.txt", vec![1], AssetType::Data));
    builder.add_asset(AssetEntry::new("b.txt", vec![2], AssetType::Data));

    let reader = open(builder.build().unwrap()).unwrap();
    let assets = reader.list_assets();

    assert_eq!(assets.len(), 2);
    assert!(assets.contains(&"a.txt".to_string()));
    assert!(assets.contains(&"b.txt".to_string()));
}

#[test]
fn test_asset_not_found() {
    let builder = PakBuilder::new();

    let reader = open(builder.build().unwrap()).unwrap();
    let result = reader.get_asset("nonexistent.txt");

    assert!(matches!(result, Err(PakError::AssetNotFound(_))));
}

#[test]
fn test_get_asset_slice() {
    let mut builder = PakBuilder::new();

    builder.add_asset(AssetEntry::new("test.txt", b"Zero-copy!".to_vec(), AssetType::Data));

    let reader = open(builder.build().unwrap()).unwrap();

    if let Some(slice) = reader.get_asset_slice("test.txt").unwrap() {
        assert_eq!(slice, b"Zero-copy!");
    }
}

#[test]
fn test_get_info() {
    let mut builder = PakBuilder::new();

    builder.add_asset(AssetEntry::new("sprite.png", vec![0; 1024], AssetType::Texture));

    let reader = open(builder.build().unwrap()).unwrap();
    let info = reader.get_info("sprite.png").unwrap();

    assert_eq!(info.name, "sprite.png");
    assert_eq!(info.asset_type, AssetType::Texture);
    assert_eq!(info.size, 1024);
}

#[test]
fn hash_is_fnv1a() {
    assert_eq!(hash_name(""), 0xcbf29ce484222325);
    assert_eq!(hash_name("a"), 0xaf63dc4c8601ec8c);
    assert_eq!(hash_name("foobar"), 0x85944171f73967e8);
}

#[test]
fn more_constants() {
    assert_eq!(FLAG_COMPRESSED, 1);
    assert_eq!(MAX_NAME_LENGTH, 256);
}

#[test]
fn header_bytes_are_exact() {
    let header = PakHeader::new(2, 0x0102_0304_0506_0708, 32);
    let bytes = header.as_bytes();
    assert_eq!(
        bytes,
        vec![
            b'P', b'A', b'K', 0, 1, 0, 0, 0, 8, 7, 6, 5, 4, 3, 2, 1, 32, 0, 0, 0, 0, 0, 0, 0, 2,
            0, 0, 0, 0, 0, 0, 0
        ]
    );
    let back = PakHeader::from_bytes(&bytes).unwrap();
    assert_eq!(back.toc_offset, 0x0102_0304_0506_0708);
    assert_eq!(back.data_offset, 32);
    assert_eq!(back.entry_count, 2);
    assert_eq!(back.flags, 0);
    assert!(back.validate().is_ok());
}

#[test]
fn headers_that_are_refused() {
    let mut bytes = PakHeader::new(0, 32, 32).as_bytes();
    assert!(matches!(PakHeader::from_bytes(&bytes[..31]), Err(PakError::InvalidToc(_))));
    assert_eq!(
        PakHeader::from_bytes(&bytes[..31]).unwrap_err().to_string(),
        "Invalid TOC: Header too small"
    );
    bytes[4] = 7;
    assert!(matches!(PakHeader::from_bytes(&bytes), Err(PakError::UnsupportedVersion(7))));
    bytes[0] = b'Q';
    assert!(matches!(PakHeader::from_bytes(&bytes), Err(PakError::InvalidMagic)));
    let mut header = PakHeader::new(0, 0, 0);
    header.version = 3;
    assert!(matches!(header.validate(), Err(PakError::UnsupportedVersion(3))));
    header.magic = [0; 4];
    assert!(matches!(header.validate(), Err(PakError::InvalidMagic)));
}

#[test]
fn entry_bytes_are_exact() {
    let entry = TocEntry::new_compressed("a", 0x20, 0x800, 0x15, AssetType::Data);
    assert!(entry.is_compressed());
    assert_eq!(entry.flags, FLAG_COMPRESSED);
    assert_eq!(entry.type_tag, 5);
    let bytes = entry.as_bytes();
    let mut expected = vec![];
    expected.extend_from_slice(&0xaf63dc4c8601ec8cu64.to_le_bytes());
    expected.extend_from_slice(&0x20u64.to_le_bytes());
    expected.extend_from_slice(&0x800u64.to_le_bytes());
    expected.extend_from_slice(&0x15u64.to_le_bytes());
    expected.extend_from_slice(&1u32.to_le_bytes());
    expected.extend_from_slice(&5u32.to_le_bytes());
    expected.extend_from_slice(&0u64.to_le_bytes());
    assert_eq!(bytes, expected);
    let back = TocEntry::from_bytes(&bytes).unwrap();
    assert_eq!(back.name_hash, entry.name_hash);
    assert_eq!(back.compressed_size, 0x15);
    assert!(matches!(TocEntry::from_bytes(&bytes[..47]), Err(PakError::InvalidToc(_))));
}

#[test]
fn asset_kinds_and_their_numbers() {
    let kinds = [
        AssetType::Unknown,
        AssetType::Texture,
        AssetType::Mesh,
        AssetType::Audio,
        AssetType::Script,
        AssetType::Data,
    ];
    for (n, kind) in kinds.iter().enumerate() {
        assert_eq!(kind.tag(), n as u32);
        assert_eq!(AssetType::from(n as u32), *kind);
    }
    assert_eq!(AssetType::from(6), AssetType::Unknown);
    assert_eq!(AssetType::from(u32::MAX), AssetType::Unknown);
}

#[test]
fn error_texts() {
    assert_eq!(PakError::InvalidToc("x".to_string()).to_string(), "Invalid TOC: x");
    assert_eq!(
        PakError::CompressionFailed("y".to_string()).to_string(),
        "Compression failed: y"
    );
    assert_eq!(
        PakError::DecompressionFailed("z".to_string()).to_string(),
        "Decompression failed: z"
    );
    assert_eq!(PakError::UnsupportedVersion(0).to_string(), "Unsupported PAK version: 0");
    assert_eq!(
        PakError::UnsupportedVersion(u32::MAX).to_string(),
        "Unsupported PAK version: 4294967295"
    );
    let io_err = io::Error::new(io::ErrorKind::NotFound, "file not found");
    assert_eq!(PakError::from(io_err).to_string(), "IO error: file not found");
}

#[test]
fn settings_are_kept_in_range() {
    let mut builder = PakBuilder::default();
    builder.compression_level(0);
    assert_eq!(builder.level(), 1);
    builder.compression_level(99);
    assert_eq!(builder.level(), 22);
    builder.compression_level(-5).compress_threshold(0);
    assert_eq!(builder.level(), 1);
    assert_eq!(builder.threshold(), 0);
    assert!(builder.asset(0).is_none());
}

#[test]
fn archive_layout_is_exact() {
    let mut builder = PakBuilder::new();
    builder.add_asset(AssetEntry::new("a", vec![1, 2, 3], AssetType::Mesh));
    builder.add_asset(AssetEntry::new("b", vec![4], AssetType::Audio));
    builder.add_asset(AssetEntry::new("a", vec![5, 6], AssetType::Script));
    let bytes = builder.build().unwrap();

    let mut expected = PakHeader::new(3, 32 + 6, 32).as_bytes();
    expected.extend_from_slice(&[1, 2, 3, 4, 5, 6]);
    expected.extend_from_slice(&TocEntry::new("a", 32, 3, AssetType::Mesh).as_bytes());
    expected.extend_from_slice(&TocEntry::new("b", 35, 1, AssetType::Audio).as_bytes());
    expected.extend_from_slice(&TocEntry::new("a", 36, 2, AssetType::Script).as_bytes());
    // each name once
    expected.extend_from_slice(b"a\0b\0");
    assert_eq!(bytes, expected);

    let reader = open(bytes).unwrap();
    assert_eq!(reader.asset_count(), 3);
    assert_eq!(reader.header().entry_count, 3);
    assert_eq!(reader.header().toc_offset, 38);
    assert_eq!(reader.list_assets(), vec!["a".to_string(), "b".to_string()]);
    // the names stand for the entries in their order
    assert_eq!(reader.get_asset("a").unwrap(), vec![1, 2, 3]);
    assert_eq!(reader.get_asset("b").unwrap(), vec![4]);
    assert_eq!(reader.get_info("b").unwrap().asset_type, AssetType::Audio);
    assert!(reader.get_info("c").is_none());
    assert!(matches!(reader.get_asset_slice("c"), Err(PakError::AssetNotFound(_))));
}

#[test]
fn large_assets_are_compressed() {
    let mut builder = PakBuilder::new();
    let large = vec![42u8; 2048];
    builder.add_asset(AssetEntry::new("level_data.bin", large.clone(), AssetType::Data));
    builder.add_asset(AssetEntry::new("small.bin", vec![42u8; 100], AssetType::Data));
    let bytes = builder.build().unwrap();
    // header, two entries and the names alone take 32 + 96 + 25 bytes
    assert!(bytes.len() < 153 + 100 + 2048);

    let reader = open(bytes).unwrap();
    let info = reader.get_info("level_data.bin").unwrap();
    assert!(info.is_compressed);
    assert_eq!(info.size, 2048);
    assert!(info.compressed_size > 0 && info.compressed_size < 2048);
    assert_eq!(reader.get_asset("level_data.bin").unwrap(), large);
    assert!(reader.get_asset_slice("level_data.bin").unwrap().is_none());

    let info = reader.get_info("small.bin").unwrap();
    assert!(!info.is_compressed);
    assert_eq!(info.compressed_size, 0);
    assert_eq!(reader.get_asset_slice("small.bin").unwrap().unwrap(), &[42u8; 100][..]);
}

#[test]
fn packing_takes_what_compression_gave() {
    let asset = AssetEntry::new("n", vec![7; 8], AssetType::Data);
    let (bytes, entry) = pack_asset(&asset, 32, Some(vec![1, 2]), 4);
    assert_eq!(bytes, vec![1, 2]);
    assert!(entry.is_compressed());
    assert_eq!(entry.size, 8);
    assert_eq!(entry.compressed_size, 2);
    assert_eq!(entry.offset, 32);
    // not fewer bytes
    let (bytes, entry) = pack_asset(&asset, 32, Some(vec![0; 8]), 4);
    assert_eq!(bytes, vec![7; 8]);
    assert!(!entry.is_compressed());
    // below the threshold
    let (bytes, entry) = pack_asset(&asset, 32, Some(vec![1, 2]), 9);
    assert_eq!(bytes, vec![7; 8]);
    assert!(!entry.is_compressed());
    // compression failed
    let (bytes, entry) = pack_asset(&asset, 32, None, 4);
    assert_eq!(bytes, vec![7; 8]);
    assert_eq!(entry.compressed_size, 0);
}

#[test]
fn archives_that_are_refused() {
    assert!(matches!(open(vec![0; 31]), Err(PakError::InvalidToc(_))));
    assert_eq!(open(vec![0; 31]).err().unwrap().to_string(), "Invalid TOC: File too small");
    assert!(matches!(open(vec![0; 32]), Err(PakError::InvalidMagic)));

    let mut bytes = PakHeader::new(1, 32, 32).as_bytes();
    assert_eq!(
        open(bytes.clone()).err().unwrap().to_string(),
        "Invalid TOC: TOC extends beyond file"
    );
    // an entry whose bytes lie past the end
    bytes.extend_from_slice(&TocEntry::new("a", 100, 50, AssetType::Data).as_bytes());
    bytes.extend_from_slice(b"a\0");
    let reader = open(bytes).unwrap();
    assert_eq!(
        reader.get_asset("a").err().unwrap().to_string(),
        "Invalid TOC: Asset data extends beyond file"
    );
    assert!(matches!(reader.get_asset_slice("a"), Err(PakError::InvalidToc(_))));

    // an entry that says it is compressed, over bytes that are no zstd stream
    let mut bytes = PakHeader::new(1, 36, 32).as_bytes();
    bytes.extend_from_slice(&[1, 2, 3, 4]);
    bytes.extend_from_slice(&TocEntry::new_compressed("a", 32, 9, 4, AssetType::Data).as_bytes());
    bytes.extend_from_slice(b"a\0");
    let reader = open(bytes).unwrap();
    assert!(matches!(reader.get_asset("a"), Err(PakError::DecompressionFailed(_))));
}

#[test]
fn names_that_are_no_text_stand_for_no_entry() {
    let mut bytes = PakHeader::new(2, 34, 32).as_bytes();
    bytes.extend_from_slice(&[8, 9]);
    bytes.extend_from_slice(&TocEntry::new("x", 32, 1, AssetType::Data).as_bytes());
    bytes.extend_from_slice(&TocEntry::new("y", 33, 1, AssetType::Data).as_bytes());
    bytes.extend_from_slice(b"\xFF\0x\0y\0z\0tail");
    let reader = open(bytes).unwrap();
    assert_eq!(reader.list_assets(), vec!["x".to_string(), "y".to_string()]);
    assert_eq!(reader.get_asset("x").unwrap(), vec![8]);
    assert_eq!(reader.get_asset("y").unwrap(), vec![9]);
    assert!(reader.get_info("z").is_none());
}
