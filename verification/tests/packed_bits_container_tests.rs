use packed_data::packed_bits_container::flags::{FlagsContainer, FlagsIter};
use packed_data::packed_bits_container::{PackedBitsContainer, PackedBitsError, HEADER_SIZE};
use packed_data::raw_bytes::RawBytesContainer;

#[test]
fn basic_in_memory() {
    let mut pb = PackedBitsContainer::<12>::new_in_memory();

    pb.push(0xABC).unwrap();
    pb.push(0x123).unwrap();
    pb.push(0xFFF).unwrap();

    assert_eq!(pb.len(), 3);
    assert_eq!(pb.get(0), Some(0xABC));
    assert_eq!(pb.get(1), Some(0x123));
    assert_eq!(pb.get(2), Some(0xFFF));

    pb.set(1, 0x456).unwrap();
    assert_eq!(pb.get(1), Some(0x456));

    let collected: Vec<_> = pb.iter().collect();
    assert_eq!(collected, vec![0xABC, 0x456, 0xFFF]);
}

#[test]
fn test_header_persistence() {
    let mut pb = PackedBitsContainer::<7>::new_in_memory();
    pb.push(100).unwrap();
    pb.push(50).unwrap();

    let bytes = pb.storage().as_slice().to_vec();

    let storage = RawBytesContainer::from_vec(bytes);
    let pb2 = PackedBitsContainer::<7>::from_storage(storage).unwrap();
    assert_eq!(pb2.len(), 2);
    assert_eq!(pb2.get(0), Some(100));
    assert_eq!(pb2.get(1), Some(50));
}

#[test]
fn container_test_n32() {
    let mut pb = PackedBitsContainer::<32>::new_in_memory();
    pb.push(u32::MAX).unwrap();
    pb.push(12345).unwrap();

    assert_eq!(pb.get(0), Some(u32::MAX));
    assert_eq!(pb.get(1), Some(12345));
}

#[test]
fn lib_test_clear() {
    let mut pb = PackedBitsContainer::<5>::new_in_memory();
    pb.push(10).unwrap();
    pb.push(20).unwrap();
    assert_eq!(pb.len(), 2);

    pb.clear().unwrap();
    assert_eq!(pb.len(), 0);
    assert!(pb.is_empty());
}

#[test]
fn lib_test_with_capacity() {
    let mut pb = PackedBitsContainer::<8>::with_capacity(100);
    assert!(pb.capacity() >= 100);
    assert_eq!(pb.len(), 0);

    for i in 0..50 {
        pb.push(i as u32).unwrap();
    }
    assert_eq!(pb.len(), 50);
}

#[test]
fn test_wrong_n() {
    let mut pb = PackedBitsContainer::<7>::new_in_memory();
    pb.push(100).unwrap();

    let bytes = pb.storage().as_slice().to_vec();

    let storage = RawBytesContainer::from_vec(bytes);
    let result = PackedBitsContainer::<12>::from_storage(storage);

    assert!(matches!(
        result,
        Err(PackedBitsError::InvalidN { expected: 12, found: 7 })
    ));
}

#[test]
fn header_layout_is_exact() {
    let mut pb = PackedBitsContainer::<3>::new_in_memory();
    for v in [1, 2, 3, 4, 5] {
        pb.push(v).unwrap();
    }
    assert_eq!(pb.len(), 5);
    assert_eq!(pb.get(2), Some(3));
    let bytes = pb.storage().as_slice();
    assert_eq!(bytes.len(), HEADER_SIZE + 2);
    assert_eq!(&bytes[0..4], b"PKBT");
    assert_eq!(&bytes[4..8], &3u32.to_le_bytes());
    assert_eq!(&bytes[8..12], &5u32.to_le_bytes());
    assert_eq!(&bytes[12..], &[0xD1, 0x58]);
}

#[test]
fn load_refuses_bad_headers() {
    let short = RawBytesContainer::from_vec(vec![0u8; 11]);
    assert_eq!(
        PackedBitsContainer::<7>::from_storage(short).unwrap_err(),
        PackedBitsError::StorageTooSmall
    );
    let mut bytes = b"PKBX".to_vec();
    bytes.extend_from_slice(&7u32.to_le_bytes());
    bytes.extend_from_slice(&0u32.to_le_bytes());
    assert_eq!(
        PackedBitsContainer::<7>::from_storage(RawBytesContainer::from_vec(bytes)).unwrap_err(),
        PackedBitsError::InvalidMagic
    );
}

#[test]
fn load_takes_the_count_from_the_header() {
    let mut bytes = b"PKBT".to_vec();
    bytes.extend_from_slice(&8u32.to_le_bytes());
    bytes.extend_from_slice(&2u32.to_le_bytes());
    bytes.extend_from_slice(&[10, 20, 30, 40]);
    let pb = PackedBitsContainer::<8>::from_storage(RawBytesContainer::from_vec(bytes)).unwrap();
    assert_eq!(pb.len(), 2);
    assert_eq!(pb.get(1), Some(20));
    assert_eq!(pb.get(2), None);
    assert_eq!(pb.capacity(), 4);
}

#[test]
fn raw_storage_counts_by_length() {
    let pb = PackedBitsContainer::<4>::from_storage_raw(RawBytesContainer::from_vec(vec![0u8; 14]));
    assert_eq!(pb.len(), 28);
    assert_eq!(pb.get(3), Some(0));
    assert_eq!(pb.get(27), Some(0));
}

#[test]
fn read_only_and_fixed_storages_fail_as_told() {
    let mut pb = PackedBitsContainer::<8>::new_in_memory();
    pb.push(1).unwrap();
    let bytes = pb.storage().as_slice().to_vec();

    let mut map = memmap2::MmapMut::map_anon(bytes.len()).unwrap();
    map.copy_from_slice(&bytes);
    let rw = RawBytesContainer::open_mmap_rw(map, 1, 1).unwrap();
    let mut fixed = PackedBitsContainer::<8>::from_storage(rw).unwrap();
    assert_eq!(fixed.get(0), Some(1));
    assert!(fixed.set(0, 9).is_ok());
    assert_eq!(fixed.get(0), Some(9));
    assert_eq!(fixed.push(2), Err(PackedBitsError::ResizeFailed));
    assert_eq!(fixed.clear(), Err(PackedBitsError::ResizeFailed));
    assert_eq!(fixed.len(), 1);
    assert_eq!(fixed.get(0), Some(9));
    assert_eq!(fixed.storage().as_slice()[8..12], 1u32.to_le_bytes());

    let mut map = memmap2::MmapMut::map_anon(bytes.len() + 4).unwrap();
    map[..bytes.len()].copy_from_slice(&bytes);
    let ro = RawBytesContainer::open_mmap_read(map.make_read_only().unwrap(), 1, 1).unwrap();
    let mut frozen = PackedBitsContainer::<8>::from_storage(ro).unwrap();
    assert_eq!(frozen.get(0), Some(1));
    assert_eq!(frozen.set(0, 9), Err(PackedBitsError::StorageReadOnly));
    assert_eq!(frozen.push(2), Err(PackedBitsError::StorageReadOnly));
    assert_eq!(frozen.get(0), Some(1));
}

#[test]
fn storage_mut_reaches_the_bytes() {
    let mut pb = PackedBitsContainer::<8>::new_in_memory();
    pb.push(7).unwrap();
    pb.storage_mut().as_slice_mut().unwrap()[12] = 8;
    assert_eq!(pb.get(0), Some(8));
}

const FLAG0: u32 = 1 << 0;
const FLAG1: u32 = 1 << 1;
const FLAG2: u32 = 1 << 2;

#[test]
fn basic_flags_ops() {
    let mut fc = FlagsContainer::<3>::new_in_memory();
    fc.push(FLAG0 | FLAG2).unwrap();
    fc.push(FLAG1).unwrap();
    assert!(fc.contains(0, FLAG0));
    assert!(!fc.contains(0, FLAG1));
    fc.set_mask(1, FLAG2).unwrap();
    assert_eq!(fc.get(1).unwrap(), FLAG1 | FLAG2);
}

#[test]
fn iter_flags_works() {
    let mut fc = FlagsContainer::<3>::new_in_memory();
    fc.push(FLAG0 | FLAG2).unwrap();
    fc.push(FLAG1).unwrap();
    let mut all_flags = vec![];
    for i in 0..fc.len() {
        if let Some(it) = fc.iter_flags(i) {
            all_flags.push(it.collect());
        }
    }
    assert_eq!(all_flags, vec![vec![FLAG0, FLAG2], vec![FLAG1]]);
}

#[test]
fn masks_clear_and_toggle() {
    let mut fc = FlagsContainer::<4>::with_capacity(4);
    fc.push(0b1010).unwrap();
    fc.clear_mask(0, 0b0010).unwrap();
    assert_eq!(fc.get(0), Some(0b1000));
    fc.toggle_mask(0, 0b1100).unwrap();
    assert_eq!(fc.get(0), Some(0b0100));
    assert_eq!(fc.set_mask(1, 1), Err(PackedBitsError::StorageTooSmall));
    assert_eq!(fc.clear_mask(1, 1), Err(PackedBitsError::StorageTooSmall));
    assert_eq!(fc.toggle_mask(1, 1), Err(PackedBitsError::StorageTooSmall));
    assert!(!fc.contains(1, 1));
    assert_eq!(fc.len(), 1);
    assert!(!fc.is_empty());
    assert_eq!(fc.packed_bits().len(), 1);
    let masks: Vec<u32> = fc.iter().collect();
    assert_eq!(masks, vec![0b0100]);
    assert!(fc.iter_flags(1).is_none());
    fc.clear().unwrap();
    assert!(fc.is_empty());
}

#[test]
fn flag_cursor_reaches_the_highest_bit() {
    let mut it = FlagsIter::new(0x8000_0001);
    assert_eq!(it.next(), Some(1));
    assert_eq!(it.next(), Some(0x8000_0000));
    assert_eq!(it.next(), None);
    assert_eq!(it.next(), None);
    assert_eq!(FlagsIter::new(0).collect(), Vec::<u32>::new());
}

#[test]
fn container_error_texts() {
    assert_eq!(PackedBitsError::InvalidMagic.to_string(), "invalid magic bytes in storage");
    assert_eq!(
        PackedBitsError::InvalidN { expected: 12, found: 7 }.to_string(),
        "N mismatch: expected 12, found 7"
    );
    assert_eq!(PackedBitsError::StorageTooSmall.to_string(), "storage too small for header");
    assert_eq!(PackedBitsError::StorageReadOnly.to_string(), "storage is read-only");
    assert_eq!(PackedBitsError::ResizeFailed.to_string(), "failed to resize storage");
}

#[test]
fn push_refuses_what_does_not_fit() {
    let mut pb = PackedBitsContainer::<3>::new_in_memory();
    pb.push(7).unwrap();
    let before = pb.storage().as_slice().to_vec();

    assert_eq!(pb.push(8), Err(PackedBitsError::ValueOverflow(8, 3)));
    assert_eq!(pb.push(u32::MAX), Err(PackedBitsError::ValueOverflow(u32::MAX, 3)));
    assert_eq!(pb.len(), 1);
    assert_eq!(pb.storage().as_slice(), &before[..]);
    assert_eq!(pb.get(0), Some(7));

    let mut wide = PackedBitsContainer::<31>::new_in_memory();
    wide.push(0x7FFF_FFFF).unwrap();
    assert_eq!(wide.push(0x8000_0000), Err(PackedBitsError::ValueOverflow(0x8000_0000, 31)));
    assert_eq!(wide.get(0), Some(0x7FFF_FFFF));
}

#[test]
fn set_refuses_the_index_and_the_value() {
    let mut pb = PackedBitsContainer::<5>::new_in_memory();
    for v in [1, 2, 3] {
        pb.push(v).unwrap();
    }
    let before = pb.storage().as_slice().to_vec();

    assert_eq!(pb.set(3, 4), Err(PackedBitsError::IndexOutOfBounds(3, 3)));
    assert_eq!(pb.set(usize::MAX, 4), Err(PackedBitsError::IndexOutOfBounds(usize::MAX, 3)));
    assert_eq!(pb.set(3, 32), Err(PackedBitsError::IndexOutOfBounds(3, 3)));
    assert_eq!(pb.set(2, 32), Err(PackedBitsError::ValueOverflow(32, 5)));
    assert_eq!(pb.storage().as_slice(), &before[..]);
    assert_eq!(pb.len(), 3);

    assert_eq!(pb.set(2, 31), Ok(()));
    assert_eq!(pb.iter().collect(), vec![1, 2, 31]);
    assert_eq!(pb.get(3), None);

    let mut empty = PackedBitsContainer::<5>::new_in_memory();
    assert_eq!(empty.set(0, 0), Err(PackedBitsError::IndexOutOfBounds(0, 0)));
}

#[test]
fn load_refuses_a_count_that_the_storage_cannot_hold() {
    let mut bytes = b"PKBT".to_vec();
    bytes.extend_from_slice(&8u32.to_le_bytes());
    bytes.extend_from_slice(&1000u32.to_le_bytes());
    assert_eq!(
        PackedBitsContainer::<8>::from_storage(RawBytesContainer::from_vec(bytes.clone()))
            .unwrap_err(),
        PackedBitsError::InsufficientBytes(1000)
    );
    bytes.extend_from_slice(&[0u8; 999]);
    assert_eq!(
        PackedBitsContainer::<8>::from_storage(RawBytesContainer::from_vec(bytes.clone()))
            .unwrap_err(),
        PackedBitsError::InsufficientBytes(1000)
    );
    bytes.push(0);
    let pb = PackedBitsContainer::<8>::from_storage(RawBytesContainer::from_vec(bytes)).unwrap();
    assert_eq!(pb.len(), 1000);
    assert_eq!(pb.get(999), Some(0));

    let mut bytes = b"PKBT".to_vec();
    bytes.extend_from_slice(&3u32.to_le_bytes());
    bytes.extend_from_slice(&5u32.to_le_bytes());
    bytes.push(0xD1);
    assert_eq!(
        PackedBitsContainer::<3>::from_storage(RawBytesContainer::from_vec(bytes.clone()))
            .unwrap_err(),
        PackedBitsError::InsufficientBytes(5)
    );
    bytes.push(0x58);
    let pb = PackedBitsContainer::<3>::from_storage(RawBytesContainer::from_vec(bytes)).unwrap();
    assert_eq!(pb.iter().collect(), vec![1, 2, 3, 4, 5]);
}

#[test]
fn a_reload_gives_the_same_array() {
    let mut pb = PackedBitsContainer::<11>::new_in_memory();
    for v in [0, 2047, 1024, 1, 77] {
        pb.push(v).unwrap();
    }
    let bytes = pb.storage().as_slice().to_vec();
    let again = PackedBitsContainer::<11>::from_storage(RawBytesContainer::from_vec(bytes)).unwrap();
    assert_eq!(again.len(), pb.len());
    assert_eq!(again.iter().collect(), pb.iter().collect());
    assert_eq!(again.storage().as_slice(), pb.storage().as_slice());
}

#[test]
fn masks_that_do_not_fit_are_refused() {
    let mut fc = FlagsContainer::<3>::new_in_memory();
    assert_eq!(fc.push(8), Err(PackedBitsError::ValueOverflow(8, 3)));
    assert!(fc.is_empty());
    fc.push(0b101).unwrap();
    assert_eq!(fc.set_mask(0, 0b1000), Err(PackedBitsError::ValueOverflow(0b1101, 3)));
    assert_eq!(fc.toggle_mask(0, 0b1001), Err(PackedBitsError::ValueOverflow(0b1100, 3)));
    assert_eq!(fc.get(0), Some(0b101));
    assert_eq!(fc.clear_mask(0, 0b1001), Ok(()));
    assert_eq!(fc.get(0), Some(0b100));
    assert_eq!(fc.set_mask(1, 0b1000), Err(PackedBitsError::StorageTooSmall));
}

#[test]
fn validation_error_texts() {
    assert_eq!(PackedBitsError::ValueOverflow(8, 3).to_string(), "Value 8 does not fit in 3 bits");
    assert_eq!(
        PackedBitsError::IndexOutOfBounds(3, 3).to_string(),
        "Index 3 is out of bounds for length 3"
    );
    assert_eq!(
        PackedBitsError::InsufficientBytes(1000).to_string(),
        "Insufficient bytes for 1000 elements"
    );
}
