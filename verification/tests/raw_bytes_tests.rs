use packed_data::raw_bytes::{validate_alignment, ContainerError, RawBytesContainer};

// A packet of a 32-bit and two 16-bit numbers, as its eight bytes.
fn packet(a: u32, b: u16, c: u16) -> [u8; 8] {
    let mut bytes = [0u8; 8];
    bytes[0..4].copy_from_slice(&a.to_le_bytes());
    bytes[4..6].copy_from_slice(&b.to_le_bytes());
    bytes[6..8].copy_from_slice(&c.to_le_bytes());
    bytes
}

fn a_of(bytes: &[u8], index: usize) -> u32 {
    let at = index * 8;
    u32::from_le_bytes([bytes[at], bytes[at + 1], bytes[at + 2], bytes[at + 3]])
}

fn set_a(bytes: &mut [u8], index: usize, a: u32) {
    bytes[index * 8..index * 8 + 4].copy_from_slice(&a.to_le_bytes());
}

fn two_packets() -> Vec<u8> {
    let mut bytes = packet(1, 2, 0).to_vec();
    bytes.extend_from_slice(&packet(4, 5, 0));
    bytes
}

#[test]
fn main_test_in_memory_operations() {
    let mut container = RawBytesContainer::from_slice(&two_packets());

    assert_eq!(container.len(), 16);
    assert_eq!(a_of(container.as_slice(), 0), 1);

    set_a(container.as_slice_mut_checked().unwrap(), 0, 42);
    assert_eq!(a_of(container.as_slice(), 0), 42);

    container.append(&packet(7, 8, 0)).unwrap();
    assert_eq!(container.len(), 24);

    container.resize(40, 0).unwrap();
    assert_eq!(container.len(), 40);

    for i in 0..5 {
        let a = a_of(container.as_slice(), i);
        set_a(container.as_slice_mut_checked().unwrap(), i, a + 1);
    }
}

#[test]
fn container_tests_test_in_memory_operations() {
    let mut container = RawBytesContainer::from_slice(&two_packets());
    assert_eq!(container.len(), 16);
    assert_eq!(a_of(container.as_slice(), 0), 1);

    set_a(container.as_slice_mut().unwrap(), 0, 100);
    assert_eq!(a_of(container.as_slice(), 0), 100);

    container.append(&packet(7, 8, 0)).unwrap();
    assert_eq!(container.len(), 24);

    container.resize(40, 0).unwrap();
    assert_eq!(container.len(), 40);

    if let Some(slice) = container.as_slice_mut() {
        for i in 0..5 {
            let a = a_of(slice, i);
            set_a(slice, i, a + 1);
        }
    }

    let expected_a = [101, 5, 8, 1, 1];
    for (i, a) in expected_a.iter().enumerate() {
        assert_eq!(a_of(container.as_slice(), i), *a, "Mismatch at index {}", i);
    }
}

fn read_only(bytes: &[u8]) -> memmap2::Mmap {
    let mut map = memmap2::MmapMut::map_anon(bytes.len()).unwrap();
    map.copy_from_slice(bytes);
    map.make_read_only().unwrap()
}

fn read_write(bytes: &[u8]) -> memmap2::MmapMut {
    let mut map = memmap2::MmapMut::map_anon(bytes.len()).unwrap();
    map.copy_from_slice(bytes);
    map
}

#[test]
fn test_read_only_protection() {
    let bytes = packet(1, 2, 0);

    let mut ro_container = RawBytesContainer::open_mmap_read(read_only(&bytes), 8, 4).unwrap();

    assert!(ro_container.as_slice_mut().is_none());
    assert!(ro_container.as_slice_mut_checked().is_err());
    assert!(ro_container.get_mut(0).is_none());
    assert!(!ro_container.is_mutable());

    let mut rw_container = RawBytesContainer::open_mmap_rw(read_write(&bytes), 8, 4).unwrap();
    set_a(rw_container.as_slice_mut_checked().unwrap(), 0, 99);
    rw_container.flush().unwrap();

    let updated = rw_container.as_slice();
    assert_eq!(a_of(updated, 0), 99);
}

#[test]
fn test_read_only_and_rw() {
    let bytes = packet(1, 2, 0);

    let mut ro_container = RawBytesContainer::open_mmap_read(read_only(&bytes), 8, 4).unwrap();

    assert!(ro_container.as_slice_mut().is_none());
    assert!(ro_container.as_slice_mut_checked().is_err());
    assert!(ro_container.get_mut(0).is_none());
    assert!(!ro_container.is_mutable());

    let mut rw_container = RawBytesContainer::open_mmap_rw(read_write(&bytes), 8, 4).unwrap();
    set_a(rw_container.as_slice_mut().unwrap(), 0, 42);
    rw_container.flush().unwrap();

    let slice = rw_container.as_slice();
    assert_eq!(a_of(slice, 0), 42);
}

#[test]
fn lengths_that_are_no_multiple_are_refused() {
    match RawBytesContainer::open_mmap_read(read_only(&[0u8; 7]), 8, 1) {
        Err(ContainerError::AlignmentError(msg)) => {
            assert_eq!(msg, "File size 7 not aligned to type size 8")
        }
        _ => panic!("a region of 7 bytes holds no whole element of 8"),
    }
    match RawBytesContainer::open_mmap_rw(read_write(&[0u8; 12]), 8, 1) {
        Err(ContainerError::AlignmentError(msg)) => {
            assert_eq!(msg, "File size 12 not aligned to type size 8")
        }
        _ => panic!("a region of 12 bytes does not end with a whole element of 8"),
    }
    assert!(RawBytesContainer::open_mmap_read(read_only(&[0u8; 16]), 8, 1).is_ok());
}

#[test]
fn layout_checks() {
    assert!(validate_alignment(16, 4096, 8, 8).is_ok());
    assert!(validate_alignment(0, 0, 3, 2).is_ok());
    match validate_alignment(10, 4096, 4, 4) {
        Err(ContainerError::AlignmentError(msg)) => {
            assert_eq!(msg, "File size 10 not aligned to type size 4")
        }
        _ => panic!("10 is no multiple of 4"),
    }
    match validate_alignment(16, 4098, 4, 4) {
        Err(ContainerError::AlignmentError(msg)) => {
            assert_eq!(msg, "Memory map address not aligned to type alignment 4")
        }
        _ => panic!("4098 is no multiple of 4"),
    }
    // the length is looked at first
    match validate_alignment(10, 4098, 4, 4) {
        Err(ContainerError::AlignmentError(msg)) => assert!(msg.starts_with("File size")),
        _ => panic!("10 is no multiple of 4"),
    }
}

#[test]
fn owned_buffers_grow_and_shrink() {
    let mut c = RawBytesContainer::from_vec(vec![1, 2, 3]);
    assert!(c.is_mutable());
    assert!(!c.is_empty());
    assert_eq!(c.get(1), Some(&2));
    assert_eq!(c.get(3), None);
    *c.get_mut(1).unwrap() = 9;
    assert!(c.get_mut(3).is_none());
    c.resize(5, 7).unwrap();
    assert_eq!(c.as_slice(), &[1, 9, 3, 7, 7]);
    c.resize(2, 0).unwrap();
    assert_eq!(c.as_slice(), &[1, 9]);
    c.append(&[4, 5]).unwrap();
    assert_eq!(c.as_slice(), &[1, 9, 4, 5]);
    assert!(c.capacity().unwrap() >= 4);
    c.shrink_to_fit().unwrap();
    assert_eq!(c.as_slice(), &[1, 9, 4, 5]);
    assert!(c.capacity().unwrap() >= 4);
    match c.flush() {
        Err(ContainerError::UnsupportedOperation(msg)) => {
            assert_eq!(msg, "Flush only supported on mmap RW")
        }
        _ => panic!("an owned buffer has nothing to flush"),
    }
    assert!(RawBytesContainer::from_slice(&[]).is_empty());
}

#[test]
fn mappings_keep_their_length() {
    let mut rw = RawBytesContainer::open_mmap_rw(read_write(&[1, 2, 3, 4]), 2, 1).unwrap();
    assert!(rw.is_mutable());
    assert_eq!(rw.len(), 4);
    assert_eq!(rw.as_slice(), &[1, 2, 3, 4]);
    assert_eq!(rw.capacity(), None);
    match rw.append(&[5]) {
        Err(ContainerError::UnsupportedOperation(msg)) => {
            assert_eq!(msg, "Append not supported on mmap storage")
        }
        _ => panic!("a mapping cannot grow"),
    }
    match rw.resize(2, 0) {
        Err(ContainerError::UnsupportedOperation(msg)) => {
            assert_eq!(msg, "Resize not supported on mmap storage")
        }
        _ => panic!("a mapping cannot shrink"),
    }
    match rw.shrink_to_fit() {
        Err(ContainerError::UnsupportedOperation(msg)) => {
            assert_eq!(msg, "Shrink only supported on in-memory storage")
        }
        _ => panic!("a mapping has no spare capacity"),
    }
    *rw.get_mut(3).unwrap() = 8;
    assert_eq!(rw.as_slice(), &[1, 2, 3, 8]);

    let mut ro = RawBytesContainer::open_mmap_read(read_only(&[1, 2, 3, 4]), 2, 1).unwrap();
    assert_eq!(ro.as_slice(), &[1, 2, 3, 4]);
    assert_eq!(ro.get(0), Some(&1));
    match ro.as_slice_mut_checked() {
        Err(ContainerError::UnsupportedOperation(msg)) => {
            assert_eq!(msg, "Cannot get mutable reference to read-only storage")
        }
        _ => panic!("a read-only mapping cannot be written"),
    }
    assert!(ro.append(&[5]).is_err());
    assert!(ro.resize(8, 0).is_err());
    assert!(ro.flush().is_err());
    assert_eq!(ro.as_slice(), &[1, 2, 3, 4]);
}

#[test]
fn storage_error_texts() {
    assert_eq!(
        ContainerError::UnsupportedOperation("Append not supported on mmap storage").to_string(),
        "Append not supported on mmap storage"
    );
    let err = validate_alignment(10, 0, 4, 4).unwrap_err();
    assert_eq!(err.to_string(), "Alignment error: File size 10 not aligned to type size 4");
    let io_err = std::io::Error::new(std::io::ErrorKind::Other, "no such map");
    assert_eq!(ContainerError::from(io_err).to_string(), "IO error: no such map");
}

#[test]
fn shrinking_gives_capacity_back() {
    let mut big = Vec::with_capacity(4096);
    big.extend_from_slice(&[1, 2, 3]);
    let mut c = RawBytesContainer::from_vec(big);
    assert!(c.capacity().unwrap() >= 4096);
    c.shrink_to_fit().unwrap();
    assert!(c.capacity().unwrap() < 4096);
    assert_eq!(c.as_slice(), &[1, 2, 3]);
}
