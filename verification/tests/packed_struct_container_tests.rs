use packed_data::packed_struct_container::PackedStructContainer;

// A point of two 32-bit floats, as its eight bytes.
fn point(x: f32, y: f32) -> [u8; 8] {
    let mut bytes = [0u8; 8];
    bytes[0..4].copy_from_slice(&x.to_le_bytes());
    bytes[4..8].copy_from_slice(&y.to_le_bytes());
    bytes
}

fn x_of(bytes: &[u8]) -> f32 {
    f32::from_le_bytes([bytes[0], bytes[1], bytes[2], bytes[3]])
}

fn y_of(bytes: &[u8]) -> f32 {
    f32::from_le_bytes([bytes[4], bytes[5], bytes[6], bytes[7]])
}

fn points(list: &[(f32, f32)]) -> Vec<u8> {
    list.iter().flat_map(|&(x, y)| point(x, y)).collect()
}

#[test]
fn test_new_and_push() {
    let mut container = PackedStructContainer::new(8);
    assert_eq!(container.len(), 0);
    assert!(container.is_empty());

    container.push(&point(1.0, 2.0)).unwrap();
    container.push(&point(3.0, 4.0)).unwrap();

    assert_eq!(container.len(), 2);
    assert_eq!(x_of(container.get(0).unwrap()), 1.0);
    assert_eq!(y_of(container.get(1).unwrap()), 4.0);
}

#[test]
fn test_from_slice() {
    let bytes = points(&[(1.0, 2.0), (3.0, 4.0)]);
    let container = PackedStructContainer::from_slice(&bytes, 8);

    assert_eq!(container.len(), 2);
    assert_eq!(container.get(0).unwrap(), &point(1.0, 2.0));
}

#[test]
fn test_append() {
    let mut container = PackedStructContainer::new(8);
    let bytes = points(&[(1.0, 2.0), (3.0, 4.0)]);

    container.append(&bytes).unwrap();
    assert_eq!(container.len(), 2);
}

#[test]
fn test_extend() {
    let mut container = PackedStructContainer::new(8);
    let bytes = points(&[(1.0, 2.0), (3.0, 4.0)]);

    container.extend(&bytes).unwrap();
    assert_eq!(container.len(), 2);
}

#[test]
fn test_deref() {
    let mut container =
        PackedStructContainer::from_slice(&points(&[(1.0, 2.0), (3.0, 4.0)]), 8);

    assert_eq!(container.len(), 2);

    container.as_slice_mut().unwrap()[0..4].copy_from_slice(&10.0f32.to_le_bytes());
    assert_eq!(x_of(container.get(0).unwrap()), 10.0);
}

#[test]
fn struct_container_test_iterator() {
    let bytes = points(&[(1.0, 2.0), (3.0, 4.0)]);
    let container = PackedStructContainer::from_values(&bytes, 8);

    let mut collected: Vec<u8> = vec![];
    let mut it = container.iter();
    while let Some(p) = it.next() {
        collected.extend_from_slice(p);
    }
    assert_eq!(collected, bytes);
    assert!(it.next().is_none());
    assert_eq!(container.as_slice(), &bytes[..]);
}

#[test]
fn test_get_mut() {
    let mut container = PackedStructContainer::from_slice(&point(1.0, 2.0), 8);

    if let Some(point) = container.get_mut(0) {
        point[0..4].copy_from_slice(&100.0f32.to_le_bytes());
    }

    assert_eq!(x_of(container.get(0).unwrap()), 100.0);
    assert_eq!(y_of(container.get(0).unwrap()), 2.0);
    assert!(container.get_mut(1).is_none());
    container.storage_mut().as_slice_mut().unwrap()[4..8].copy_from_slice(&7.0f32.to_le_bytes());
    assert_eq!(y_of(container.get(0).unwrap()), 7.0);
}

#[test]
fn struct_container_test_with_capacity() {
    let mut container = PackedStructContainer::with_capacity(100, 8);
    assert_eq!(container.len(), 0);

    for i in 0..10 {
        container.push(&point(i as f32, i as f32 * 2.0)).unwrap();
    }
    assert_eq!(container.len(), 10);
}

#[test]
fn struct_container_test_clear() {
    let mut container =
        PackedStructContainer::from_slice(&points(&[(1.0, 2.0), (3.0, 4.0)]), 8);

    assert_eq!(container.len(), 2);
    container.clear().unwrap();
    assert_eq!(container.len(), 0);
    assert!(container.is_empty());
}

#[test]
fn partial_structs_do_not_count() {
    let container = PackedStructContainer::from_slice(&[1, 2, 3, 4, 5, 6, 7], 3);
    assert_eq!(container.len(), 2);
    assert_eq!(container.get(1).unwrap(), &[4, 5, 6]);
    assert!(container.get(2).is_none());
    assert_eq!(container.storage().len(), 7);
    assert!(container.flush().is_err());
}

#[test]
fn mapped_struct_containers() {
    let mut map = memmap2::MmapMut::map_anon(6).unwrap();
    map.copy_from_slice(&[1, 2, 3, 4, 5, 6]);
    let mut rw = PackedStructContainer::open_mmap_rw(map, 2, 1).unwrap();
    assert_eq!(rw.len(), 3);
    assert!(rw.append(&[7, 8]).is_err());
    assert!(rw.clear().is_err());
    rw.as_slice_mut().unwrap()[5] = 9;
    assert_eq!(rw.get(2).unwrap(), &[5, 9]);
    assert!(rw.flush().is_ok());

    let map = memmap2::MmapMut::map_anon(4).unwrap().make_read_only().unwrap();
    let mut ro = PackedStructContainer::open_mmap_read(map, 4, 1).unwrap();
    assert_eq!(ro.len(), 1);
    assert!(ro.as_slice_mut().is_none());
    assert!(ro.get_mut(0).is_none());
    assert!(ro.push(&[0; 4]).is_err());
}

#[test]
fn mapped_lengths_that_are_no_multiple_are_refused() {
    let map = memmap2::MmapMut::map_anon(12).unwrap().make_read_only().unwrap();
    let r = PackedStructContainer::open_mmap_read(map, 8, 1);
    match r {
        Err(e) => assert_eq!(
            e.to_string(),
            "Alignment error: File size 12 not aligned to type size 8"
        ),
        Ok(_) => panic!("a length of 12 holds no whole number of structs of 8 bytes"),
    }

    let map = memmap2::MmapMut::map_anon(12).unwrap();
    let r = PackedStructContainer::open_mmap_rw(map, 8, 1);
    match r {
        Err(e) => assert_eq!(
            e.to_string(),
            "Alignment error: File size 12 not aligned to type size 8"
        ),
        Ok(_) => panic!("a length of 12 holds no whole number of structs of 8 bytes"),
    }

    let map = memmap2::MmapMut::map_anon(16).unwrap().make_read_only().unwrap();
    let ok = PackedStructContainer::open_mmap_read(map, 8, 8).unwrap();
    assert_eq!(ok.len(), 2);
    assert_eq!(ok.storage().as_slice(), ok.as_slice());
}

#[test]
fn the_storage_is_the_bytes() {
    let mut container = PackedStructContainer::from_slice(&[1, 2, 3, 4], 2);
    assert_eq!(container.storage().as_slice(), &[1, 2, 3, 4]);
    assert!(container.storage().is_mutable());
    container.storage_mut().append(&[5, 6]).unwrap();
    assert_eq!(container.as_slice(), &[1, 2, 3, 4, 5, 6]);
    assert_eq!(container.len(), 3);
    container.push(&[7, 8]).unwrap();
    assert!(container.storage().is_mutable());
    assert_eq!(container.storage().len(), 8);
}
