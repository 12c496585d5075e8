use packed_data::packed_structs::PackedBytes;

// A record of a 32-bit and two 16-bit numbers, as its eight bytes.
fn packet(a: u32, b: u16, c: u16) -> [u8; 8] {
    let mut bytes = [0u8; 8];
    bytes[0..4].copy_from_slice(&a.to_le_bytes());
    bytes[4..6].copy_from_slice(&b.to_le_bytes());
    bytes[6..8].copy_from_slice(&c.to_le_bytes());
    bytes
}

#[test]
fn basic_get_set() {
    let p = packet(1, 2, 3);
    let mut packed = PackedBytes::<8>::new();
    packed.set(&p);
    assert_eq!(packed.get(), p);

    let new_val = packet(10, 20, 30);
    packed.set(&new_val);
    assert_eq!(packed.get(), new_val);
}

#[test]
fn as_bytes() {
    let p = packet(0x12345678, 0xABCD, 0xEF01);
    let mut packed = PackedBytes::<8>::new();
    packed.set(&p);

    let bytes = packed.as_bytes();
    assert_eq!(bytes.len(), 8);
    assert_eq!(bytes[0], 0x78);
    assert_eq!(bytes[1], 0x56);
}

#[test]
fn new_is_all_zero() {
    let packed = PackedBytes::<5>::new();
    assert_eq!(packed.as_bytes(), &[0, 0, 0, 0, 0]);
    assert_eq!(PackedBytes::<5>::default(), packed);
    assert_eq!(PackedBytes::<0>::new().as_bytes().len(), 0);
}

#[test]
fn from_bytes_and_as_bytes_mut() {
    let mut packed = PackedBytes::<3>::from_bytes([1, 2, 3]);
    assert_eq!(packed.as_bytes(), &[1, 2, 3]);
    packed.as_bytes_mut()[1] = 9;
    assert_eq!(packed.get(), [1, 9, 3]);
    let copy = packed;
    assert_eq!(copy, packed);
}
