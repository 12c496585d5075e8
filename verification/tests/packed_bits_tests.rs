use packed_data::packed_bits::{reserve_request, PackedBits, PackedBitsError};

#[test]
fn test_basic_operations() {
    let mut bits = PackedBits::<5>::new().unwrap();
    bits.push(31).unwrap();
    bits.push(10).unwrap();
    bits.push(0).unwrap();
    assert_eq!(bits.get(0), Some(31));
    assert_eq!(bits.get(1), Some(10));
    assert_eq!(bits.get(2), Some(0));
    assert_eq!(bits.len(), 3);
}

#[test]
fn test_set() {
    let mut bits = PackedBits::<7>::new().unwrap();
    bits.push(100).unwrap();
    bits.push(50).unwrap();
    bits.set(0, 127).unwrap();
    assert_eq!(bits.get(0), Some(127));
    assert_eq!(bits.get(1), Some(50));
}

#[test]
fn lib_test_n32() {
    let mut bits = PackedBits::<32>::new().unwrap();
    bits.push(u32::MAX).unwrap();
    bits.push(12345).unwrap();
    assert_eq!(bits.get(0), Some(u32::MAX));
    assert_eq!(bits.get(1), Some(12345));
}

#[test]
fn lib_test_iterator() {
    let mut bits = PackedBits::<4>::new().unwrap();
    bits.push(15).unwrap();
    bits.push(8).unwrap();
    bits.push(3).unwrap();
    let vals: Vec<u32> = bits.iter().collect();
    assert_eq!(vals, vec![15, 8, 3]);
}

#[test]
fn test_n1() {
    let mut bits = PackedBits::<1>::new().unwrap();
    for i in 0..10 {
        bits.push(i % 2).unwrap();
    }
    let vals: Vec<u32> = bits.iter().collect();
    assert_eq!(vals, vec![0, 1, 0, 1, 0, 1, 0, 1, 0, 1]);
}

#[test]
fn test_value_overflow() {
    let mut bits = PackedBits::<5>::new().unwrap();
    let err = bits.push(32).unwrap_err();
    assert!(matches!(err, PackedBitsError::ValueOverflow(_, _)));
}

#[test]
fn test_extend_and_as_bytes() {
    let mut bits = PackedBits::<3>::new().unwrap();
    bits.extend_from_slice(&[1, 2, 3, 4, 5]).unwrap();
    assert_eq!(bits.len(), 5);
    assert!(!bits.as_bytes().is_empty());
}

#[test]
fn round_trip_every_width() {
    for n in 1..=32u32 {
        let max: u32 = if n == 32 { u32::MAX } else { (1u32 << n) - 1 };
        let values: Vec<u32> = (0..40u32).map(|i| (i.wrapping_mul(2654435761) ^ i) & max).collect();
        let got = push_all(n, &values);
        assert_eq!(got, values, "width {}", n);
    }
}

fn push_all(n: u32, values: &[u32]) -> Vec<u32> {
    match n {
        1 => run::<1>(values),
        2 => run::<2>(values),
        3 => run::<3>(values),
        4 => run::<4>(values),
        5 => run::<5>(values),
        6 => run::<6>(values),
        7 => run::<7>(values),
        8 => run::<8>(values),
        9 => run::<9>(values),
        10 => run::<10>(values),
        11 => run::<11>(values),
        12 => run::<12>(values),
        13 => run::<13>(values),
        14 => run::<14>(values),
        15 => run::<15>(values),
        16 => run::<16>(values),
        17 => run::<17>(values),
        18 => run::<18>(values),
        19 => run::<19>(values),
        20 => run::<20>(values),
        21 => run::<21>(values),
        22 => run::<22>(values),
        23 => run::<23>(values),
        24 => run::<24>(values),
        25 => run::<25>(values),
        26 => run::<26>(values),
        27 => run::<27>(values),
        28 => run::<28>(values),
        29 => run::<29>(values),
        30 => run::<30>(values),
        31 => run::<31>(values),
        _ => run::<32>(values),
    }
}

fn run<const N: usize>(values: &[u32]) -> Vec<u32> {
    let mut bits = PackedBits::<N>::new().unwrap();
    for &v in values {
        bits.push(v).unwrap();
    }
    assert_eq!(bits.len(), values.len());
    assert_eq!(bits.as_bytes().len(), (values.len() * N + 7) / 8);
    (0..values.len()).map(|i| bits.get(i).unwrap()).collect()
}

#[test]
fn three_bit_scenario() {
    let mut bits = PackedBits::<3>::new().unwrap();
    for v in [1, 2, 3, 4, 5] {
        bits.push(v).unwrap();
    }
    assert_eq!(bits.len(), 5);
    assert_eq!(bits.get(2), Some(3));
    assert_eq!(bits.as_bytes().len(), 2);
    // 1 | 2 << 3 | 3 << 6 | 4 << 9 | 5 << 12 = 0x58D1
    assert_eq!(bits.as_bytes(), &[0xD1, 0x58]);
}

#[test]
fn boundary_values_and_indices() {
    let mut bits = PackedBits::<5>::new().unwrap();
    assert!(bits.push(31).is_ok());
    assert_eq!(bits.push(32), Err(PackedBitsError::ValueOverflow(32, 5)));
    assert_eq!(bits.len(), 1);
    assert_eq!(bits.get(1), None);
    assert_eq!(bits.get(0), Some(31));
    assert_eq!(bits.set(1, 0), Err(PackedBitsError::IndexOutOfBounds(1, 1)));
    assert_eq!(bits.set(0, 32), Err(PackedBitsError::ValueOverflow(32, 5)));
    assert!(bits.set(0, 7).is_ok());
    assert_eq!(bits.get(0), Some(7));
}

#[test]
fn invalid_widths_are_refused() {
    assert_eq!(PackedBits::<0>::new().unwrap_err(), PackedBitsError::InvalidBitWidth(0));
    assert_eq!(PackedBits::<33>::new().unwrap_err(), PackedBitsError::InvalidBitWidth(33));
    assert_eq!(
        PackedBits::<33>::with_capacity(4).unwrap_err(),
        PackedBitsError::InvalidBitWidth(33)
    );
    assert_eq!(
        PackedBits::<0>::from_bytes(vec![], 0).unwrap_err(),
        PackedBitsError::InvalidBitWidth(0)
    );
}

#[test]
fn from_bytes_checks_the_length() {
    // 3 elements of 7 bits take 21 bits, that is 3 bytes
    assert_eq!(
        PackedBits::<7>::from_bytes(vec![0, 0], 3).unwrap_err(),
        PackedBitsError::InsufficientBytes(3)
    );
    let bits = PackedBits::<7>::from_bytes(vec![0x64, 0x19, 0x00], 3).unwrap();
    assert_eq!(bits.get(0), Some(100));
    assert_eq!(bits.get(1), Some(50));
    assert_eq!(bits.get(2), Some(0));
    let (bytes, len) = bits.into_bytes();
    assert_eq!(bytes, vec![0x64, 0x19, 0x00]);
    assert_eq!(len, 3);
}

#[test]
fn push_ors_into_what_the_buffer_holds() {
    // a buffer that is not clear past its last element keeps its bits
    let mut bits = PackedBits::<8>::from_bytes(vec![0xF0], 0).unwrap();
    bits.push(0x01).unwrap();
    assert_eq!(bits.get(0), Some(0xF1));
}

#[test]
fn set_leaves_the_neighbours() {
    let mut bits = PackedBits::<11>::new().unwrap();
    bits.extend_from_slice(&[2047, 0, 1365, 682, 2047]).unwrap();
    bits.set(2, 0).unwrap();
    bits.set(1, 2047).unwrap();
    let vals: Vec<u32> = bits.iter().collect();
    assert_eq!(vals, vec![2047, 2047, 0, 682, 2047]);
}

#[test]
fn extend_stops_at_the_first_overflow() {
    let mut bits = PackedBits::<4>::new().unwrap();
    let err = bits.extend_from_slice(&[1, 2, 16, 3]).unwrap_err();
    assert_eq!(err, PackedBitsError::ValueOverflow(16, 4));
    assert_eq!(bits.len(), 2);
    assert_eq!(bits.get(1), Some(2));
}

#[test]
fn clear_reserve_and_capacity() {
    let mut bits = PackedBits::<6>::with_capacity(10).unwrap();
    assert!(bits.is_empty());
    bits.push(63).unwrap();
    bits.reserve(100);
    assert!(bits.capacity() >= 101);
    assert_eq!(bits.get(0), Some(63));
    bits.clear();
    assert!(bits.is_empty());
    assert_eq!(bits.as_bytes().len(), 0);
    assert_eq!(bits.get(0), None);
}

#[test]
fn cursor_steps_and_counts() {
    let mut bits = PackedBits::<9>::new().unwrap();
    bits.extend_from_slice(&[500, 1, 511]).unwrap();
    let mut it = bits.iter();
    assert_eq!(it.size_hint(), (3, Some(3)));
    assert_eq!(it.next(), Some(500));
    assert_eq!(it.size_hint(), (2, Some(2)));
    assert_eq!(it.next(), Some(1));
    assert_eq!(it.next(), Some(511));
    assert_eq!(it.next(), None);
    assert_eq!(it.size_hint(), (0, Some(0)));
}

#[test]
fn bits_error_texts() {
    assert_eq!(
        PackedBitsError::InvalidBitWidth(33).to_string(),
        "Bit width N must be in the range 1..=32, got 33"
    );
    assert_eq!(
        PackedBitsError::ValueOverflow(32, 5).to_string(),
        "Value 32 does not fit in 5 bits"
    );
    assert_eq!(
        PackedBitsError::IndexOutOfBounds(7, 3).to_string(),
        "Index 7 is out of bounds for length 3"
    );
    assert_eq!(
        PackedBitsError::InsufficientBytes(10).to_string(),
        "Insufficient bytes for 10 elements"
    );
    assert_eq!(PackedBitsError::Unexpected.to_string(), "Unexpected error");
}

#[test]
fn reserve_asks_for_the_bytes_that_lack() {
    // 3 + 5 elements of 6 bits take 48 bits, that is 6 bytes
    assert_eq!(reserve_request(3, 4, 3, 5, 6), Some(3));
    assert_eq!(reserve_request(3, 5, 3, 5, 6), Some(3));
    assert_eq!(reserve_request(3, 6, 3, 5, 6), None);
    assert_eq!(reserve_request(0, 0, 0, 0, 6), None);
    assert_eq!(reserve_request(0, 0, 0, 1, 1), Some(1));
    assert_eq!(reserve_request(0, 0, 1, usize::MAX, 8), None);
    assert_eq!(reserve_request(0, 0, 0, usize::MAX, 32), None);

    let mut bits = PackedBits::<6>::new().unwrap();
    bits.extend_from_slice(&[1, 2, 3]).unwrap();
    bits.reserve(1000);
    assert!(bits.capacity() >= 1003);
    bits.reserve(usize::MAX);
    assert_eq!(bits.len(), 3);
    assert_eq!(bits.as_bytes().len(), 3);
    assert_eq!(bits.get(2), Some(3));
}
