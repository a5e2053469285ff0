use ftoi::{decode, encode, grid_side, header_bytes, header_value, pack, slot_position, try_pack, unpack};
use ftoi::{FtoiError, PixelGrid};

fn header_of(g: &PixelGrid) -> u64 {
    let a = g.get_pixel(0, 0);
    let b = g.get_pixel(0, 1);
    header_value(&[a[0], a[1], a[2], a[3], b[0], b[1], b[2], b[3]])
}

#[test]
fn hello_packs_into_two_by_two() {
    let g = pack(&b"hello".to_vec());
    assert_eq!(g.width, 2);
    assert_eq!(g.height, 2);
    assert_eq!(g.get_pixel(0, 0), [0, 0, 0, 0]);
    assert_eq!(g.get_pixel(0, 1), [0, 0, 0, 5]);
    assert_eq!(g.get_pixel(1, 0), [b'h', b'e', b'l', b'l']);
    assert_eq!(g.get_pixel(1, 1), [b'o', 0, 0, 0]);
    assert_eq!(unpack(&g), Ok(b"hello".to_vec()));
}

#[test]
fn empty_payload_round_trips() {
    let g = pack(&Vec::new());
    assert_eq!(g.width, 2);
    assert_eq!(g.height, 2);
    assert_eq!(header_of(&g), 0);
    assert!(g.data.iter().all(|b| *b == 0));
    assert_eq!(unpack(&g), Ok(Vec::new()));
}

#[test]
fn exact_square_has_no_spare_side() {
    // 28 + 8 = 36 = 4 * 3 * 3
    assert_eq!(grid_side(28), 3);
    assert_eq!(grid_side(29), 4);
    assert_eq!(grid_side(27), 3);
    // 8 + 8 = 16 = 4 * 2 * 2
    assert_eq!(grid_side(8), 2);
    assert_eq!(grid_side(9), 3);
    let data: Vec<u8> = (0..28u8).collect();
    let g = pack(&data);
    assert_eq!(g.width, 3);
    assert_eq!(g.get_pixel(2, 2), [24, 25, 26, 27]);
    assert_eq!(unpack(&g), Ok(data));
}

#[test]
fn grid_side_is_ceiling_of_root() {
    for n in 0..2000usize {
        let s = grid_side(n) as usize;
        assert!(s * s * 4 >= n + 8);
        assert!((s - 1) * (s - 1) * 4 < n + 8);
    }
    assert_eq!(grid_side(usize::MAX), (1u64 << 31) + 1);
}

#[test]
fn round_trip_many_lengths() {
    for n in 0..300usize {
        let data: Vec<u8> = (0..n).map(|i| (i * 37 + 11) as u8).collect();
        let g = pack(&data);
        assert_eq!(header_of(&g), n as u64);
        assert_eq!(unpack(&g), Ok(data));
    }
}

#[test]
fn payload_is_laid_out_column_by_column() {
    let data: Vec<u8> = (1..=28u8).collect();
    let g = pack(&data);
    assert_eq!(g.width, 3);
    assert_eq!(g.get_pixel(0, 2), [1, 2, 3, 4]);
    assert_eq!(g.get_pixel(1, 0), [5, 6, 7, 8]);
    assert_eq!(g.get_pixel(1, 1), [9, 10, 11, 12]);
    assert_eq!(g.get_pixel(1, 2), [13, 14, 15, 16]);
    assert_eq!(g.get_pixel(2, 0), [17, 18, 19, 20]);
    assert_eq!(slot_position(0, 3), (0, 2));
    assert_eq!(slot_position(1, 3), (1, 0));
    assert_eq!(slot_position(6, 3), (2, 2));
}

#[test]
fn header_bytes_are_big_endian() {
    assert_eq!(header_bytes(5), [0, 0, 0, 0, 0, 0, 0, 5]);
    assert_eq!(header_bytes(0x0102_0304_0506_0708), [1, 2, 3, 4, 5, 6, 7, 8]);
    assert_eq!(header_value(&[1, 2, 3, 4, 5, 6, 7, 8]), 0x0102_0304_0506_0708);
    assert_eq!(header_value(&header_bytes(u64::MAX)), u64::MAX);
}

#[test]
fn padding_beyond_payload_is_ignored() {
    let g = pack(&b"hello".to_vec());
    let mut data = g.data.clone();
    // (1, 1) channels 1..4 lie beyond the payload
    data[(1 * 2 + 1) * 4 + 1] = 99;
    data[(1 * 2 + 1) * 4 + 3] = 7;
    let h = PixelGrid::from_raw(2, 2, data).unwrap();
    assert_eq!(unpack(&h), Ok(b"hello".to_vec()));

    // the same bytes on a larger canvas
    let mut big = PixelGrid::new(4, 4);
    big.put_pixel(0, 0, g.get_pixel(0, 0));
    big.put_pixel(0, 1, g.get_pixel(0, 1));
    // first payload pixel of a 4-high grid is (0, 2), then (0, 3)
    big.put_pixel(0, 2, [b'h', b'e', b'l', b'l']);
    big.put_pixel(0, 3, [b'o', 1, 2, 3]);
    big.put_pixel(3, 3, [9, 9, 9, 9]);
    assert_eq!(unpack(&big), Ok(b"hello".to_vec()));
}

#[test]
fn grid_without_header_pixels_is_malformed() {
    let g = PixelGrid::new(1, 1);
    assert_eq!(unpack(&g), Err(FtoiError::MalformedHeader));
    let g = PixelGrid::new(3, 1);
    assert_eq!(unpack(&g), Err(FtoiError::MalformedHeader));
    let g = PixelGrid::new(0, 0);
    assert_eq!(decode(&g, false), Err(FtoiError::MalformedHeader));
}

#[test]
fn header_longer_than_grid_is_insufficient() {
    let mut g = PixelGrid::new(2, 2);
    g.put_pixel(0, 1, [0, 0, 0, 9]);
    assert_eq!(unpack(&g), Err(FtoiError::InsufficientData));
    g.put_pixel(0, 1, [0, 0, 0, 8]);
    assert_eq!(unpack(&g), Ok(vec![0; 8]));
    g.put_pixel(0, 0, [255, 255, 255, 255]);
    assert_eq!(unpack(&g), Err(FtoiError::InsufficientData));
}

#[test]
fn from_raw_checks_length() {
    assert!(PixelGrid::from_raw(2, 2, vec![0; 15]).is_none());
    assert!(PixelGrid::from_raw(2, 2, vec![0; 16]).is_some());
    let g = PixelGrid::from_raw(1, 2, vec![1, 2, 3, 4, 5, 6, 7, 8]).unwrap();
    assert_eq!(g.get_pixel(0, 1), [5, 6, 7, 8]);
    assert_eq!(g.into_raw(), vec![1, 2, 3, 4, 5, 6, 7, 8]);
}

#[test]
fn try_pack_matches_pack() {
    let data = b"some payload bytes".to_vec();
    let g = try_pack(&data).unwrap();
    let h = pack(&data);
    assert_eq!(g.width, h.width);
    assert_eq!(g.data, h.data);
}

#[test]
fn encode_decode_without_compression() {
    let data = b"plain text payload".to_vec();
    let g = encode(&data, false).unwrap();
    assert_eq!(header_of(&g), data.len() as u64);
    assert_eq!(g.data, pack(&data).data);
    assert_eq!(decode(&g, false), Ok(data));
}

#[test]
fn encode_decode_with_compression() {
    let data: Vec<u8> = b"abcabcabc".iter().cycle().take(3000).cloned().collect();
    let g = encode(&data, true).unwrap();
    let carried = header_of(&g) as usize;
    // the header records the compressed length, which is far below the input's
    assert!(carried < data.len());
    assert!(carried > 0);
    let stream = unpack(&g).unwrap();
    assert_eq!(stream.len(), carried);
    // an xz stream starts with its magic bytes
    assert_eq!(&stream[..6], &[0xFD, b'7', b'z', b'X', b'Z', 0x00]);
    assert_eq!(decode(&g, true), Ok(data));
}

#[test]
fn compression_round_trip_of_empty_and_short() {
    for data in [Vec::new(), b"hello".to_vec(), vec![0u8; 1]] {
        let g = encode(&data, true).unwrap();
        assert_eq!(decode(&g, true), Ok(data));
    }
}

#[test]
fn decoding_garbage_with_compression_fails() {
    let g = pack(&b"not an xz stream".to_vec());
    assert_eq!(decode(&g, true), Err(FtoiError::Compression));
}
