use lora_inspect::{declared_length, header_size, pad_header, HeaderError, MAX_TOTAL_HEADER};

#[test]
fn declared_length_is_little_endian() {
    assert_eq!(declared_length([1, 0, 0, 0, 0, 0, 0, 0]), 1);
    assert_eq!(declared_length([0, 1, 0, 0, 0, 0, 0, 0]), 256);
    assert_eq!(declared_length([0x78, 0x56, 0x34, 0x12, 0, 0, 0, 0]), 0x12345678);
    assert_eq!(declared_length([0xff; 8]), u64::MAX);
}

#[test]
fn header_size_adds_prefix() {
    assert_eq!(header_size([60, 0, 0, 0, 0, 0, 0, 0]), Ok(68));
    assert_eq!(header_size([0; 8]), Ok(8));
}

#[test]
fn header_size_just_below_bound() {
    let h = MAX_TOTAL_HEADER - 9;
    assert_eq!(header_size(h.to_le_bytes()), Ok((MAX_TOTAL_HEADER - 1) as usize));
}

#[test]
fn header_size_at_bound_is_too_large() {
    let h = MAX_TOTAL_HEADER - 8;
    assert_eq!(header_size(h.to_le_bytes()), Err(HeaderError::HeaderTooLarge));
    assert_eq!(MAX_TOTAL_HEADER, 100 * 1048576);
}

#[test]
fn header_size_far_above_bound_is_too_large() {
    let h: u64 = 1 << 40;
    assert_eq!(header_size(h.to_le_bytes()), Err(HeaderError::HeaderTooLarge));
}

#[test]
fn header_size_overflow_is_invalid() {
    assert_eq!(header_size([0xff; 8]), Err(HeaderError::InvalidHeader));
    let h = u64::MAX - 7;
    assert_eq!(header_size(h.to_le_bytes()), Err(HeaderError::InvalidHeader));
}

#[test]
fn pad_header_fills_with_zeros() {
    let header = vec![4, 0, 0, 0, 0, 0, 0, 0, b'{', b' ', b' ', b'}'];
    let buffer = pad_header(header.clone(), 20);
    assert_eq!(buffer.len(), 20);
    assert_eq!(&buffer[..12], &header[..]);
    assert!(buffer[12..].iter().all(|b| *b == 0));
}

#[test]
fn pad_header_of_exact_length_is_unchanged() {
    let header = vec![1, 2, 3];
    assert_eq!(pad_header(header.clone(), 3), header);
}

#[test]
fn pad_header_to_shorter_length_cuts() {
    assert_eq!(pad_header(vec![1, 2, 3, 4], 2), vec![1, 2]);
}
