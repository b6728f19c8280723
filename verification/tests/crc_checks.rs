use bark_core::crc::crc32;

#[test]
fn crc32_of_nothing_is_zero() {
    assert_eq!(crc32(&[]), 0);
}

#[test]
fn crc32_check_value() {
    // Ogg's CRC: polynomial 0x04c11db7, no reflection, initial value 0.
    assert_eq!(crc32(b"123456789"), 0x89a1_897f);
}

#[test]
fn crc32_of_bare_page_header() {
    let mut page = vec![0u8; 27];
    page[0..4].copy_from_slice(b"OggS");
    assert_eq!(crc32(&page), 0x9ea1_a511);
    assert_eq!(crc32(b"OggS"), 0x5fb0_a94f);
}

#[test]
fn crc32_is_linear_over_xor() {
    let a = b"voice memo".to_vec();
    let b = b"0123456789".to_vec();
    let x: Vec<u8> = a.iter().zip(&b).map(|(p, q)| p ^ q).collect();
    assert_eq!(crc32(&x), crc32(&a) ^ crc32(&b));
}

#[test]
fn crc32_appended_big_endian_gives_zero() {
    let mut a = b"123456789".to_vec();
    let c = crc32(&a);
    a.extend_from_slice(&c.to_be_bytes());
    assert_eq!(crc32(&a), 0);
}

#[test]
fn crc32_ignores_leading_zero_bytes() {
    let a = b"OggS".to_vec();
    let mut z = vec![0u8; 7];
    z.extend_from_slice(&a);
    assert_eq!(crc32(&z), crc32(&a));
}
