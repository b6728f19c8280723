use bark_core::crc::crc32;
use bark_core::ogg_opus::build_opus_head;

#[test]
fn opus_head_structure() {
    let head = build_opus_head();
    assert_eq!(&head[0..8], b"OpusHead");
    assert_eq!(head[8], 1); // version
    assert_eq!(head[9], 1); // mono
}

#[test]
fn crc32_known_value() {
    let mut page = vec![0u8; 27];
    page[0..4].copy_from_slice(b"OggS");
    let c = crc32(&page);
    assert_ne!(c, 0, "CRC should be non-zero for a non-empty page");
}
