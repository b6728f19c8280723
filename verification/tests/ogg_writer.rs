use bark_core::ogg_opus::{build_opus_head, write_le32, write_le32_to_vec, write_le64, OggOpusWriter};

fn reference_crc(data: &[u8]) -> u32 {
    let mut c: u32 = 0;
    for &b in data {
        c ^= (b as u32) << 24;
        for _ in 0..8 {
            c = if c & 0x8000_0000 != 0 { (c << 1) ^ 0x04c1_1db7 } else { c << 1 };
        }
    }
    c
}

struct Page {
    flags: u8,
    granule: u64,
    serial: u32,
    page_no: u32,
    segments: Vec<u8>,
    body: Vec<u8>,
}

/// Splits a stream into pages, checking each page's checksum.
fn pages_of(mut bytes: &[u8]) -> Vec<Page> {
    let mut pages = Vec::new();
    while !bytes.is_empty() {
        assert_eq!(&bytes[0..4], b"OggS");
        assert_eq!(bytes[4], 0, "stream structure version");
        let nseg = bytes[26] as usize;
        let segments = bytes[27..27 + nseg].to_vec();
        let body_len: usize = segments.iter().map(|&s| s as usize).sum();
        let total = 27 + nseg + body_len;
        let page = &bytes[..total];
        let stored = u32::from_le_bytes(page[22..26].try_into().unwrap());
        let mut zeroed = page.to_vec();
        zeroed[22..26].fill(0);
        assert_eq!(stored, reference_crc(&zeroed), "page checksum");
        pages.push(Page {
            flags: page[5],
            granule: u64::from_le_bytes(page[6..14].try_into().unwrap()),
            serial: u32::from_le_bytes(page[14..18].try_into().unwrap()),
            page_no: u32::from_le_bytes(page[18..22].try_into().unwrap()),
            segments,
            body: page[27 + nseg..].to_vec(),
        });
        bytes = &bytes[total..];
    }
    pages
}

#[test]
fn writer_without_audio_gives_nothing() {
    let mut w = OggOpusWriter::new(16_000);
    w.write_opus_head(&build_opus_head());
    w.write_opus_tags();
    assert!(w.into_bytes().is_empty());
}

#[test]
fn writer_lays_out_pages() {
    let mut w = OggOpusWriter::new(16_000);
    let head = build_opus_head();
    w.write_opus_head(&head);
    w.write_opus_tags();
    let packet: Vec<u8> = (0..600u32).map(|i| (i % 251) as u8).collect();
    w.write_audio_packet(&packet, 320);
    w.write_audio_packet(&[7, 8, 9], 100);
    let bytes = w.into_bytes();
    let pages = pages_of(&bytes);
    assert_eq!(pages.len(), 5);

    let serial = pages[0].serial;
    for (i, p) in pages.iter().enumerate() {
        assert_eq!(p.page_no, i as u32);
        assert_eq!(p.serial, serial);
    }
    assert_eq!(pages[0].flags, 0x02);
    assert_eq!(pages[0].granule, 0);
    assert_eq!(pages[0].segments, vec![19]);
    assert_eq!(pages[0].body, head);

    assert_eq!(pages[1].flags, 0);
    assert_eq!(pages[1].granule, 0);
    assert_eq!(
        pages[1].body,
        [b"OpusTags".as_slice(), &[4, 0, 0, 0], b"Bark", &[0, 0, 0, 0]].concat()
    );

    assert_eq!(pages[2].flags, 0);
    assert_eq!(pages[2].granule, 960);
    assert_eq!(pages[2].segments, vec![255, 255, 90]);
    assert_eq!(pages[2].body, packet);

    assert_eq!(pages[3].granule, 960 + 300);
    assert_eq!(pages[3].segments, vec![3]);
    assert_eq!(pages[3].body, vec![7, 8, 9]);

    assert_eq!(pages[4].flags, 0x04);
    assert_eq!(pages[4].granule, 1260);
    assert!(pages[4].segments.is_empty());
    assert!(pages[4].body.is_empty());
}

#[test]
fn packet_of_exactly_255_bytes_gets_a_zero_lacing_value() {
    let mut w = OggOpusWriter::new(48_000);
    w.write_audio_packet(&[1u8; 255], 960);
    w.close();
    let bytes = w.into_bytes();
    let pages = pages_of(&bytes);
    assert_eq!(pages.len(), 3);
    assert_eq!(pages[0].segments, vec![255, 0]);
    assert_eq!(pages[0].granule, 960);
    assert_eq!(pages[1].flags, 0x04);
    assert_eq!(pages[2].flags, 0x04);
}

#[test]
fn opus_head_fields() {
    let head = build_opus_head();
    assert_eq!(head.len(), 19);
    assert_eq!(&head[10..12], &312u16.to_le_bytes());
    assert_eq!(&head[12..16], &16_000u32.to_le_bytes());
    assert_eq!(&head[16..19], &[0, 0, 0]);
}

#[test]
fn little_endian_writes() {
    let mut buf = vec![0xaau8; 12];
    write_le32(&mut buf, 1, 0x1234_5678);
    assert_eq!(buf[..6], [0xaa, 0x78, 0x56, 0x34, 0x12, 0xaa]);
    write_le64(&mut buf, 4, 0x0102_0304_0506_0708);
    assert_eq!(buf[4..12], [8, 7, 6, 5, 4, 3, 2, 1]);
    let mut v = vec![9u8];
    write_le32_to_vec(&mut v, 16_000);
    assert_eq!(v, vec![9, 0x80, 0x3e, 0, 0]);
}
