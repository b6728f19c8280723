use std::io::Cursor;

use bark_core::ogg_opus::{build_opus_head, OggOpusWriter};
use bark_core::ogg_opus::FrameEncoder;
use bark_core::opus_stream::{
    ogg_serial, serial_from_clock, EncodeError, InternalOpusEncoder, OpusEncoder, GRANULE_PER_FRAME,
};

fn packets_of(bytes: Vec<u8>) -> Vec<ogg::Packet> {
    let mut reader = ogg::reading::PacketReader::new(Cursor::new(bytes));
    let mut out = Vec::new();
    while let Some(p) = reader.read_packet().expect("a readable Ogg stream") {
        out.push(p);
    }
    out
}

#[test]
fn internal_encoder_delays_packets_by_one() {
    let mut enc = InternalOpusEncoder::new(Vec::new(), 312).unwrap();
    enc.push_packet(vec![1, 2]).unwrap();
    enc.push_packet(vec![3]).unwrap();
    let bytes = enc.finish().unwrap();
    let packets = packets_of(bytes);
    assert_eq!(packets.len(), 4);

    let head = &packets[0];
    assert_eq!(&head.data[..8], b"OpusHead");
    assert_eq!(head.data[8], 1);
    assert_eq!(head.data[9], 1);
    assert_eq!(u16::from_le_bytes([head.data[10], head.data[11]]), 936);
    assert_eq!(&head.data[12..16], &16_000u32.to_le_bytes());
    assert_eq!(head.data.len(), 19);
    assert!(head.first_in_stream());
    assert_eq!(head.absgp_page(), 0);

    assert_eq!(
        packets[1].data,
        [b"OpusTags".as_slice(), &[4, 0, 0, 0], b"bark", &[0, 0, 0, 0]].concat()
    );

    // Audio packets share a page; the page carries the granule position
    // reached by its last packet.
    assert_eq!(packets[2].data, vec![1, 2]);
    assert!(!packets[2].last_in_page());
    assert_eq!(packets[2].absgp_page(), 2 * GRANULE_PER_FRAME);
    assert_eq!(packets[3].data, vec![3]);
    assert_eq!(packets[3].absgp_page(), 2 * GRANULE_PER_FRAME);
    assert!(packets[3].last_in_stream());
    let serial = packets[0].stream_serial();
    assert!(packets.iter().all(|p| p.stream_serial() == serial));
}

#[test]
fn internal_encoder_without_packets_ends_with_an_empty_one() {
    let enc = InternalOpusEncoder::new(Vec::new(), 0).unwrap();
    let packets = packets_of(enc.finish().unwrap());
    assert_eq!(packets.len(), 3);
    assert_eq!(u16::from_le_bytes([packets[0].data[10], packets[0].data[11]]), 0);
    assert!(packets[2].data.is_empty());
    assert_eq!(packets[2].absgp_page(), GRANULE_PER_FRAME);
    assert!(packets[2].last_in_stream());
}

#[test]
fn serial_from_clock_takes_low_bits() {
    assert_eq!(serial_from_clock(Some(0x1_0000_0005)), 5);
    assert_eq!(serial_from_clock(Some(1_234)), 1_234);
    assert_eq!(serial_from_clock(None), 413);
    let _ = ogg_serial();
}

#[test]
fn writer_pages_read_back_with_the_ogg_crate() {
    let mut w = OggOpusWriter::new(16_000);
    w.write_opus_head(&build_opus_head());
    w.write_opus_tags();
    w.write_audio_packet(&[10u8; 300], 320);
    w.write_audio_packet(&[11u8; 3], 320);
    let packets = packets_of(w.into_bytes());
    assert_eq!(packets.len(), 4);
    assert_eq!(packets[0].data, build_opus_head());
    assert_eq!(packets[2].data, vec![10u8; 300]);
    assert_eq!(packets[2].absgp_page(), 960);
    assert_eq!(packets[3].data, vec![11u8; 3]);
    assert_eq!(packets[3].absgp_page(), 1920);
}

struct FirstSample {
    calls: std::cell::Cell<usize>,
}

impl FrameEncoder<i16> for FirstSample {
    type Error = String;

    fn encode_frame(&self, pcm: &[i16]) -> Result<Vec<u8>, String> {
        self.calls.set(self.calls.get() + 1);
        if pcm[0] < 0 {
            return Err("negative".to_string());
        }
        Ok(vec![(pcm.len() / 4) as u8, pcm[0] as u8, pcm[pcm.len() - 1] as u8])
    }
}

#[test]
fn opus_encoder_frames_and_flushes() {
    let audio: Vec<i16> = (0..700).map(|i| (i % 100) as i16).collect();
    let mut enc = OpusEncoder::new(FirstSample { calls: std::cell::Cell::new(0) }, 312).unwrap();
    enc.feed(&audio[..300]).unwrap();
    enc.feed(&audio[300..]).unwrap();
    let (bytes, samples) = enc.finish().unwrap();
    assert_eq!(samples, 700);
    let packets = packets_of(bytes);
    assert_eq!(packets.len(), 5);
    assert_eq!(packets[2].data, vec![80, 0, 19]);
    assert_eq!(packets[3].data, vec![80, 20, 39]);
    assert_eq!(packets[4].data, vec![80, 40, 0], "last frame padded with zeros");
    assert_eq!(packets[4].absgp_page(), 3 * GRANULE_PER_FRAME);
    assert!(packets[4].last_in_stream());
}

#[test]
fn opus_encoder_reports_codec_errors() {
    let mut enc = OpusEncoder::new(FirstSample { calls: std::cell::Cell::new(0) }, 0).unwrap();
    match enc.feed(&[-1i16; 320]) {
        Err(EncodeError::Opus(m)) => assert_eq!(m, "negative"),
        other => panic!("unexpected {other:?}"),
    }
}
