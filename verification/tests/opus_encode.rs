use std::cell::RefCell;

use bark_core::ogg_opus::{FrameEncoder, OpusOggEncoder};

/// A stand-in codec: each packet records the frame length and its first
/// and last samples.
struct Recorder {
    frames: RefCell<Vec<Vec<i16>>>,
    fail_at: Option<usize>,
}

impl FrameEncoder<i16> for Recorder {
    type Error = String;

    fn encode_frame(&self, pcm: &[i16]) -> Result<Vec<u8>, String> {
        if self.fail_at == Some(self.frames.borrow().len()) {
            return Err("codec failed".to_string());
        }
        self.frames.borrow_mut().push(pcm.to_vec());
        Ok(vec![(pcm.len() / 16) as u8, pcm[0] as u8, pcm[pcm.len() - 1] as u8])
    }
}

fn granules(bytes: &[u8]) -> Vec<(u8, u64)> {
    let mut out = Vec::new();
    let mut rest = bytes;
    while !rest.is_empty() {
        let nseg = rest[26] as usize;
        let body: usize = rest[27..27 + nseg].iter().map(|&s| s as usize).sum();
        out.push((rest[5], u64::from_le_bytes(rest[6..14].try_into().unwrap())));
        rest = &rest[27 + nseg + body..];
    }
    out
}

#[test]
fn encode_all_of_nothing_is_empty() {
    let codec = Recorder { frames: RefCell::new(Vec::new()), fail_at: None };
    let out = OpusOggEncoder::new(24).encode_all::<i16, _>(&[], &codec).unwrap();
    assert!(out.is_empty());
    assert!(codec.frames.borrow().is_empty());
}

#[test]
fn encode_all_pads_last_frame_and_counts_granules() {
    let audio: Vec<i16> = (1..=700).collect();
    let codec = Recorder { frames: RefCell::new(Vec::new()), fail_at: None };
    let enc = OpusOggEncoder::new(24);
    assert_eq!(enc.bitrate_kbps(), 24);
    let out = enc.encode_all(&audio, &codec).unwrap();
    assert_eq!(codec.frames.borrow().len(), 3);
    assert!(codec.frames.borrow().iter().all(|f| f.len() == 320));
    assert_eq!(codec.frames.borrow()[2][59], 700);
    assert!(codec.frames.borrow()[2][60..].iter().all(|&s| s == 0));
    assert_eq!(
        granules(&out),
        vec![(2, 0), (0, 0), (0, 960), (0, 1920), (0, 2100), (4, 2100)]
    );
}

#[test]
fn encode_all_passes_codec_errors_on() {
    let audio = vec![5i16; 1000];
    let codec = Recorder { frames: RefCell::new(Vec::new()), fail_at: Some(1) };
    let res = OpusOggEncoder::new(24).encode_all(&audio, &codec);
    assert_eq!(res, Err("codec failed".to_string()));
}
