use bark_core::chunker::{CallbackResult, Chunker, FrameCallback};

#[test]
fn chunker_collects_whole_frames() {
    let mut c: Chunker<i16, 4> = Chunker::new();
    assert!(c.feed_frames(&[1, 2, 3]).is_empty());
    let frames = c.feed_frames(&[4, 5, 6, 7, 8, 9]);
    assert_eq!(frames, vec![vec![1, 2, 3, 4], vec![5, 6, 7, 8]]);
    assert_eq!(c.finish(), Some(vec![9, 0, 0, 0]));
    assert_eq!(c.finish(), None);
}

#[test]
fn chunker_frames_do_not_depend_on_the_pieces() {
    let data: Vec<u8> = (0..37).collect();
    let mut whole: Chunker<u8, 5> = Chunker::new();
    let mut expected = whole.feed_frames(&data);
    expected.extend(whole.finish());
    for piece in 1..9 {
        let mut c: Chunker<u8, 5> = Chunker::new();
        let mut got = Vec::new();
        for chunk in data.chunks(piece) {
            got.extend(c.feed_frames(chunk));
        }
        got.extend(c.finish());
        assert_eq!(got, expected, "pieces of {piece}");
    }
    assert_eq!(expected.len(), 8);
    assert_eq!(expected[7], vec![35, 36, 0, 0, 0]);
}

#[test]
fn chunker_reset_drops_pending() {
    let mut c: Chunker<i32, 3> = Chunker::new();
    assert!(c.feed_frames(&[1, 2]).is_empty());
    c.reset();
    assert_eq!(c.finish(), None);
    assert_eq!(c.feed_frames(&[3, 4, 5]), vec![vec![3, 4, 5]]);
}

#[test]
fn callback_results() {
    let ok: Result<(), String> = CallbackResult::ok();
    assert_eq!(ok, Ok(()));
    assert_eq!(CallbackResult::err(ok), None);
    let failed: Result<(), String> = Err("stop".to_string());
    assert_eq!(CallbackResult::err(failed), Some(Err("stop".to_string())));
    let unit: () = CallbackResult::ok();
    assert_eq!(CallbackResult::err(unit), None);
}

#[test]
fn feed_calls_back_on_each_frame() {
    let mut c: Chunker<i16, 3> = Chunker::new();
    let mut seen: Vec<Vec<i16>> = Vec::new();
    let mut cb = FrameCallback::<i16, Result<(), String>, _>::new(|f: &[i16]| {
        seen.push(f.to_vec());
        Ok(())
    });
    let r = c.feed(&[1, 2, 3, 4, 5, 6, 7], &mut cb);
    drop(cb);
    assert_eq!(r, Ok(()));
    assert_eq!(seen, vec![vec![1, 2, 3], vec![4, 5, 6]]);
    assert_eq!(c.finish(), Some(vec![7, 0, 0]));
}

#[test]
fn failing_callback_stops_and_drops_the_rest() {
    let mut c: Chunker<i16, 2> = Chunker::new();
    let mut quiet = FrameCallback::<i16, (), _>::new(|_f: &[i16]| ());
    c.feed(&[9], &mut quiet);
    let mut seen: Vec<Vec<i16>> = Vec::new();
    let mut cb = FrameCallback::<i16, Result<(), String>, _>::new(|f: &[i16]| {
        seen.push(f.to_vec());
        if f[0] == 2 {
            Err(format!("bad frame {}", f[1]))
        } else {
            Ok(())
        }
    });
    let r = c.feed(&[1, 2, 3, 4, 5], &mut cb);
    drop(cb);
    assert_eq!(r, Err("bad frame 3".to_string()));
    assert_eq!(seen, vec![vec![9, 1], vec![2, 3]]);
    assert_eq!(c.finish(), None);
}
