use streamer::assembler::FrameAssembler;
use streamer::supervisor::{Action, Event, Failure, Phase, Supervisor};
use streamer::wire::{decode, decode_header, encode_end, encode_frame, encode_header, Message};

fn image(body: &[u8]) -> Vec<u8> {
    let mut v = vec![0xFF, 0xD8];
    v.extend_from_slice(body);
    v.push(0xFF);
    v.push(0xD9);
    v
}

fn feed(chunks: &[Vec<u8>]) -> (Vec<Vec<u8>>, usize) {
    let mut a = FrameAssembler::new();
    let mut frames = Vec::new();
    for c in chunks {
        frames.extend(a.push_chunk(c));
    }
    (frames, a.pending_len())
}

fn sent(a: Action) -> Vec<u8> {
    match a {
        Action::Send(b) => b,
        _ => panic!("expected a send"),
    }
}

#[test]
fn one_byte_chunks_give_each_image() {
    let imgs = vec![image(&[1, 2, 3]), image(&[0xFF, 0x00, 0xD9]), image(&[])];
    let chunks: Vec<Vec<u8>> = imgs.iter().flatten().map(|b| vec![*b]).collect();
    let (frames, pending) = feed(&chunks);
    assert_eq!(frames, imgs);
    assert_eq!(pending, 0);
}

#[test]
fn marker_split_across_chunks_is_found() {
    let img = image(&[7, 8, 9]);
    let n = img.len();
    let chunks = vec![img[..n - 1].to_vec(), img[n - 1..].to_vec()];
    let (frames, pending) = feed(&chunks);
    assert_eq!(frames, vec![img]);
    assert_eq!(pending, 0);
}

#[test]
fn uneven_chunks_per_image() {
    let a = image(&[10, 11, 12, 13, 14]);
    let b = image(&[20, 21]);
    let chunks = vec![a[..3].to_vec(), a[3..].to_vec(), vec![], b[..1].to_vec(), b[1..].to_vec()];
    let (frames, pending) = feed(&chunks);
    assert_eq!(frames, vec![a, b]);
    assert_eq!(pending, 0);
}

#[test]
fn partial_image_stays_pending() {
    let img = image(&[5, 6]);
    let (frames, pending) = feed(&[img[..4].to_vec()]);
    assert!(frames.is_empty());
    assert_eq!(pending, 4);
}

#[test]
fn reset_drops_partial_frame() {
    let mut a = FrameAssembler::new();
    assert!(a.push_chunk(&[0xFF, 0xD8, 1]).is_empty());
    a.reset();
    assert_eq!(a.pending_len(), 0);
    assert_eq!(a.push_chunk(&[2, 0xFF, 0xD9]), vec![vec![2, 0xFF, 0xD9]]);
}

#[test]
fn header_is_little_endian() {
    assert_eq!(encode_header(0x0102_0304), [4, 3, 2, 1]);
    assert_eq!(encode_header(0), [0, 0, 0, 0]);
    assert_eq!(decode_header(&[4, 3, 2, 1, 99]), 0x0102_0304);
    assert_eq!(decode_header(&[0xFF, 0xFF, 0xFF, 0xFF]), u32::MAX);
}

#[test]
fn frame_takes_four_more_bytes() {
    let f = image(&[1, 2, 3]);
    let w = encode_frame(&f);
    assert_eq!(w.len(), 4 + f.len());
    assert_eq!(&w[..4], &[7, 0, 0, 0]);
    assert_eq!(&w[4..], &f[..]);
}

#[test]
fn frame_round_trip() {
    let f = image(&[42; 300]);
    let mut w = encode_frame(&f);
    w.extend_from_slice(&[9, 9]);
    match decode(&w) {
        Some((Message::Frame(body), used)) => {
            assert_eq!(body, f);
            assert_eq!(used, 4 + f.len());
        }
        _ => panic!("expected a frame"),
    }
}

#[test]
fn end_marker_is_zero_header() {
    let e = encode_end();
    assert_eq!(e, vec![0, 0, 0, 0]);
    assert!(matches!(decode(&e), Some((Message::End, 4))));
}

#[test]
fn short_input_decodes_to_nothing() {
    assert!(decode(&[1, 0, 0]).is_none());
    assert!(decode(&[3, 0, 0, 0, 1, 2]).is_none());
    assert!(decode(&[]).is_none());
}

#[test]
fn smallest_frame_is_not_end() {
    let w = encode_frame(&[0xFF, 0xD9]);
    assert_eq!(w, vec![2, 0, 0, 0, 0xFF, 0xD9]);
    assert!(matches!(decode(&w), Some((Message::Frame(_), 6))));
}

#[test]
fn empty_capture_sends_end_marker_only() {
    let (mut s, a) = Supervisor::start(1);
    assert!(matches!(a, Action::Connect));
    assert!(matches!(s.handle(Event::Connected), Action::LaunchCapture { warmup_secs: 1 }));
    assert_eq!(s.phase(), Phase::Capturing);
    assert!(matches!(s.handle(Event::CaptureStarted), Action::Read));
    assert_eq!(sent(s.handle(Event::CaptureEof)), vec![0, 0, 0, 0]);
    assert_eq!(s.phase(), Phase::Ended);
    assert!(matches!(s.handle(Event::Written), Action::Exit));
}

#[test]
fn frames_are_sent_then_reading_resumes() {
    let (mut s, _) = Supervisor::start(2);
    s.handle(Event::Connected);
    s.handle(Event::CaptureStarted);
    let img = image(&[1, 2]);
    assert!(matches!(s.handle(Event::Chunk(img[..3].to_vec())), Action::Read));
    let bytes = sent(s.handle(Event::Chunk(img[3..].to_vec())));
    assert_eq!(bytes, encode_frame(&img));
    assert!(!s.accepts(&Event::Chunk(vec![1])));
    assert!(matches!(s.handle(Event::Written), Action::Read));
    assert_eq!(s.phase(), Phase::Streaming);
}

#[test]
fn write_failure_restarts_without_old_frame() {
    let (mut s, _) = Supervisor::start(3);
    s.handle(Event::Connected);
    s.handle(Event::CaptureStarted);
    s.handle(Event::Chunk(vec![0xFF, 0xD8, 1, 0xFF]));
    let _ = sent(s.handle(Event::Chunk(vec![0xD9])));
    assert!(matches!(
        s.handle(Event::WriteFailed),
        Action::Sleep { secs: 3, cause: Failure::TransportWrite }
    ));
    assert_eq!(s.phase(), Phase::Failed);
    assert!(matches!(s.handle(Event::DelayElapsed), Action::Connect));
    assert_eq!(s.phase(), Phase::Connecting);
    s.handle(Event::Connected);
    s.handle(Event::CaptureStarted);
    let next = image(&[9]);
    assert_eq!(sent(s.handle(Event::Chunk(next.clone()))), encode_frame(&next));
}

#[test]
fn read_failure_drops_partial_frame() {
    let (mut s, _) = Supervisor::start(1);
    s.handle(Event::Connected);
    s.handle(Event::CaptureStarted);
    s.handle(Event::Chunk(vec![0xFF, 0xD8, 5]));
    assert!(matches!(
        s.handle(Event::ReadFailed),
        Action::Sleep { secs: 1, cause: Failure::CaptureRead }
    ));
    s.handle(Event::DelayElapsed);
    s.handle(Event::Connected);
    s.handle(Event::CaptureStarted);
    assert_eq!(sent(s.handle(Event::Chunk(vec![0xFF, 0xD9]))), vec![2, 0, 0, 0, 0xFF, 0xD9]);
}

#[test]
fn connect_failures_retry_forever() {
    let (mut s, first) = Supervisor::start(5);
    let mut connects = if matches!(first, Action::Connect) { 1 } else { 0 };
    for _ in 0..50 {
        assert!(matches!(
            s.handle(Event::ConnectFailed),
            Action::Sleep { secs: 5, cause: Failure::Connect }
        ));
        if matches!(s.handle(Event::DelayElapsed), Action::Connect) {
            connects += 1;
        }
    }
    assert_eq!(connects, 51);
    assert_eq!(s.phase(), Phase::Connecting);
    assert_eq!(s.delay_secs(), 5);
}

#[test]
fn capture_launch_failure_retries() {
    let (mut s, _) = Supervisor::start(4);
    s.handle(Event::Connected);
    assert!(matches!(
        s.handle(Event::CaptureFailed),
        Action::Sleep { secs: 4, cause: Failure::CaptureLaunch }
    ));
    assert!(matches!(s.handle(Event::DelayElapsed), Action::Connect));
}

#[test]
fn end_marker_write_failure_retries() {
    let (mut s, _) = Supervisor::start(1);
    s.handle(Event::Connected);
    s.handle(Event::CaptureStarted);
    s.handle(Event::CaptureEof);
    assert!(matches!(
        s.handle(Event::WriteFailed),
        Action::Sleep { secs: 1, cause: Failure::TransportWrite }
    ));
}

#[test]
fn only_answers_to_last_action_are_accepted() {
    let (s, _) = Supervisor::start(1);
    assert!(s.accepts(&Event::Connected));
    assert!(s.accepts(&Event::ConnectFailed));
    assert!(!s.accepts(&Event::Written));
    assert!(!s.accepts(&Event::DelayElapsed));
}

#[test]
fn images_in_one_chunk_are_separate_frames() {
    let a = image(&[1]);
    let b = image(&[2]);
    let c = image(&[3, 4]);
    let mut all = a.clone();
    all.extend_from_slice(&b);
    all.extend_from_slice(&c[..3]);
    let (frames, pending) = feed(&[all, c[3..].to_vec()]);
    assert_eq!(frames, vec![a, b, c]);
    assert_eq!(pending, 0);
}

#[test]
fn marker_pairs_alone_are_two_frames() {
    let (frames, pending) = feed(&[vec![0xFF, 0xD9, 0xFF, 0xD9]]);
    assert_eq!(frames, vec![vec![0xFF, 0xD9], vec![0xFF, 0xD9]]);
    assert_eq!(pending, 0);
}

#[test]
fn chunking_does_not_change_frames() {
    let imgs = vec![image(&[1, 0xFF]), image(&[0xD8]), image(&[9, 9, 9])];
    let stream: Vec<u8> = imgs.iter().flatten().copied().collect();
    for size in 1..=stream.len() {
        let chunks: Vec<Vec<u8>> = stream.chunks(size).map(|c| c.to_vec()).collect();
        let (frames, pending) = feed(&chunks);
        assert_eq!(frames, imgs);
        assert_eq!(pending, 0);
    }
}

#[test]
fn frames_of_one_read_are_sent_one_by_one() {
    let (mut s, _) = Supervisor::start(1);
    s.handle(Event::Connected);
    s.handle(Event::CaptureStarted);
    let a = image(&[1]);
    let b = image(&[2, 3]);
    let mut both = a.clone();
    both.extend_from_slice(&b);
    assert_eq!(sent(s.handle(Event::Chunk(both))), encode_frame(&a));
    assert!(!s.accepts(&Event::CaptureEof));
    assert_eq!(sent(s.handle(Event::Written)), encode_frame(&b));
    assert!(matches!(s.handle(Event::Written), Action::Read));
    assert_eq!(sent(s.handle(Event::CaptureEof)), vec![0, 0, 0, 0]);
}

#[test]
fn queued_frames_are_dropped_on_write_failure() {
    let (mut s, _) = Supervisor::start(1);
    s.handle(Event::Connected);
    s.handle(Event::CaptureStarted);
    let a = image(&[1]);
    let mut both = a.clone();
    both.extend_from_slice(&image(&[2]));
    let _ = sent(s.handle(Event::Chunk(both)));
    s.handle(Event::WriteFailed);
    s.handle(Event::DelayElapsed);
    s.handle(Event::Connected);
    assert!(matches!(s.handle(Event::CaptureStarted), Action::Read));
    assert_eq!(sent(s.handle(Event::Chunk(a.clone()))), encode_frame(&a));
    assert!(matches!(s.handle(Event::Written), Action::Read));
}
