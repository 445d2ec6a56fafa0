use std::sync::mpsc;
use std::sync::Arc;

use cap_recording::decoder::codec::{find_decoder, MediaType, PresetCodecs};
use cap_recording::decoder::ffmpeg::{DecodeEvent, FfmpegDecoder, GetFrame};
use cap_recording::decoder::frame::{CachedFrame, CachedFrameData, RgbaFrame};
use cap_recording::decoder::peekable::PeekableReceiver;

/// A one-pixel frame that shows its number.
fn raw(number: u8) -> RgbaFrame {
    RgbaFrame { width: 1, stride: 6, data: vec![number, 0, 0, 255, 9, 9] }
}

fn pixels(number: u8) -> Vec<u8> {
    vec![number, 0, 0, 255]
}

fn identity(frame: RgbaFrame) -> RgbaFrame {
    frame
}

fn never(_: RgbaFrame) -> RgbaFrame {
    panic!("converted twice")
}

fn decode_from(decoder: &mut FfmpegDecoder<RgbaFrame>, requested: u32) -> bool {
    match decoder.get_frame(requested, identity) {
        GetFrame::Decode { seek } => seek,
        GetFrame::Reply(_) => panic!("frame {requested} was cached"),
    }
}

#[test]
fn padding_is_stripped() {
    let frame = RgbaFrame {
        width: 2,
        stride: 10,
        data: (0..35).collect(),
    };
    assert_eq!(
        frame.pack(),
        [0, 1, 2, 3, 4, 5, 6, 7, 10, 11, 12, 13, 14, 15, 16, 17, 20, 21, 22, 23, 24, 25, 26, 27]
    );
    // A single incomplete line.
    let frame = RgbaFrame { width: 2, stride: 4, data: vec![1, 2, 3] };
    assert_eq!(frame.pack(), []);
    // No padding.
    let frame = RgbaFrame { width: 1, stride: 4, data: vec![1, 2, 3, 4, 5, 6, 7, 8] };
    assert_eq!(frame.pack(), [1, 2, 3, 4, 5, 6, 7, 8]);
}

#[test]
fn frame_is_processed_once() {
    let mut frame = CachedFrame { data: CachedFrameData::Raw(raw(7)) };
    let first = frame.process(identity);
    assert_eq!(*first, pixels(7));
    let second = frame.process(never);
    assert!(Arc::ptr_eq(&first, &second));
}

#[test]
fn requested_frame_is_sent_when_it_is_decoded() {
    let mut decoder = FfmpegDecoder::new(4);
    assert!(decode_from(&mut decoder, 2));
    for current in 0..2 {
        let step = decoder.decoded(raw(current), current as u32, identity);
        assert!(step.reply.is_none() && step.more);
    }
    let step = decoder.decoded(raw(2), 2, identity);
    assert_eq!(*step.reply.unwrap(), pixels(2));
    assert!(!step.more);
    assert!(decoder.finish().is_none());
    // The frames on the way are cached, and so is the sent frame.
    assert!(decoder.is_cached(0) && decoder.is_cached(1) && decoder.is_cached(2));
    // Going on without a seek.
    assert!(!decode_from(&mut decoder, 3));
}

#[test]
fn cached_frame_is_sent_again() {
    let mut decoder = FfmpegDecoder::new(4);
    decode_from(&mut decoder, 2);
    decoder.decoded(raw(1), 1, identity);
    assert!(decoder.finish().is_none());
    let first = match decoder.get_frame(1, identity) {
        GetFrame::Reply(frame) => frame,
        GetFrame::Decode { .. } => panic!("not cached"),
    };
    assert_eq!(*first, pixels(1));
    match decoder.get_frame(1, never) {
        GetFrame::Reply(frame) => assert!(Arc::ptr_eq(&first, &frame)),
        GetFrame::Decode { .. } => panic!("not cached"),
    }
}

#[test]
fn repeated_request_is_answered_from_the_cache() {
    let mut decoder = FfmpegDecoder::new(2);
    decode_from(&mut decoder, 9);
    for current in [8, 10] {
        decoder.decoded(raw(current), current as u32, identity);
    }
    decoder.finish();

    // The cache is full: the sent frame takes the place of another.
    decode_from(&mut decoder, 12);
    let first = decoder.decoded(raw(12), 12, identity).reply.unwrap();
    assert!(decoder.finish().is_none());
    assert!(!decoder.is_cached(8) && decoder.is_cached(10));
    match decoder.get_frame(12, never) {
        GetFrame::Reply(again) => assert!(Arc::ptr_eq(&first, &again)),
        GetFrame::Decode { .. } => panic!("not cached"),
    }
}

#[test]
fn request_ends() {
    // With the reply.
    let mut decoder = FfmpegDecoder::new(4);
    decode_from(&mut decoder, 5);
    let step = decoder.next(DecodeEvent::Frame { frame: raw(4), current_frame: 4 }, identity);
    assert!(step.reply.is_none() && step.more);
    let step = decoder.next(DecodeEvent::Frame { frame: raw(5), current_frame: 5 }, identity);
    assert_eq!(*step.reply.unwrap(), pixels(5));
    assert!(!step.more);
    assert!(decoder.finish().is_none());
    // Without one: the frame sent last stands in.
    for event in [
        DecodeEvent::RequestWaiting,
        DecodeEvent::EndOfVideo,
        DecodeEvent::DecodingFailed,
    ] {
        decode_from(&mut decoder, 7);
        let step = decoder.next(event, identity);
        assert_eq!(*step.reply.unwrap(), pixels(5));
        assert!(!step.more);
        assert!(decoder.finish().is_none());
    }
}

#[test]
fn jumps_seek() {
    let mut decoder = FfmpegDecoder::new(4);
    // Nothing sent yet.
    assert!(decode_from(&mut decoder, 10));
    decoder.decoded(raw(10), 10, identity);
    decoder.finish();
    // Backwards, far ahead, and the first frame seek; a short way ahead does not.
    assert!(decode_from(&mut decoder, 9));
    decoder.finish();
    assert!(decode_from(&mut decoder, 15));
    decoder.finish();
    assert!(!decode_from(&mut decoder, 14));
    decoder.finish();
    assert!(decode_from(&mut decoder, 0));
}

#[test]
fn skipped_frame_is_replaced_by_the_one_before() {
    let mut decoder = FfmpegDecoder::new(8);
    decode_from(&mut decoder, 3);
    assert!(decoder.decoded(raw(2), 2, identity).reply.is_none());
    let step = decoder.decoded(raw(5), 5, identity);
    assert_eq!(*step.reply.unwrap(), pixels(2));
    // Decoding goes on, but nobody waits any more.
    assert!(step.more);
    let step = decoder.decoded(raw(3), 3, identity);
    assert!(step.reply.is_none() && step.more);
    assert!(decoder.finish().is_none());
    assert!(decoder.is_cached(2) && decoder.is_cached(3) && decoder.is_cached(5));
}

#[test]
fn skipped_frame_is_lost_without_the_one_before() {
    let mut decoder = FfmpegDecoder::new(2);
    decode_from(&mut decoder, 10);
    // Frame 8 lies before the window of frame 10 and is not cached.
    assert!(decoder.decoded(raw(8), 8, identity).more);
    assert!(!decoder.is_cached(8));
    let step = decoder.decoded(raw(11), 11, identity);
    assert!(step.reply.is_none() && !step.more);
    assert!(!decoder.is_cached(11));
    assert!(decoder.finish().is_none());
}

#[test]
fn full_cache_makes_room() {
    let mut decoder = FfmpegDecoder::new(3);
    decode_from(&mut decoder, 20);
    for current in [19, 21, 22] {
        decoder.decoded(raw(current), current as u32, identity);
    }
    // A frame beyond the cache takes the place of the first one.
    decoder.decoded(raw(23), 23, identity);
    assert!(!decoder.is_cached(19));
    assert!(decoder.is_cached(21) && decoder.is_cached(22) && decoder.is_cached(23));
    // Any other takes the place of the last one.
    decoder.decoded(raw(19), 19, identity);
    assert!(!decoder.is_cached(23));
    assert!(decoder.is_cached(19) && decoder.is_cached(21) && decoder.is_cached(22));
}

#[test]
fn last_sent_frame_stands_in() {
    let mut decoder = FfmpegDecoder::new(4);
    // Nothing sent yet: no reply.
    decode_from(&mut decoder, 5);
    assert!(decoder.finish().is_none());
    decode_from(&mut decoder, 5);
    decoder.decoded(raw(5), 5, identity);
    assert!(decoder.finish().is_none());
    // An earlier frame stands in for a later one.
    decode_from(&mut decoder, 7);
    assert_eq!(*decoder.finish().unwrap(), pixels(5));
    // A later frame stands in for an earlier one...
    decode_from(&mut decoder, 4);
    assert_eq!(*decoder.finish().unwrap(), pixels(5));
    // ...unless decoding has passed the window.
    decode_from(&mut decoder, 4);
    decoder.decoded(raw(7), 7, identity);
    assert!(decoder.finish().is_none());
    // Passing the window does not matter for an earlier frame.
    assert!(decode_from(&mut decoder, 12));
    assert!(decoder.decoded(raw(20), 20, identity).reply.is_none());
    assert_eq!(*decoder.finish().unwrap(), pixels(5));
}

#[test]
fn peeked_message_is_received_next() {
    let (tx, rx) = mpsc::channel();
    let mut receiver = PeekableReceiver::new(rx);
    assert_eq!(receiver.peek(), None);
    tx.send(1).unwrap();
    tx.send(2).unwrap();
    assert_eq!(receiver.peek(), Some(&1));
    assert_eq!(receiver.peek(), Some(&1));
    assert_eq!(receiver.recv(), Ok(1));
    assert_eq!(receiver.recv(), Ok(2));
    drop(tx);
    assert_eq!(receiver.peek(), None);
    assert!(receiver.recv().is_err());
}

#[test]
fn peeking_loses_nothing() {
    let (tx, rx) = mpsc::channel();
    tx.send(1).unwrap();
    tx.send(2).unwrap();
    let mut receiver = PeekableReceiver::new(rx);
    receiver.peek();
    drop(tx);
    receiver.peek();
    assert_eq!(receiver.recv(), Ok(1));
    assert_eq!(receiver.recv(), Ok(2));
    assert_eq!(receiver.recv(), Err(mpsc::RecvError));
}

#[test]
fn messages_come_in_order_among_peeks() {
    let (tx, rx) = mpsc::channel();
    let mut receiver = PeekableReceiver::new(rx);
    let mut received = Vec::new();
    for round in 0..4 {
        tx.send(2 * round).unwrap();
        tx.send(2 * round + 1).unwrap();
        for peeks in [0, 2] {
            let next = received.len();
            for _ in 0..peeks {
                assert_eq!(receiver.peek(), Some(&next));
            }
            received.push(receiver.recv().unwrap());
        }
        assert_eq!(receiver.peek(), None);
    }
    assert_eq!(received, [0, 1, 2, 3, 4, 5, 6, 7]);
}

#[test]
fn prescribed_codec_wins() {
    let presets = || PresetCodecs { video: Some("h264"), audio: Some("aac"), subtitle: None };
    assert_eq!(
        find_decoder(MediaType::Video, presets(), || panic!("looked up")),
        Some("h264")
    );
    assert_eq!(
        find_decoder(MediaType::Audio, presets(), || panic!("looked up")),
        Some("aac")
    );
    assert_eq!(find_decoder(MediaType::Subtitle, presets(), || Some("srt")), Some("srt"));
    assert_eq!(find_decoder(MediaType::Other, presets(), || None), None);
}
