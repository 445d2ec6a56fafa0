use cap_recording::capture_pipeline::{
    aligned_pts, audio_pts, instant_stages, studio_stages, AudioClock, CaptureMethod, FirstFrame,
    InstantEncoder, InstantStep, Stage, StudioEncoder,
};

#[test]
fn stages_of_a_studio_recording() {
    assert_eq!(
        studio_stages(CaptureMethod::CmSampleBuffer),
        [Stage::ScreenEncoding, Stage::ScreenCapture]
    );
    assert_eq!(
        studio_stages(CaptureMethod::AvFrame),
        [Stage::ScreenCapture, Stage::ScreenEncoding]
    );
}

#[test]
fn stages_of_an_instant_recording() {
    assert_eq!(
        instant_stages(CaptureMethod::CmSampleBuffer, true, true),
        [
            Stage::MicrophoneCapture,
            Stage::AudioMixer,
            Stage::AudioEncoding,
            Stage::ScreenEncoding,
            Stage::ScreenCapture
        ]
    );
    assert_eq!(
        instant_stages(CaptureMethod::AvFrame, false, true),
        [
            Stage::AudioMixer,
            Stage::AudioEncoding,
            Stage::ScreenCapture,
            Stage::ScreenEncoding
        ]
    );
    assert_eq!(
        instant_stages(CaptureMethod::AvFrame, false, false),
        [Stage::ScreenCapture, Stage::ScreenEncoding]
    );
}

#[test]
fn first_frame_starts_a_studio_recording() {
    let mut cm = StudioEncoder::new(CaptureMethod::CmSampleBuffer);
    assert!(!cm.closed());
    let step = cm.frame(1.5);
    assert_eq!((step.send_timestamp, step.queue_frame), (Some(1.5), false));
    let step = cm.frame(2.5);
    assert_eq!((step.send_timestamp, step.queue_frame), (None, true));
    assert!(cm.closed());

    let mut av = StudioEncoder::new(CaptureMethod::AvFrame);
    assert!(av.closed());
    let step = av.frame(1.5);
    assert_eq!((step.send_timestamp, step.queue_frame), (Some(1.5), true));
    let step = av.frame(2.5);
    assert_eq!((step.send_timestamp, step.queue_frame), (None, true));
    assert!(av.closed());
}

#[test]
fn instant_recording_pauses_and_announces() {
    let mut cm = InstantEncoder::new(CaptureMethod::CmSampleBuffer);
    assert_eq!(cm.frame(true), InstantStep { set_paused: Some(true), announce: true });
    assert_eq!(cm.frame(false), InstantStep { set_paused: Some(false), announce: false });

    let mut av = InstantEncoder::new(CaptureMethod::AvFrame);
    assert_eq!(av.frame(true), InstantStep { set_paused: None, announce: false });
    assert_eq!(av.frame(false), InstantStep { set_paused: None, announce: false });
}

#[test]
fn audio_waits_for_the_first_frame() {
    let mut clock: AudioClock<f64> = AudioClock::new();
    assert!(clock.frame(None).is_none());
    let first = FirstFrame { value: 7, scale: 1_000_000_000, unix_time: 0.5 };
    assert_eq!(clock.frame(Some(first)).unwrap().value, 7);
    let first = clock.frame(None).unwrap();
    assert_eq!((first.value, first.scale, first.unix_time), (7, 1_000_000_000, 0.5));
}

#[test]
fn audio_timestamps_are_rescaled() {
    assert_eq!(audio_pts(5_123_456_789, 1_000_000_000), 5_123_456);
    assert_eq!(audio_pts(-1_999, 1_000_000_000), -1);
    assert_eq!(audio_pts(42, 1_000_000), 42);
    assert_eq!(audio_pts(-42, -2_000_000), 21);
    assert_eq!(audio_pts(43, -2_500_000), -21);
}

#[test]
fn audio_is_aligned_with_the_first_frame() {
    assert_eq!(aligned_pts(5_000_000_000, 123_456_789, 1_000_000_000), Some(5_123_456));
    assert_eq!(aligned_pts(i64::MAX, 1, 1_000_000_000), None);
    assert_eq!(aligned_pts(i64::MIN, -1, 1_000_000_000), None);
    // A clock that is slower than the audio clock.
    assert_eq!(aligned_pts(1, 1, 600), None);
    assert_eq!(aligned_pts(i64::MIN, 0, -1_000_000), None);
    assert_eq!(aligned_pts(i64::MIN, 1, -1_000_000), Some(i64::MAX));
}
