use cap_recording::camera_heal::heal::{
    any_healed, HealAction, HealEvent, HealOutcome, SegmentHeal, SegmentTracks, TrackInfo,
};
use cap_recording::camera_heal::laws::MAX_HEAL_STEPS;
use cap_recording::camera_heal::paths::{
    backup_path_for, healed_path_for, PathPart, TrackPath,
};
use cap_recording::camera_heal::stretch::{
    evaluate_stretch, predicted_span, verify_healed_span, Reference, ReferenceTrack,
    StretchDecision,
};
use cap_recording::units::Ratio;

const USER_REPORT_CAMERA_SECS: f64 = 13.666;

fn ns(secs: f64) -> i128 {
    (secs * 1e9).round() as i128
}

fn references(spans: &[(&str, f64)]) -> Vec<Reference> {
    spans
        .iter()
        .map(|(name, span)| Reference {
            track: match *name {
                "display" => ReferenceTrack::Display,
                "mic" => ReferenceTrack::Mic,
                "system-audio" => ReferenceTrack::SystemAudio,
                other => panic!("unknown track {other}"),
            },
            span_ns: ns(*span),
        })
        .collect()
}

fn evaluate(camera_secs: f64, spans: &[(&str, f64)]) -> Option<StretchDecision> {
    evaluate_stretch(ns(camera_secs) as u64, &references(spans))
}

fn value(ratio: Ratio) -> f64 {
    ratio.num as f64 / ratio.den as f64
}

fn user_report_references() -> Vec<(&'static str, f64)> {
    // From the original report: display 6.75s starting at 0.302s, mic 6.91s
    // starting at 0.102s, camera starting at 0.149s.
    vec![
        ("display", 6.75 + (0.302 - 0.149)),
        ("mic", 6.91 + (0.102 - 0.149)),
    ]
}

#[test]
fn detects_the_reported_double_length_camera() {
    let decision = evaluate(USER_REPORT_CAMERA_SECS, &user_report_references())
        .expect("the reported recording must be detected");
    let ratio = value(decision.ratio);
    let scale = value(decision.scale);
    assert!((ratio - 2.0).abs() < 0.05, "ratio {}", ratio);
    assert!((scale - 0.5).abs() < 0.02, "scale {}", scale);
}

#[test]
fn healthy_recording_is_left_alone() {
    assert_eq!(evaluate(6.9, &[("display", 6.75), ("mic", 6.91)]), None);
}

#[test]
fn camera_slightly_longer_than_references_is_left_alone() {
    // Cameras legitimately run a little past the other tracks.
    assert_eq!(evaluate(7.4, &[("display", 6.75), ("mic", 6.91)]), None);
}

#[test]
fn display_dying_early_does_not_trigger_heal() {
    // Display stopped at half-time but the mic kept going: references
    // disagree, so the long camera is trusted.
    assert_eq!(evaluate(60.0, &[("display", 30.0), ("mic", 59.5)]), None);
}

#[test]
fn display_only_requires_doubling_ratio() {
    // Without audio, a 2x camera is healed...
    assert!(evaluate(13.6, &[("display", 6.8)]).is_some());
    // ...but a 3x mismatch (not a rate-doubling signature) is not.
    assert_eq!(evaluate(20.4, &[("display", 6.8)]), None);
    // ...nor is a display that died at two-thirds.
    assert_eq!(evaluate(90.0, &[("display", 60.0)]), None);
}

#[test]
fn short_recordings_are_not_healed() {
    assert_eq!(evaluate(3.0, &[("display", 1.5), ("mic", 1.5)]), None);
}

#[test]
fn below_ratio_threshold_is_left_alone() {
    assert_eq!(evaluate(3.1, &[("display", 2.1), ("mic", 2.1)]), None);
}

#[test]
fn decision_is_exact() {
    let decision = evaluate(14.0, &[("display", 6.5), ("system-audio", 7.0)]).unwrap();
    assert_eq!(
        decision,
        StretchDecision {
            expected_span_ns: 7_000_000_000,
            ratio: Ratio { num: 14_000_000_000, den: 7_000_000_000 },
            scale: Ratio { num: 7_000_000_000, den: 14_000_000_000 },
        }
    );
    assert_eq!(
        14_000_000_000 * decision.scale.num,
        decision.expected_span_ns * decision.scale.den
    );
}

#[test]
fn thresholds_of_the_signature() {
    // No reference at all.
    assert_eq!(evaluate(14.0, &[]), None);
    // A ratio of exactly 1.5 is enough, and one second more is.
    assert!(evaluate(3.0, &[("mic", 2.0)]).is_some());
    assert_eq!(evaluate(2.999_999_999, &[("mic", 2.0)]), None);
    // Audio references allow larger ratios than the display alone.
    assert!(evaluate(30.0, &[("mic", 10.0)]).is_some());
    assert_eq!(evaluate(30.0, &[("display", 10.0)]), None);
    assert!(evaluate(16.0, &[("display", 10.0)]).is_some());
    assert!(evaluate(26.0, &[("display", 10.0)]).is_some());
    assert_eq!(evaluate(15.9, &[("display", 10.0)]), None);
    assert_eq!(evaluate(26.1, &[("display", 10.0)]), None);
    // References may differ by 15 percent of the larger one.
    assert!(evaluate(40.0, &[("display", 17.0), ("mic", 20.0)]).is_some());
    assert_eq!(evaluate(40.0, &[("display", 16.9), ("mic", 20.0)]), None);
    assert_eq!(evaluate(8.0, &[("display", 4.0), ("mic", 3.2)]), None);
    assert!(evaluate(8.0, &[("display", 4.0), ("mic", 3.4)]).is_some());
    assert_eq!(evaluate(8.0, &[("display", 4.0), ("mic", 3.399)]), None);
}

#[test]
fn spans_are_predicted_from_start_times() {
    assert_eq!(
        predicted_span(6_750_000_000, Some(302_000_000), Some(149_000_000)),
        6_903_000_000
    );
    assert_eq!(predicted_span(6_910_000_000, None, Some(149_000_000)), 6_761_000_000);
    assert_eq!(predicted_span(5, None, None), 5);
    assert_eq!(
        predicted_span(u64::MAX, Some(i64::MAX), Some(i64::MIN)),
        u64::MAX as i128 * 2
    );
}

#[test]
fn healed_span_tolerance() {
    assert!(verify_healed_span(1_000, 1_000));
    assert!(verify_healed_span(1_000, 1_050));
    assert!(verify_healed_span(1_000, 950));
    assert!(!verify_healed_span(1_000, 1_051));
    assert!(!verify_healed_span(1_000, 949));
}

#[test]
fn healed_track_is_not_stretched() {
    let spans = [("display", 6.8), ("mic", 7.0)];
    let decision = evaluate(14.0, &spans).unwrap();
    assert!(verify_healed_span(decision.expected_span_ns, 7_300_000_000));
    assert_eq!(evaluate(7.3, &spans), None);
}

fn path(names: &[&str]) -> TrackPath {
    TrackPath {
        parts: names
            .iter()
            .map(|name| PathPart { bytes: name.as_bytes().to_vec(), is_name: *name != ".." })
            .collect(),
    }
}

fn texts(path: &TrackPath) -> Vec<&str> {
    path.parts.iter().map(|part| std::str::from_utf8(&part.bytes).unwrap()).collect()
}

#[test]
fn backup_stands_beside_the_camera_track() {
    assert_eq!(
        texts(&backup_path_for(&path(&["content", "segments", "camera.mp4"]))),
        ["content", "segments", "camera.original.mp4"]
    );
    assert_eq!(texts(&backup_path_for(&path(&["content", ".."]))), [
        "content",
        "..",
        "camera.original.mp4"
    ]);
    assert_eq!(texts(&backup_path_for(&path(&[]))), ["camera.original.mp4"]);
}

#[test]
fn paths_follow_the_standard_library() {
    for name in ["camera.mp4", "camera", ".camera", "a.b.c", ".a.b", "camera.", "ünïcode.mp4"] {
        let std_path = std::path::Path::new("segment").join(name);
        let ours = path(&["segment", name]);
        let healed = std_path.with_extension("healed.mp4");
        assert_eq!(
            texts(&healed_path_for(&ours)).join("/"),
            healed.to_str().unwrap().replace('\\', "/")
        );
        let backup = std_path.with_file_name("camera.original.mp4");
        assert_eq!(
            texts(&backup_path_for(&ours)).join("/"),
            backup.to_str().unwrap().replace('\\', "/")
        );
        assert_ne!(texts(&healed_path_for(&ours)), texts(&ours));
        assert_ne!(texts(&healed_path_for(&ours)), texts(&backup_path_for(&ours)));
    }
    assert_eq!(texts(&healed_path_for(&path(&["a", ".."]))), ["a", ".."]);
}

#[test]
fn names_need_not_be_unicode() {
    let camera = TrackPath {
        parts: vec![PathPart { bytes: vec![0xff, b'.', b'a'], is_name: true }],
    };
    assert_eq!(healed_path_for(&camera).parts[0].bytes, b"\xff.healed.mp4");
    assert_eq!(backup_path_for(&camera).parts[0].bytes, b"camera.original.mp4");
}

fn tracks() -> SegmentTracks {
    SegmentTracks {
        camera: Some(TrackInfo { start_ns: Some(149_000_000) }),
        display: TrackInfo { start_ns: Some(302_000_000) },
        mic: Some(TrackInfo { start_ns: Some(102_000_000) }),
        system_audio: None,
    }
}

/// Reports the events in turn and returns the actions that they answered.
fn drive(heal: &mut SegmentHeal, events: &[HealEvent]) -> Vec<HealAction> {
    let mut actions = Vec::new();
    for event in events {
        assert!(heal.accepts(*event), "{:?} after {:?}", event, heal.action());
        actions.push(heal.action());
        heal.advance(*event);
    }
    actions
}

fn judged() -> SegmentHeal {
    let mut heal = SegmentHeal::new(tracks());
    let actions = drive(
        &mut heal,
        &[
            HealEvent::Exists(false),
            HealEvent::Duration(Some(13_666_000_000)),
            HealEvent::Duration(Some(6_750_000_000)),
            HealEvent::Duration(Some(6_910_000_000)),
        ],
    );
    assert_eq!(
        actions,
        [
            HealAction::CheckBackup,
            HealAction::ProbeCamera,
            HealAction::ProbeReference(ReferenceTrack::Display),
            HealAction::ProbeReference(ReferenceTrack::Mic),
        ]
    );
    assert_eq!(heal.action(), HealAction::ClearHealed);
    assert_eq!(heal.decision().unwrap().expected_span_ns, 6_903_000_000);
    heal
}

#[test]
fn heal_succeeds() {
    let mut heal = judged();
    let scale = Ratio { num: 6_903_000_000, den: 13_666_000_000 };
    let actions = drive(
        &mut heal,
        &[
            HealEvent::Finished(false),
            HealEvent::Finished(true),
            HealEvent::Duration(Some(6_900_000_000)),
            HealEvent::Finished(true),
            HealEvent::Finished(true),
            HealEvent::Fps(Some(60)),
        ],
    );
    assert_eq!(
        actions,
        [
            HealAction::ClearHealed,
            HealAction::Rescale(scale),
            HealAction::ProbeHealed,
            HealAction::BackUpOriginal,
            HealAction::InstallHealed,
            HealAction::ProbeFps,
        ]
    );
    assert_eq!(heal.action(), HealAction::Done);
    assert_eq!(heal.outcome(), HealOutcome { healed: true, fps: Some(60) });
}

#[test]
fn unknown_frame_rate_is_not_kept() {
    for fps in [None, Some(0)] {
        let mut heal = judged();
        drive(
            &mut heal,
            &[
                HealEvent::Finished(true),
                HealEvent::Finished(true),
                HealEvent::Duration(Some(6_900_000_000)),
                HealEvent::Finished(true),
                HealEvent::Finished(true),
                HealEvent::Fps(fps),
            ],
        );
        assert_eq!(heal.outcome(), HealOutcome { healed: true, fps: None });
    }
}

#[test]
fn heal_is_abandoned_when_a_step_fails() {
    let not_healed = HealOutcome { healed: false, fps: None };

    // Rescaling fails.
    let mut heal = judged();
    drive(&mut heal, &[HealEvent::Finished(true), HealEvent::Finished(false)]);
    assert_eq!(heal.action(), HealAction::DiscardHealed);
    drive(&mut heal, &[HealEvent::Finished(true)]);
    assert_eq!((heal.action(), heal.outcome()), (HealAction::Done, not_healed));

    // The rescaled track has the wrong duration, or none.
    for duration in [None, Some(13_666_000_000)] {
        let mut heal = judged();
        drive(
            &mut heal,
            &[
                HealEvent::Finished(true),
                HealEvent::Finished(true),
                HealEvent::Duration(duration),
            ],
        );
        assert_eq!(heal.action(), HealAction::DiscardHealed);
    }

    // The original cannot be moved.
    let mut heal = judged();
    drive(
        &mut heal,
        &[
            HealEvent::Finished(true),
            HealEvent::Finished(true),
            HealEvent::Duration(Some(6_903_000_000)),
            HealEvent::Finished(false),
        ],
    );
    assert_eq!(heal.action(), HealAction::DiscardHealed);

    // The rescaled track cannot be installed: the original goes back.
    let mut heal = judged();
    drive(
        &mut heal,
        &[
            HealEvent::Finished(true),
            HealEvent::Finished(true),
            HealEvent::Duration(Some(6_903_000_000)),
            HealEvent::Finished(true),
            HealEvent::Finished(false),
        ],
    );
    assert_eq!(heal.action(), HealAction::RestoreOriginal);
    drive(&mut heal, &[HealEvent::Finished(true)]);
    assert_eq!(heal.action(), HealAction::DiscardHealed);
    drive(&mut heal, &[HealEvent::Finished(false)]);
    assert_eq!((heal.action(), heal.outcome()), (HealAction::Done, not_healed));
}

#[test]
fn nothing_to_heal() {
    // No camera track.
    let heal = SegmentHeal::new(SegmentTracks { camera: None, ..tracks() });
    assert_eq!(heal.action(), HealAction::Done);

    // Healed before.
    let mut heal = SegmentHeal::new(tracks());
    drive(&mut heal, &[HealEvent::Exists(true)]);
    assert_eq!(heal.action(), HealAction::Done);

    // No duration.
    let mut heal = SegmentHeal::new(tracks());
    drive(&mut heal, &[HealEvent::Exists(false), HealEvent::Duration(None)]);
    assert_eq!(heal.action(), HealAction::Done);

    // Not stretched.
    let mut heal = SegmentHeal::new(tracks());
    drive(
        &mut heal,
        &[
            HealEvent::Exists(false),
            HealEvent::Duration(Some(6_900_000_000)),
            HealEvent::Duration(Some(6_750_000_000)),
            HealEvent::Duration(Some(6_910_000_000)),
        ],
    );
    assert_eq!(heal.action(), HealAction::Done);
    assert!(heal.decision().is_none());
    assert!(!heal.accepts(HealEvent::Exists(true)));
}

#[test]
fn references_are_probed_as_far_as_they_exist() {
    let mut heal = SegmentHeal::new(SegmentTracks {
        mic: None,
        system_audio: Some(TrackInfo { start_ns: None }),
        ..tracks()
    });
    let actions = drive(
        &mut heal,
        &[
            HealEvent::Exists(false),
            HealEvent::Duration(Some(14_000_000_000)),
            HealEvent::Duration(None),
            HealEvent::Duration(Some(7_149_000_000)),
        ],
    );
    assert_eq!(actions[2], HealAction::ProbeReference(ReferenceTrack::Display));
    assert_eq!(actions[3], HealAction::ProbeReference(ReferenceTrack::SystemAudio));
    assert_eq!(heal.decision().unwrap().expected_span_ns, 7_000_000_000);
}

#[test]
fn recording_is_saved_if_anything_was_healed() {
    let no = HealOutcome { healed: false, fps: None };
    let yes = HealOutcome { healed: true, fps: None };
    assert!(!any_healed(&vec![]));
    assert!(!any_healed(&vec![no, no]));
    assert!(any_healed(&vec![no, yes]));
}

/// The three files of a heal, and what an action does to them.
#[derive(Clone, PartialEq, Debug)]
struct Files {
    camera: Option<&'static str>,
    backup: Option<&'static str>,
    healed: Option<&'static str>,
}

fn perform(action: HealAction, event: HealEvent, files: &mut Files) {
    match (action, event) {
        (HealAction::Rescale(_), _) => files.healed = Some("rescaled"),
        (HealAction::ClearHealed | HealAction::DiscardHealed, HealEvent::Finished(true)) => {
            files.healed = None
        }
        (HealAction::BackUpOriginal, HealEvent::Finished(true)) => {
            files.backup = files.camera.take()
        }
        (HealAction::InstallHealed, HealEvent::Finished(true)) => {
            files.camera = files.healed.take()
        }
        (HealAction::RestoreOriginal, HealEvent::Finished(true)) => {
            files.camera = files.backup.take()
        }
        _ => {}
    }
}

#[test]
fn original_is_never_lost() {
    // Every pattern of success and failure of the steps that touch files.
    for pattern in 0..64u32 {
        let mut heal = judged();
        let mut files = Files { camera: Some("original"), backup: None, healed: None };
        let mut step = 0;
        while heal.action() != HealAction::Done {
            let ok = pattern >> step & 1 == 0;
            step += 1;
            let event = match heal.action() {
                HealAction::ProbeHealed => {
                    HealEvent::Duration(if ok { Some(6_903_000_000) } else { None })
                }
                HealAction::ProbeFps => HealEvent::Fps(None),
                _ => HealEvent::Finished(ok),
            };
            perform(heal.action(), event, &mut files);
            heal.advance(event);
            assert!(
                files.camera == Some("original") || files.backup == Some("original"),
                "{:?}",
                files
            );
        }
        // Four steps came before.
        assert!(step + 4 <= MAX_HEAL_STEPS);
        if heal.outcome().healed {
            assert_eq!(files.camera, Some("rescaled"));
            assert_eq!(files.backup, Some("original"));
        }
    }
}
