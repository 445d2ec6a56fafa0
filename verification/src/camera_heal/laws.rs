//! What a heal does to the files, whatever happens on the way.

use vstd::prelude::*;

use crate::camera_heal::heal::{
    is_event_of, HealAction, HealEvent, HealState, SegmentTracks,
};
use crate::camera_heal::stretch::{evaluates_to, is_healed_span, is_stretched, ReferenceTrack};

verus! {

/// The contents of the three files that a heal deals with, as far as they
/// exist.
pub struct Files<C> {
    pub camera: Option<C>,
    pub backup: Option<C>,
    pub healed: Option<C>,
}

/// What an action that turned out like this did to the files. A rename moves
/// a file that exists, or does nothing; rescaling may leave anything at the
/// healed path, also if it fails; everything else but removing looks only.
pub open spec fn affects<C>(
    action: HealAction,
    event: HealEvent,
    before: Files<C>,
    after: Files<C>,
) -> bool {
    match (action, event) {
        (HealAction::CheckBackup, HealEvent::Exists(exists)) => {
            &&& exists == before.backup is Some
            &&& after == before
        },
        (HealAction::ClearHealed, HealEvent::Finished(true)) => after == (Files {
            healed: None,
            ..before
        }),
        (HealAction::DiscardHealed, HealEvent::Finished(true)) => after == (Files {
            healed: None,
            ..before
        }),
        (HealAction::Rescale(_), _) => after == (Files { healed: after.healed, ..before }),
        (HealAction::BackUpOriginal, HealEvent::Finished(true)) => before.camera is Some && after
            == (Files { camera: None, backup: before.camera, ..before }),
        (HealAction::InstallHealed, HealEvent::Finished(true)) => before.healed is Some && after
            == (Files { camera: before.healed, healed: None, ..before }),
        (HealAction::RestoreOriginal, HealEvent::Finished(true)) => before.backup is Some && after
            == (Files { camera: before.backup, backup: None, ..before }),
        _ => after == before,
    }
}

/// The heal of one segment from its beginning: the states it passes through,
/// the files at each, and what happened in between.
pub struct HealTrace<C> {
    pub states: Seq<HealState>,
    pub files: Seq<Files<C>>,
    pub events: Seq<HealEvent>,
}

impl<C> HealTrace<C> {
    pub open spec fn is_trace_of(self, tracks: SegmentTracks) -> bool {
        &&& self.states.len() == self.events.len() + 1
        &&& self.files.len() == self.events.len() + 1
        &&& self.states[0] == HealState::initial(tracks)
        &&& forall|i: int|
            #![trigger self.events[i]]
            0 <= i < self.events.len() ==> {
                &&& is_event_of(self.states[i].action, self.events[i])
                &&& self.states[i].advances_to(self.events[i], self.states[i + 1])
                &&& affects(
                    self.states[i].action,
                    self.events[i],
                    self.files[i],
                    self.files[i + 1],
                )
            }
    }

    /// The heal tried to put the original back and failed.
    pub open spec fn restore_failed(self) -> bool {
        exists|i: int|
            #![trigger self.events[i]]
            0 <= i < self.events.len() && self.states[i].action == HealAction::RestoreOriginal
                && self.events[i] == HealEvent::Finished(false)
    }
}

/// The files at every state of a heal, compared with those at its beginning.
spec fn files_fit<C>(state: HealState, first: Files<C>, now: Files<C>) -> bool {
    let untouched = now == first;
    let camera_in_place = now.camera == first.camera && now.backup == first.backup;
    let camera_moved = now.camera is None && now.backup == first.camera && now.backup is Some;
    match state.action {
        HealAction::CheckBackup => untouched,
        HealAction::ProbeCamera => untouched && first.backup is None,
        HealAction::ProbeReference(_) => untouched && first.backup is None,
        HealAction::ClearHealed => camera_in_place && first.backup is None,
        HealAction::Rescale(_) => camera_in_place && first.backup is None,
        HealAction::ProbeHealed => camera_in_place && first.backup is None,
        HealAction::BackUpOriginal => camera_in_place && first.backup is None,
        HealAction::InstallHealed => camera_moved && first.backup is None,
        HealAction::RestoreOriginal => camera_moved && first.backup is None,
        HealAction::DiscardHealed => (camera_in_place || camera_moved) && first.backup is None,
        HealAction::ProbeFps => now.camera is Some && now.backup == first.camera && now.backup
            is Some && first.backup is None,
        HealAction::Done => {
            &&& state.decision is None ==> untouched
            &&& state.decision is Some ==> first.backup is None
            &&& if state.outcome.healed {
                now.camera is Some && now.backup == first.camera && now.backup is Some
            } else {
                camera_in_place || camera_moved
            }
        },
    }
}

proof fn lemma_files_fit<C>(trace: HealTrace<C>, tracks: SegmentTracks, i: int)
    requires
        trace.is_trace_of(tracks),
        0 <= i < trace.states.len(),
    ensures
        trace.states[i].valid(),
        files_fit(trace.states[i], trace.files[0], trace.files[i]),
        trace.states[i].action == HealAction::Done ==> i == trace.states.len() - 1,
    decreases i,
{
    if i > 0 {
        lemma_files_fit(trace, tracks, i - 1);
        let event = trace.events[i - 1];
        lemma_step_is_valid(trace.states[i - 1], event, trace.states[i]);
    }
    if i < trace.events.len() {
        let _ = trace.events[i];
    }
}

/// A step of a heal leads from a valid state to a valid state.
proof fn lemma_step_is_valid(state: HealState, event: HealEvent, next: HealState)
    requires
        state.valid(),
        state.advances_to(event, next),
    ensures
        next.valid(),
{
}

/// The original camera track is never lost: at every moment of a heal it is
/// at its place or in the backup.
pub proof fn law_original_is_never_lost<C>(
    trace: HealTrace<C>,
    tracks: SegmentTracks,
    original: C,
    i: int,
)
    requires
        trace.is_trace_of(tracks),
        trace.files[0].camera == Some(original),
        0 <= i < trace.files.len(),
    ensures
        trace.files[i].camera == Some(original) || trace.files[i].backup == Some(original),
{
    lemma_files_fit(trace, tracks, i);
}

/// Media is never modified unless the stretch signature is unambiguous: as
/// long as the camera track has not been found to be stretched, the files are
/// what they were.
pub proof fn law_only_stretched_tracks_are_touched<C>(
    trace: HealTrace<C>,
    tracks: SegmentTracks,
    i: int,
)
    requires
        trace.is_trace_of(tracks),
        0 <= i < trace.files.len(),
    ensures
        trace.files[i] == trace.files[0] || is_stretched(
            trace.states[i].camera_ns as int,
            trace.states[i].references,
        ),
{
    lemma_files_fit(trace, tracks, i);
}

/// A healed segment keeps the original alongside the healed track. One that
/// was not healed has its camera track in place, unless it could not be put
/// back.
pub proof fn law_finished_heal<C>(trace: HealTrace<C>, tracks: SegmentTracks, original: C)
    requires
        trace.is_trace_of(tracks),
        trace.files[0].camera == Some(original),
        trace.states.last().action == HealAction::Done,
    ensures
        if trace.states.last().outcome.healed {
            trace.files.last().backup == Some(original) && trace.files.last().camera is Some
        } else {
            trace.files.last().camera == Some(original) || trace.restore_failed()
        },
{
    let last = trace.states.len() - 1;
    lemma_files_fit(trace, tracks, last);
    if !trace.states.last().outcome.healed && trace.files.last().camera != Some(original) {
        lemma_moved_means_restore_failed(trace, tracks, last);
    }
}

/// The camera track is away after a failed installation only if putting it
/// back failed.
proof fn lemma_moved_means_restore_failed<C>(trace: HealTrace<C>, tracks: SegmentTracks, i: int)
    requires
        trace.is_trace_of(tracks),
        0 <= i < trace.states.len(),
        trace.states[i].action == HealAction::DiscardHealed || trace.states[i].action
            == HealAction::Done,
        !trace.states[i].outcome.healed,
        trace.files[i].camera != trace.files[0].camera,
    ensures
        trace.restore_failed(),
    decreases i,
{
    lemma_files_fit(trace, tracks, i);
    if i > 0 {
        lemma_files_fit(trace, tracks, i - 1);
        let event = trace.events[i - 1];
        if trace.states[i - 1].action == HealAction::DiscardHealed {
            lemma_moved_means_restore_failed(trace, tracks, i - 1);
        } else {
            assert(trace.states[i - 1].action == HealAction::RestoreOriginal);
            assert(event == HealEvent::Finished(false));
        }
    }
}

/// The rescaled track was probed at this step, and landed close enough to the
/// expected span.
pub open spec fn verified_at<C>(trace: HealTrace<C>, i: int) -> bool {
    &&& 0 <= i < trace.events.len()
    &&& trace.states[i].action == HealAction::ProbeHealed
    &&& trace.events[i] matches HealEvent::Duration(Some(healed_ns)) && is_healed_span(
        trace.states[i].decision.unwrap().expected_span_ns as int,
        healed_ns as int,
    )
}

/// A track takes the original's place only if it was verified before: it is
/// the very file whose span was found to be close enough to the expected one.
pub proof fn law_installed_track_was_verified<C>(trace: HealTrace<C>, tracks: SegmentTracks)
    requires
        trace.is_trace_of(tracks),
        trace.states.last().outcome.healed,
    ensures
        exists|i: int| #[trigger]
            verified_at(trace, i) && trace.files.last().camera == trace.files[i].healed,
{
    let last = trace.states.len() - 1;
    lemma_files_fit(trace, tracks, last);
    assert(last > 0);
    lemma_files_fit(trace, tracks, last - 1);
    let _ = trace.events[last - 1];
    assert(trace.states[last - 1].action == HealAction::ProbeFps);
    let _ = trace.events[last - 2];
    assert(trace.states[last - 2].action == HealAction::InstallHealed);
    let _ = trace.events[last - 3];
    assert(trace.states[last - 3].action == HealAction::BackUpOriginal);
    let _ = trace.events[last - 4];
    assert(trace.states[last - 4].action == HealAction::ProbeHealed);
    assert(verified_at(trace, last - 4));
}

/// A track that was healed before is never healed again: where a backup
/// exists, a heal ends at once and changes nothing.
pub proof fn law_healed_track_is_not_healed_again<C>(
    trace: HealTrace<C>,
    tracks: SegmentTracks,
    i: int,
)
    requires
        trace.is_trace_of(tracks),
        trace.files[0].backup is Some,
        0 <= i < trace.files.len(),
    ensures
        trace.files[i] == trace.files[0],
        !trace.states[i].outcome.healed,
        i > 0 ==> trace.states[i].action == HealAction::Done,
{
    lemma_files_fit(trace, tracks, i);
    lemma_backup_ends_heal(trace, tracks, i);
}

proof fn lemma_backup_ends_heal<C>(trace: HealTrace<C>, tracks: SegmentTracks, i: int)
    requires
        trace.is_trace_of(tracks),
        trace.files[0].backup is Some,
        0 <= i < trace.files.len(),
    ensures
        trace.files[i] == trace.files[0],
        !trace.states[i].outcome.healed,
        trace.states[i].action == HealAction::Done || (i == 0 && trace.states[i].action
            == HealAction::CheckBackup),
    decreases i,
{
    if i > 0 {
        lemma_backup_ends_heal(trace, tracks, i - 1);
        let _ = trace.events[i - 1];
    }
}

/// A heal ends: it takes at most this many steps.
pub proof fn law_heal_terminates<C>(trace: HealTrace<C>, tracks: SegmentTracks)
    requires
        trace.is_trace_of(tracks),
    ensures
        trace.events.len() <= MAX_HEAL_STEPS,
{
    if trace.events.len() > 0 {
        lemma_progress(trace, tracks, trace.events.len() as int);
    }
}

/// The most steps that a heal takes.
pub const MAX_HEAL_STEPS: u32 = 12;

/// How far a heal has come.
spec fn progress(action: HealAction) -> int {
    match action {
        HealAction::CheckBackup => 0,
        HealAction::ProbeCamera => 1,
        HealAction::ProbeReference(track) => if track
            == ReferenceTrack::Display {
            2
        } else if track == ReferenceTrack::Mic {
            3
        } else {
            4
        },
        HealAction::ClearHealed => 5,
        HealAction::Rescale(_) => 6,
        HealAction::ProbeHealed => 7,
        HealAction::BackUpOriginal => 8,
        HealAction::InstallHealed => 9,
        HealAction::RestoreOriginal => 10,
        HealAction::DiscardHealed => 11,
        HealAction::ProbeFps => 11,
        HealAction::Done => 12,
    }
}

proof fn lemma_progress<C>(trace: HealTrace<C>, tracks: SegmentTracks, i: int)
    requires
        trace.is_trace_of(tracks),
        0 <= i < trace.states.len(),
    ensures
        i <= progress(trace.states[i].action) <= 12,
    decreases i,
{
    if i > 0 {
        lemma_progress(trace, tracks, i - 1);
        let _ = trace.events[i - 1];
    }
}

/// An action can turn out either way: whether a file exists, whether something
/// succeeded, and any duration or frame rate, known or not, is taken in. Nothing
/// is left to happen once the heal is done.
pub proof fn law_every_outcome_is_taken_in(
    action: HealAction,
    yes: bool,
    duration: Option<u64>,
    fps: Option<u32>,
)
    ensures
        is_event_of(action, HealEvent::Exists(yes)) <==> action == HealAction::CheckBackup,
        is_event_of(action, HealEvent::Duration(duration)) <==> action == HealAction::ProbeCamera
            || action is ProbeReference || action == HealAction::ProbeHealed,
        is_event_of(action, HealEvent::Fps(fps)) <==> action == HealAction::ProbeFps,
        is_event_of(action, HealEvent::Finished(yes)) <==> action == HealAction::ClearHealed
            || action is Rescale || action == HealAction::BackUpOriginal || action
            == HealAction::InstallHealed || action == HealAction::RestoreOriginal || action
            == HealAction::DiscardHealed,
{
}

/// A segment with a camera track is looked into, starting with whether it has a
/// backup. One without a camera track has nothing to heal.
pub proof fn law_camera_tracks_are_looked_into(tracks: SegmentTracks)
    ensures
        HealState::initial(tracks).tracks == tracks,
        HealState::initial(tracks).references.len() == 0,
        HealState::initial(tracks).decision is None,
        !HealState::initial(tracks).outcome.healed,
        HealState::initial(tracks).outcome.fps is None,
        tracks.camera is Some ==> HealState::initial(tracks).action == HealAction::CheckBackup,
        tracks.camera is None ==> HealState::initial(tracks).action == HealAction::Done,
{
}

/// Without a backup the camera track is measured, and then the display. A heal ends
/// here only if there is a backup, or if the camera track cannot be measured.
pub proof fn law_camera_track_is_measured(state: HealState, event: HealEvent, next: HealState)
    requires
        state.advances_to(event, next),
        state.action == HealAction::CheckBackup || state.action == HealAction::ProbeCamera,
    ensures
        next.tracks == state.tracks,
        next.references == state.references,
        next.decision == state.decision,
        next.outcome == state.outcome,
        state.action == HealAction::CheckBackup && event == HealEvent::Exists(true) ==> next.action
            == HealAction::Done,
        state.action == HealAction::CheckBackup && event == HealEvent::Exists(false)
            ==> next.action == HealAction::ProbeCamera,
        state.action == HealAction::ProbeCamera ==> match event {
            HealEvent::Duration(Some(camera_ns)) => next.camera_ns == camera_ns && next.action
                == HealAction::ProbeReference(ReferenceTrack::Display),
            HealEvent::Duration(None) => next.action == HealAction::Done,
            _ => false,
        },
{
}

/// The display, the microphone and the system audio are measured one after the
/// other, as far as the segment has them. Each that can be measured predicts its
/// own duration, plus the time by which it started after the camera; a track
/// without a start time started at zero. After the last one the camera track is
/// judged against all of them.
pub proof fn law_every_reference_counts(
    state: HealState,
    track: ReferenceTrack,
    duration: Option<u64>,
    next: HealState,
)
    requires
        state.action == HealAction::ProbeReference(track),
        state.decision is None,
        state.advances_to(HealEvent::Duration(duration), next),
    ensures
        next.tracks == state.tracks,
        next.camera_ns == state.camera_ns,
        next.outcome == state.outcome,
        match duration {
            None => next.references == state.references,
            Some(duration_ns) => {
                let started = match track {
                    ReferenceTrack::Display => state.tracks.display.start_ns,
                    ReferenceTrack::Mic => if state.tracks.mic is Some {
                        state.tracks.mic.unwrap().start_ns
                    } else {
                        None
                    },
                    ReferenceTrack::SystemAudio => if state.tracks.system_audio is Some {
                        state.tracks.system_audio.unwrap().start_ns
                    } else {
                        None
                    },
                };
                let camera_started = if state.tracks.camera is Some {
                    state.tracks.camera.unwrap().start_ns
                } else {
                    None
                };
                &&& next.references.len() == state.references.len() + 1
                &&& next.references.drop_last() == state.references
                &&& next.references.last().track == track
                &&& next.references.last().span_ns - duration_ns == (if started is Some {
                    started.unwrap() as int
                } else {
                    0
                }) - (if camera_started is Some {
                    camera_started.unwrap() as int
                } else {
                    0
                })
            },
        },
        track == ReferenceTrack::Display && state.tracks.mic is Some ==> next.action
            == HealAction::ProbeReference(ReferenceTrack::Mic),
        state.tracks.system_audio is Some && (track == ReferenceTrack::Mic || (track
            == ReferenceTrack::Display && state.tracks.mic is None)) ==> next.action
            == HealAction::ProbeReference(ReferenceTrack::SystemAudio),
        track == ReferenceTrack::SystemAudio || (state.tracks.system_audio is None && (track
            == ReferenceTrack::Mic || state.tracks.mic is None)) ==> {
            &&& evaluates_to(next.camera_ns, next.references, next.decision)
            &&& next.action == if next.decision is Some {
                HealAction::ClearHealed
            } else {
                HealAction::Done
            }
        },
{
    if duration is Some {
        assert(next.references.drop_last() =~= state.references);
    }
}

/// Every step of a heal that succeeds leads on to the next: whatever an earlier attempt
/// left is cleared, the track is rescaled by the decided factor and measured; if it is
/// between 95 % and 105 % as long as it should be, the original is backed up, the
/// rescaled track takes its place, and the segment is healed. The frame rate that is
/// found is reported, unless it is zero.
pub proof fn law_success_leads_on(state: HealState, event: HealEvent, next: HealState)
    requires
        state.valid(),
        state.advances_to(event, next),
    ensures
        state.action == HealAction::ClearHealed ==> (next.action matches HealAction::Rescale(scale)
            && scale.num == state.decision.unwrap().expected_span_ns && scale.den
            == state.camera_ns),
        state.action is Rescale && event == HealEvent::Finished(true) ==> next.action
            == HealAction::ProbeHealed,
        state.action == HealAction::ProbeHealed && (event matches HealEvent::Duration(
            Some(healed_ns),
        ) && 95 * state.decision.unwrap().expected_span_ns <= 100 * healed_ns <= 105
            * state.decision.unwrap().expected_span_ns) ==> next.action
            == HealAction::BackUpOriginal,
        state.action == HealAction::BackUpOriginal && event == HealEvent::Finished(true)
            ==> next.action == HealAction::InstallHealed,
        state.action == HealAction::InstallHealed && event == HealEvent::Finished(true)
            ==> next.action == HealAction::ProbeFps,
        state.action == HealAction::ProbeFps ==> {
            &&& next.action == HealAction::Done
            &&& next.outcome.healed
            &&& match event {
                HealEvent::Fps(Some(rate)) => next.outcome.fps == if rate == 0 {
                    None
                } else {
                    Some(rate)
                },
                HealEvent::Fps(None) => next.outcome.fps is None,
                _ => false,
            }
        },
{
}

/// A stretched track is healed if nothing goes wrong: it is rescaled by the
/// decided factor and measured; if it then is between 95 % and 105 % as long as it
/// should be, the original is backed up and the rescaled track takes its place.
/// The frame rate that is found is reported, unless it is zero.
pub proof fn law_heal_goes_through(
    states: Seq<HealState>,
    cleared: bool,
    healed_ns: u64,
    fps: Option<u32>,
)
    requires
        states.len() == 7,
        states[0].valid(),
        states[0].action == HealAction::ClearHealed,
        95 * states[0].decision.unwrap().expected_span_ns <= 100 * healed_ns <= 105
            * states[0].decision.unwrap().expected_span_ns,
        states[0].advances_to(HealEvent::Finished(cleared), states[1]),
        states[1].advances_to(HealEvent::Finished(true), states[2]),
        states[2].advances_to(HealEvent::Duration(Some(healed_ns)), states[3]),
        states[3].advances_to(HealEvent::Finished(true), states[4]),
        states[4].advances_to(HealEvent::Finished(true), states[5]),
        states[5].advances_to(HealEvent::Fps(fps), states[6]),
    ensures
        states[1].action matches HealAction::Rescale(scale) && scale.num
            == states[0].decision.unwrap().expected_span_ns && scale.den == states[0].camera_ns,
        states[2].action == HealAction::ProbeHealed,
        states[3].action == HealAction::BackUpOriginal,
        states[4].action == HealAction::InstallHealed,
        states[5].action == HealAction::ProbeFps,
        states[6].action == HealAction::Done,
        states[6].outcome.healed,
        match fps {
            Some(rate) => states[6].outcome.fps == if rate == 0 {
                None
            } else {
                Some(rate)
            },
            None => states[6].outcome.fps is None,
        },
{
}

/// What goes wrong leads to the next best end: a track that was rescaled in vain
/// is removed, an original that was moved away is put back before that, and then
/// the heal is done without having healed.
pub proof fn law_failed_heal_cleans_up(state: HealState, event: HealEvent, next: HealState)
    requires
        state.valid(),
        state.advances_to(event, next),
    ensures
        (state.action is Rescale || state.action == HealAction::BackUpOriginal) && event
            == HealEvent::Finished(false) ==> next.action == HealAction::DiscardHealed,
        state.action == HealAction::ProbeHealed && !(event matches HealEvent::Duration(
            Some(healed_ns),
        ) && 95 * state.decision.unwrap().expected_span_ns <= 100 * healed_ns <= 105
            * state.decision.unwrap().expected_span_ns) ==> next.action
            == HealAction::DiscardHealed,
        state.action == HealAction::InstallHealed && event == HealEvent::Finished(false)
            ==> next.action == HealAction::RestoreOriginal,
        state.action == HealAction::RestoreOriginal ==> next.action == HealAction::DiscardHealed,
        state.action == HealAction::DiscardHealed ==> next.action == HealAction::Done,
        state.action != HealAction::ProbeFps ==> !next.outcome.healed && next.outcome.fps
            == state.outcome.fps,
        state.decision is Some ==> next.decision == state.decision && next.camera_ns
            == state.camera_ns && next.references == state.references && next.tracks
            == state.tracks,
{
}

} // verus!
