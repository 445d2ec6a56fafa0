//! The steps of a heal. The caller probes and moves files; this module says
//! which, one at a time, and is told how each turned out.

use vstd::prelude::*;

use crate::camera_heal::stretch::{
    evaluate_stretch, is_decision, is_healed_span, is_stretched, predicted_span, span_in_range,
    start_or_zero, verify_healed_span, Reference, ReferenceTrack, StretchDecision,
};
use crate::units::Ratio;

verus! {

/// A track of a segment.
#[derive(Clone, Copy, PartialEq, Eq, Structural, Debug)]
pub struct TrackInfo {
    pub start_ns: Option<i64>,
}

/// The tracks of a segment.
#[derive(Clone, Copy, PartialEq, Eq, Structural, Debug)]
pub struct SegmentTracks {
    pub camera: Option<TrackInfo>,
    pub display: TrackInfo,
    pub mic: Option<TrackInfo>,
    pub system_audio: Option<TrackInfo>,
}

/// What to do next.
#[derive(Clone, Copy, PartialEq, Eq, Structural, Debug)]
pub enum HealAction {
    /// Look whether the backup exists.
    CheckBackup,
    /// Determine the duration of a track.
    ProbeCamera,
    ProbeReference(ReferenceTrack),
    /// Remove what an earlier attempt may have left at the healed path.
    ClearHealed,
    /// Rescale the camera track's timestamps, to the healed path.
    Rescale(Ratio),
    /// Determine the duration of the rescaled track.
    ProbeHealed,
    /// Rename the camera track to the backup.
    BackUpOriginal,
    /// Rename the rescaled track to the camera track.
    InstallHealed,
    /// Rename the backup to the camera track, so that the recording stays
    /// playable.
    RestoreOriginal,
    /// Remove the rescaled track.
    DiscardHealed,
    /// Determine the frame rate of the new camera track.
    ProbeFps,
    Done,
}

/// How an action turned out.
#[derive(Clone, Copy, PartialEq, Eq, Structural, Debug)]
pub enum HealEvent {
    /// Whether the file exists.
    Exists(bool),
    /// The duration in nanoseconds, if it could be determined.
    Duration(Option<u64>),
    /// Whether the action succeeded.
    Finished(bool),
    /// The frame rate, if it could be determined.
    Fps(Option<u32>),
}

/// What a heal came to.
#[derive(Clone, Copy, PartialEq, Eq, Structural, Debug)]
pub struct HealOutcome {
    pub healed: bool,
    /// The camera track's new frame rate, if it is known.
    pub fps: Option<u32>,
}

/// A heal at one moment.
pub struct HealState {
    pub tracks: SegmentTracks,
    pub action: HealAction,
    pub camera_ns: u64,
    pub references: Seq<Reference>,
    pub decision: Option<StretchDecision>,
    pub outcome: HealOutcome,
}

/// The events that an action can have.
pub open spec fn is_event_of(action: HealAction, event: HealEvent) -> bool {
    match action {
        HealAction::CheckBackup => event is Exists,
        HealAction::ProbeCamera => event is Duration,
        HealAction::ProbeReference(_) => event is Duration,
        HealAction::ClearHealed => event is Finished,
        HealAction::Rescale(_) => event is Finished,
        HealAction::ProbeHealed => event is Duration,
        HealAction::BackUpOriginal => event is Finished,
        HealAction::InstallHealed => event is Finished,
        HealAction::RestoreOriginal => event is Finished,
        HealAction::DiscardHealed => event is Finished,
        HealAction::ProbeFps => event is Fps,
        HealAction::Done => false,
    }
}

/// The track that serves as a reference after this one.
pub open spec fn reference_after(tracks: SegmentTracks, track: ReferenceTrack) -> Option<
    ReferenceTrack,
> {
    if track == ReferenceTrack::Display && tracks.mic is Some {
        Some(ReferenceTrack::Mic)
    } else if track != ReferenceTrack::SystemAudio && tracks.system_audio is Some {
        Some(ReferenceTrack::SystemAudio)
    } else {
        None
    }
}

/// The start time of a reference track.
pub open spec fn reference_start(tracks: SegmentTracks, track: ReferenceTrack) -> Option<i64> {
    match track {
        ReferenceTrack::Display => tracks.display.start_ns,
        ReferenceTrack::Mic => match tracks.mic {
            Some(mic) => mic.start_ns,
            None => None,
        },
        ReferenceTrack::SystemAudio => match tracks.system_audio {
            Some(audio) => audio.start_ns,
            None => None,
        },
    }
}

/// `reference` is what a track of this duration predicts for the camera.
pub open spec fn is_reference(
    tracks: SegmentTracks,
    track: ReferenceTrack,
    duration_ns: u64,
    reference: Reference,
) -> bool {
    &&& reference.track == track
    &&& reference.span_ns == duration_ns + (start_or_zero(reference_start(tracks, track))
        - start_or_zero(
        match tracks.camera {
            Some(camera) => camera.start_ns,
            None => None,
        },
    ))
}

impl HealState {
    /// A heal that has not begun. A segment without a camera track has nothing
    /// to heal.
    pub open spec fn initial(tracks: SegmentTracks) -> HealState {
        HealState {
            tracks,
            action: if tracks.camera is Some {
                HealAction::CheckBackup
            } else {
                HealAction::Done
            },
            camera_ns: 0,
            references: Seq::empty(),
            decision: None,
            outcome: HealOutcome { healed: false, fps: None },
        }
    }

    /// The spans are such that they can be judged, and from the moment that
    /// the heal touches files the camera track has been found to be stretched.
    pub open spec fn valid(self) -> bool {
        &&& forall|i: int|
            0 <= i < self.references.len() ==> span_in_range(
                (#[trigger] self.references[i]).span_ns,
            )
        &&& self.decision matches Some(decision) ==> {
            &&& is_stretched(self.camera_ns as int, self.references)
            &&& is_decision(self.camera_ns, self.references, decision)
            &&& span_in_range(decision.expected_span_ns)
        }
        &&& match self.action {
            HealAction::CheckBackup => self.decision is None,
            HealAction::ProbeCamera => self.decision is None,
            HealAction::ProbeReference(_) => self.decision is None,
            HealAction::Rescale(scale) => self.decision matches Some(decision) && decision.scale
                == scale,
            HealAction::Done => self.outcome.healed ==> self.decision is Some,
            _ => self.decision is Some,
        }
        &&& self.action != HealAction::Done ==> !self.outcome.healed
    }

    pub open spec fn doing(self, action: HealAction) -> HealState {
        HealState { action, ..self }
    }

    /// The next reference is probed, or the camera track is judged if there is
    /// none.
    pub open spec fn goes_on_after(self, track: ReferenceTrack, next: HealState) -> bool {
        match reference_after(self.tracks, track) {
            Some(following) => next == self.doing(HealAction::ProbeReference(following)),
            None => if is_stretched(self.camera_ns as int, self.references) {
                exists|decision: StretchDecision| #[trigger]
                    is_decision(self.camera_ns, self.references, decision) && next == (HealState {
                        action: HealAction::ClearHealed,
                        decision: Some(decision),
                        ..self
                    })
            } else {
                next == self.doing(HealAction::Done)
            },
        }
    }

    /// `next` is the state after the event.
    pub open spec fn advances_to(self, event: HealEvent, next: HealState) -> bool {
        match (self.action, event) {
            // A track that was healed before is never rescaled again.
            (HealAction::CheckBackup, HealEvent::Exists(exists)) => next == self.doing(
                if exists {
                    HealAction::Done
                } else {
                    HealAction::ProbeCamera
                },
            ),
            (HealAction::ProbeCamera, HealEvent::Duration(duration)) => match duration {
                Some(camera_ns) => next == (HealState {
                    camera_ns,
                    action: HealAction::ProbeReference(ReferenceTrack::Display),
                    ..self
                }),
                None => next == self.doing(HealAction::Done),
            },
            (HealAction::ProbeReference(track), HealEvent::Duration(duration)) => match duration {
                Some(duration_ns) => exists|reference: Reference| #[trigger]
                    is_reference(self.tracks, track, duration_ns, reference) && (HealState {
                        references: self.references.push(reference),
                        ..self
                    }).goes_on_after(track, next),
                None => self.goes_on_after(track, next),
            },
            (HealAction::ClearHealed, HealEvent::Finished(_)) => next == self.doing(
                HealAction::Rescale(self.decision.unwrap().scale),
            ),
            (HealAction::Rescale(_), HealEvent::Finished(ok)) => next == self.doing(
                if ok {
                    HealAction::ProbeHealed
                } else {
                    HealAction::DiscardHealed
                },
            ),
            (HealAction::ProbeHealed, HealEvent::Duration(duration)) => next == self.doing(
                if duration matches Some(healed_ns) && is_healed_span(
                    self.decision.unwrap().expected_span_ns as int,
                    healed_ns as int,
                ) {
                    HealAction::BackUpOriginal
                } else {
                    HealAction::DiscardHealed
                },
            ),
            (HealAction::BackUpOriginal, HealEvent::Finished(ok)) => next == self.doing(
                if ok {
                    HealAction::InstallHealed
                } else {
                    HealAction::DiscardHealed
                },
            ),
            (HealAction::InstallHealed, HealEvent::Finished(ok)) => next == self.doing(
                if ok {
                    HealAction::ProbeFps
                } else {
                    HealAction::RestoreOriginal
                },
            ),
            (HealAction::RestoreOriginal, HealEvent::Finished(_)) => next == self.doing(
                HealAction::DiscardHealed,
            ),
            (HealAction::DiscardHealed, HealEvent::Finished(_)) => next == self.doing(
                HealAction::Done,
            ),
            (HealAction::ProbeFps, HealEvent::Fps(fps)) => next == (HealState {
                action: HealAction::Done,
                outcome: HealOutcome {
                    healed: true,
                    fps: if fps matches Some(rate) && rate > 0 {
                        fps
                    } else {
                        None
                    },
                },
                ..self
            }),
            _ => false,
        }
    }
}

/// The heal of one segment's camera track.
pub struct SegmentHeal {
    tracks: SegmentTracks,
    action: HealAction,
    camera_ns: u64,
    references: Vec<Reference>,
    decision: Option<StretchDecision>,
    outcome: HealOutcome,
}

impl View for SegmentHeal {
    type V = HealState;

    closed spec fn view(&self) -> HealState {
        HealState {
            tracks: self.tracks,
            action: self.action,
            camera_ns: self.camera_ns,
            references: self.references@,
            decision: self.decision,
            outcome: self.outcome,
        }
    }
}

impl SegmentHeal {
    pub fn new(tracks: SegmentTracks) -> (heal: Self)
        ensures
            heal@ == HealState::initial(tracks),
            heal@.valid(),
    {
        let heal = SegmentHeal {
            tracks,
            action: if tracks.camera.is_some() {
                HealAction::CheckBackup
            } else {
                HealAction::Done
            },
            camera_ns: 0,
            references: Vec::new(),
            decision: None,
            outcome: HealOutcome { healed: false, fps: None },
        };
        assert(heal@.references =~= Seq::empty());
        heal
    }

    /// What to do next.
    pub fn action(&self) -> (action: HealAction)
        ensures
            action == self@.action,
    {
        self.action
    }

    /// Why the camera track is being rescaled.
    pub fn decision(&self) -> (decision: Option<StretchDecision>)
        ensures
            decision == self@.decision,
    {
        self.decision
    }

    /// What the heal has come to.
    pub fn outcome(&self) -> (outcome: HealOutcome)
        ensures
            outcome == self@.outcome,
    {
        self.outcome
    }

    /// Whether `event` can be the event of the current action.
    pub fn accepts(&self, event: HealEvent) -> (accepted: bool)
        ensures
            accepted == is_event_of(self@.action, event),
    {
        match (self.action, event) {
            (HealAction::CheckBackup, HealEvent::Exists(_)) => true,
            (HealAction::ProbeCamera, HealEvent::Duration(_)) => true,
            (HealAction::ProbeReference(_), HealEvent::Duration(_)) => true,
            (HealAction::ClearHealed, HealEvent::Finished(_)) => true,
            (HealAction::Rescale(_), HealEvent::Finished(_)) => true,
            (HealAction::ProbeHealed, HealEvent::Duration(_)) => true,
            (HealAction::BackUpOriginal, HealEvent::Finished(_)) => true,
            (HealAction::InstallHealed, HealEvent::Finished(_)) => true,
            (HealAction::RestoreOriginal, HealEvent::Finished(_)) => true,
            (HealAction::DiscardHealed, HealEvent::Finished(_)) => true,
            (HealAction::ProbeFps, HealEvent::Fps(_)) => true,
            _ => false,
        }
    }

    /// Goes on to the next reference, or judges the camera track if there is
    /// none.
    fn go_on_after(&mut self, track: ReferenceTrack)
        requires
            old(self)@.valid(),
            old(self)@.action is ProbeReference,
        ensures
            final(self)@.valid(),
            old(self)@.goes_on_after(track, final(self)@),
    {
        if track == ReferenceTrack::Display && self.tracks.mic.is_some() {
            self.action = HealAction::ProbeReference(ReferenceTrack::Mic);
        } else if track != ReferenceTrack::SystemAudio && self.tracks.system_audio.is_some() {
            self.action = HealAction::ProbeReference(ReferenceTrack::SystemAudio);
        } else {
            let decision = evaluate_stretch(self.camera_ns, &self.references);
            match decision {
                Some(found) => {
                    assert(is_decision(self@.camera_ns, self@.references, found));
                    self.decision = decision;
                    self.action = HealAction::ClearHealed;
                },
                None => {
                    self.action = HealAction::Done;
                },
            }
        }
    }

    /// A reference track was probed.
    fn add_reference(&mut self, track: ReferenceTrack, duration: Option<u64>)
        requires
            old(self)@.valid(),
            old(self)@.action == HealAction::ProbeReference(track),
        ensures
            final(self)@.valid(),
            old(self)@.advances_to(HealEvent::Duration(duration), final(self)@),
    {
        if let Some(duration_ns) = duration {
            let track_start = match track {
                ReferenceTrack::Display => self.tracks.display.start_ns,
                ReferenceTrack::Mic => match self.tracks.mic {
                    Some(mic) => mic.start_ns,
                    None => None,
                },
                ReferenceTrack::SystemAudio => match self.tracks.system_audio {
                    Some(audio) => audio.start_ns,
                    None => None,
                },
            };
            let camera_start = match self.tracks.camera {
                Some(camera) => camera.start_ns,
                None => None,
            };
            let span_ns = predicted_span(duration_ns, track_start, camera_start);
            let reference = Reference { track, span_ns };
            assert(is_reference(self@.tracks, track, duration_ns, reference));
            self.references.push(reference);
        }
        self.go_on_after(track);
    }

    /// The current action turned out like this.
    pub fn advance(&mut self, event: HealEvent)
        requires
            old(self)@.valid(),
            is_event_of(old(self)@.action, event),
        ensures
            final(self)@.valid(),
            old(self)@.advances_to(event, final(self)@),
    {
        match (self.action, event) {
            (HealAction::CheckBackup, HealEvent::Exists(exists)) => {
                self.action = if exists {
                    HealAction::Done
                } else {
                    HealAction::ProbeCamera
                };
            },
            (HealAction::ProbeCamera, HealEvent::Duration(duration)) => match duration {
                Some(camera_ns) => {
                    self.camera_ns = camera_ns;
                    self.action = HealAction::ProbeReference(ReferenceTrack::Display);
                },
                None => {
                    self.action = HealAction::Done;
                },
            },
            (HealAction::ProbeReference(track), HealEvent::Duration(duration)) => {
                self.add_reference(track, duration);
            },
            (HealAction::ClearHealed, HealEvent::Finished(_)) => {
                self.action = HealAction::Rescale(self.decision.unwrap().scale);
            },
            (HealAction::Rescale(_), HealEvent::Finished(ok)) => {
                self.action = if ok {
                    HealAction::ProbeHealed
                } else {
                    HealAction::DiscardHealed
                };
            },
            (HealAction::ProbeHealed, HealEvent::Duration(duration)) => {
                let expected_ns = self.decision.unwrap().expected_span_ns;
                let ok = match duration {
                    Some(healed_ns) => verify_healed_span(expected_ns, healed_ns),
                    None => false,
                };
                self.action = if ok {
                    HealAction::BackUpOriginal
                } else {
                    HealAction::DiscardHealed
                };
            },
            (HealAction::BackUpOriginal, HealEvent::Finished(ok)) => {
                self.action = if ok {
                    HealAction::InstallHealed
                } else {
                    HealAction::DiscardHealed
                };
            },
            (HealAction::InstallHealed, HealEvent::Finished(ok)) => {
                self.action = if ok {
                    HealAction::ProbeFps
                } else {
                    HealAction::RestoreOriginal
                };
            },
            (HealAction::RestoreOriginal, HealEvent::Finished(_)) => {
                self.action = HealAction::DiscardHealed;
            },
            (HealAction::DiscardHealed, HealEvent::Finished(_)) => {
                self.action = HealAction::Done;
            },
            (HealAction::ProbeFps, HealEvent::Fps(fps)) => {
                let fps = match fps {
                    Some(rate) => if rate > 0 {
                        Some(rate)
                    } else {
                        None
                    },
                    None => None,
                };
                self.outcome = HealOutcome { healed: true, fps };
                self.action = HealAction::Done;
            },
            _ => {},
        }
    }
}

/// Whether any segment of a recording was healed.
pub open spec fn some_healed(outcomes: Seq<HealOutcome>) -> bool {
    exists|i: int| 0 <= i < outcomes.len() && (#[trigger] outcomes[i]).healed
}

/// Whether any segment of a recording was healed, so that its description has
/// to be saved.
pub fn any_healed(outcomes: &Vec<HealOutcome>) -> (any: bool)
    ensures
        any == some_healed(outcomes@),
        any <==> exists|i: int| 0 <= i < outcomes@.len() && (#[trigger] outcomes@[i]).healed,
{
    let mut i: usize = 0;
    while i < outcomes.len()
        invariant
            i <= outcomes@.len(),
            forall|j: int| 0 <= j < i ==> !(#[trigger] outcomes@[j]).healed,
        decreases outcomes@.len() - i,
    {
        if outcomes[i].healed {
            return true;
        }
        i = i + 1;
    }
    false
}

/// A recording is healed by any of its segments, wherever it stands: that of two parts
/// is healed if one of them is, and without segments there is nothing to heal.
pub proof fn law_any_segment_counts(one: Seq<HealOutcome>, outcome: HealOutcome, other: Seq<
    HealOutcome,
>)
    ensures
        !some_healed(Seq::empty()),
        some_healed(one.push(outcome) + other) <==> some_healed(one) || outcome.healed
            || some_healed(other),
{
    let all = one.push(outcome) + other;
    if some_healed(one) {
        let i = choose|i: int| 0 <= i < one.len() && (#[trigger] one[i]).healed;
        assert(all[i].healed);
    }
    if outcome.healed {
        assert(all[one.len() as int].healed);
    }
    if some_healed(other) {
        let i = choose|i: int| 0 <= i < other.len() && (#[trigger] other[i]).healed;
        assert(all[one.len() + 1 + i].healed);
    }
    if some_healed(all) {
        let i = choose|i: int| 0 <= i < all.len() && (#[trigger] all[i]).healed;
        if i < one.len() {
            assert(one[i].healed);
        } else if i > one.len() {
            assert(other[i - one.len() - 1].healed);
        }
    }
}

} // verus!
