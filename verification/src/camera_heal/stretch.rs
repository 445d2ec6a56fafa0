//! Whether a camera track is stretched. All times are in nanoseconds.

use vstd::prelude::*;

use crate::units::Ratio;

verus! {

/// Minimum reference span for a heal to be considered; very short recordings
/// have too much probe noise to trust a ratio.
pub const MIN_REFERENCE_NS: i128 = 2_000_000_000;

/// The camera must exceed the reference span by at least this factor, in
/// tenths...
pub const MIN_STRETCH_RATIO_TENTHS: i128 = 15;

/// ...and by at least this much, so that long recordings with slightly
/// imprecise durations never trigger.
pub const MIN_STRETCH_NS: i128 = 1_000_000_000;

/// When only the display track is available as a reference (no audio), the
/// ratio must sit in the rate-doubling family (60/30, 50/25, 60/24), to rule
/// out a display track that legitimately stopped early. In tenths.
pub const DISPLAY_ONLY_MIN_RATIO_TENTHS: i128 = 16;

pub const DISPLAY_ONLY_MAX_RATIO_TENTHS: i128 = 26;

/// References must agree with each other within this part of the larger one
/// before the camera is judged against them, in percent.
pub const REFERENCE_AGREEMENT_PERCENT: i128 = 15;

/// The healed file must land within this part of the expected span or the
/// original is kept untouched, in percent.
pub const HEAL_VERIFY_TOLERANCE_PERCENT: i128 = 5;

/// No span that is predicted from a duration and two start times is longer.
pub const MAX_SPAN_NS: i128 = 0x4_0000_0000_0000_0000;

/// A track that the camera track is measured against.
#[derive(Clone, Copy, PartialEq, Eq, Structural, Debug)]
pub enum ReferenceTrack {
    Display,
    Mic,
    SystemAudio,
}

/// The span that a track predicts for the camera track.
#[derive(Clone, Copy, PartialEq, Eq, Structural, Debug)]
pub struct Reference {
    pub track: ReferenceTrack,
    pub span_ns: i128,
}

/// A camera track is stretched, and how to rescale it.
#[derive(Clone, Copy, PartialEq, Eq, Structural, Debug)]
pub struct StretchDecision {
    pub expected_span_ns: i128,
    /// How much longer the track is than it should be.
    pub ratio: Ratio,
    /// The factor to rescale its timestamps by.
    pub scale: Ratio,
}

/// The spans that the references predict.
pub open spec fn spans(references: Seq<Reference>) -> Seq<int> {
    references.map_values(|reference: Reference| reference.span_ns as int)
}

/// The references tell the same story. A microphone that ran much longer than
/// the display means that the display died early, not that the camera is
/// stretched.
pub open spec fn references_agree(references: Seq<Reference>) -> bool {
    let longest = spans(references).max();
    let shortest = spans(references).min();
    100 * (longest - shortest) <= REFERENCE_AGREEMENT_PERCENT * longest
}

/// Whether a track other than the display is among the references.
pub open spec fn has_audio_reference(references: Seq<Reference>) -> bool {
    exists|i: int|
        0 <= i < references.len() && (#[trigger] references[i]).track != ReferenceTrack::Display
}

/// The signature of a stretched camera track: it is unambiguous only if all
/// of this holds.
pub open spec fn is_stretched(camera_ns: int, references: Seq<Reference>) -> bool {
    let expected = spans(references).max();
    &&& references.len() > 0
    &&& expected >= MIN_REFERENCE_NS
    &&& references_agree(references)
    &&& 10 * camera_ns >= MIN_STRETCH_RATIO_TENTHS * expected
    &&& camera_ns - expected >= MIN_STRETCH_NS
    &&& has_audio_reference(references) || DISPLAY_ONLY_MIN_RATIO_TENTHS * expected <= 10
        * camera_ns <= DISPLAY_ONLY_MAX_RATIO_TENTHS * expected
}

/// The decision about a stretched camera track: it should be as long as the
/// longest of the spans that the references predict.
pub open spec fn is_decision(
    camera_ns: u64,
    references: Seq<Reference>,
    decision: StretchDecision,
) -> bool {
    let expected = decision.expected_span_ns;
    &&& expected == spans(references).max()
    &&& decision.ratio == (Ratio { num: camera_ns as i128, den: expected })
    &&& decision.scale == (Ratio { num: expected, den: camera_ns as i128 })
}

/// `decision` is the decision about a camera track, if it is stretched.
pub open spec fn evaluates_to(
    camera_ns: u64,
    references: Seq<Reference>,
    decision: Option<StretchDecision>,
) -> bool {
    match decision {
        Some(decision) => {
            &&& is_stretched(camera_ns as int, references)
            &&& is_decision(camera_ns, references, decision)
        },
        None => !is_stretched(camera_ns as int, references),
    }
}

/// Whether a span is one that durations and start times can predict.
pub open spec fn span_in_range(span_ns: i128) -> bool {
    -MAX_SPAN_NS <= span_ns <= MAX_SPAN_NS
}

/// Predicts the camera's span from another track: that track's duration plus
/// the difference in start times, since a track that started later ran for
/// less time. Tracks without a start time started at zero.
pub fn predicted_span(
    duration_ns: u64,
    track_start_ns: Option<i64>,
    camera_start_ns: Option<i64>,
) -> (span_ns: i128)
    ensures
        span_ns == duration_ns + (start_or_zero(track_start_ns) - start_or_zero(camera_start_ns)),
        match (track_start_ns, camera_start_ns) {
            (Some(track), Some(camera)) => span_ns == duration_ns + track - camera,
            (Some(track), None) => span_ns == duration_ns + track,
            (None, Some(camera)) => span_ns == duration_ns - camera,
            (None, None) => span_ns == duration_ns,
        },
        span_in_range(span_ns),
{
    let track_start: i64 = match track_start_ns {
        Some(start) => start,
        None => 0,
    };
    let camera_start: i64 = match camera_start_ns {
        Some(start) => start,
        None => 0,
    };
    duration_ns as i128 + (track_start as i128 - camera_start as i128)
}

/// A start time, which is zero if it is not known.
pub open spec fn start_or_zero(start_ns: Option<i64>) -> int {
    match start_ns {
        Some(start) => start as int,
        None => 0,
    }
}

/// Decides whether a camera track of `camera_ns` is stretched, given the
/// spans that the other tracks predict. Decides against it unless the
/// signature is unambiguous.
pub fn evaluate_stretch(camera_ns: u64, references: &Vec<Reference>) -> (decision: Option<
    StretchDecision,
>)
    requires
        forall|i: int|
            0 <= i < references@.len() ==> span_in_range((#[trigger] references@[i]).span_ns),
    ensures
        evaluates_to(camera_ns, references@, decision),
{
    if references.len() == 0 {
        return None;
    }
    let mut longest: i128 = references[0].span_ns;
    let mut shortest: i128 = references[0].span_ns;
    let mut has_audio: bool = false;
    let ghost all = spans(references@);
    proof {
        assert(all[0] == references@[0].span_ns);
    }
    let mut i: usize = 0;
    while i < references.len()
        invariant
            i <= references@.len(),
            all == spans(references@),
            forall|j: int|
                0 <= j < references@.len() ==> span_in_range((#[trigger] references@[j]).span_ns),
            all.contains(longest as int),
            all.contains(shortest as int),
            span_in_range(longest),
            span_in_range(shortest),
            forall|j: int| 0 <= j < i ==> shortest <= #[trigger] all[j] <= longest,
            has_audio == exists|j: int|
                0 <= j < i && (#[trigger] references@[j]).track != ReferenceTrack::Display,
        decreases references@.len() - i,
    {
        let reference = references[i];
        assert(all[i as int] == reference.span_ns);
        if reference.span_ns > longest {
            longest = reference.span_ns;
        }
        if reference.span_ns < shortest {
            shortest = reference.span_ns;
        }
        if reference.track != ReferenceTrack::Display {
            has_audio = true;
        }
        i = i + 1;
    }
    proof {
        all.max_ensures();
        all.min_ensures();
        assert(longest == all.max());
        assert(shortest == all.min());
    }
    if longest < MIN_REFERENCE_NS {
        return None;
    }
    if 100 * (longest - shortest) > REFERENCE_AGREEMENT_PERCENT * longest {
        return None;
    }
    let camera: i128 = camera_ns as i128;
    if 10 * camera < MIN_STRETCH_RATIO_TENTHS * longest || camera - longest < MIN_STRETCH_NS {
        return None;
    }
    if !has_audio && !(DISPLAY_ONLY_MIN_RATIO_TENTHS * longest <= 10 * camera && 10 * camera
        <= DISPLAY_ONLY_MAX_RATIO_TENTHS * longest) {
        return None;
    }
    Some(
        StretchDecision {
            expected_span_ns: longest,
            ratio: Ratio { num: camera, den: longest },
            scale: Ratio { num: longest, den: camera },
        },
    )
}

/// Whether a rescaled track lands close enough to the expected span.
pub open spec fn is_healed_span(expected_ns: int, healed_ns: int) -> bool {
    let error = if healed_ns < expected_ns {
        expected_ns - healed_ns
    } else {
        healed_ns - expected_ns
    };
    100 * error <= HEAL_VERIFY_TOLERANCE_PERCENT * expected_ns
}

/// Whether a rescaled track of `healed_ns` lands close enough to the expected
/// span.
pub fn verify_healed_span(expected_ns: i128, healed_ns: u64) -> (ok: bool)
    requires
        span_in_range(expected_ns),
    ensures
        ok == is_healed_span(expected_ns as int, healed_ns as int),
        ok <==> 95 * expected_ns <= 100 * healed_ns <= 105 * expected_ns,
{
    let healed: i128 = healed_ns as i128;
    let error: i128 = if healed < expected_ns {
        expected_ns - healed
    } else {
        healed - expected_ns
    };
    100 * error <= HEAL_VERIFY_TOLERANCE_PERCENT * expected_ns
}

/// The longest span is that of the reference that no other exceeds.
proof fn lemma_longest(references: Seq<Reference>, longest: int)
    requires
        0 <= longest < references.len(),
        forall|i: int|
            0 <= i < references.len() ==> (#[trigger] references[i]).span_ns
                <= references[longest].span_ns,
    ensures
        spans(references).max() == references[longest].span_ns,
{
    let all = spans(references);
    all.max_ensures();
    assert(all[longest] == references[longest].span_ns);
    let at = all.index_of(all.max());
    assert(all[at] == references[at].span_ns);
}

/// The shortest span is that of a reference, and no other is shorter.
proof fn lemma_shortest(references: Seq<Reference>)
    requires
        references.len() > 0,
    ensures
        exists|i: int|
            0 <= i < references.len() && (#[trigger] references[i]).span_ns == spans(
                references,
            ).min(),
        forall|i: int|
            0 <= i < references.len() ==> spans(references).min() <= (
            #[trigger] references[i]).span_ns,
{
    let all = spans(references);
    all.min_ensures();
    let at = all.index_of(all.min());
    assert(all[at] == references[at].span_ns);
    assert forall|i: int| 0 <= i < references.len() implies all.min() <= (
    #[trigger] references[i]).span_ns by {
        assert(all[i] == references[i].span_ns);
    }
}

/// Every stretched camera track is found, however many references there are: the
/// longest span is at least two seconds, every other one is at least 85 % of it,
/// and the camera track exceeds it by half and by a second. Without an audio
/// track the camera track must be between 1.6 and 2.6 times as long. It is then
/// to be rescaled to the longest span.
pub proof fn law_stretched_track_is_found(
    camera_ns: u64,
    references: Seq<Reference>,
    decision: Option<StretchDecision>,
    longest: int,
)
    requires
        evaluates_to(camera_ns, references, decision),
        0 <= longest < references.len(),
        forall|i: int|
            0 <= i < references.len() ==> (#[trigger] references[i]).span_ns
                <= references[longest].span_ns && 100 * references[i].span_ns >= 85
                * references[longest].span_ns,
        references[longest].span_ns >= 2_000_000_000,
        10 * camera_ns >= 15 * references[longest].span_ns,
        camera_ns >= references[longest].span_ns + 1_000_000_000,
        (exists|i: int|
            0 <= i < references.len() && (#[trigger] references[i]).track
                != ReferenceTrack::Display) || 16 * references[longest].span_ns <= 10 * camera_ns
            <= 26 * references[longest].span_ns,
    ensures
        decision matches Some(decision) && {
            &&& decision.expected_span_ns == references[longest].span_ns
            &&& decision.ratio.num == camera_ns
            &&& decision.ratio.den == references[longest].span_ns
            &&& decision.scale.num == references[longest].span_ns
            &&& decision.scale.den == camera_ns
        },
{
    lemma_longest(references, longest);
    lemma_shortest(references);
}

/// A camera track is never found to be stretched unless it exceeds every span
/// that the references predict by half and by a second, one of these spans has
/// two seconds, any two of them agree within 15 % of the longer one, and, where
/// the display is the only reference, the track is between 1.6 and 2.6 times as
/// long.
pub proof fn law_only_clear_cases_are_found(
    camera_ns: u64,
    references: Seq<Reference>,
    decision: Option<StretchDecision>,
)
    requires
        evaluates_to(camera_ns, references, decision),
        decision is Some,
    ensures
        exists|i: int|
            0 <= i < references.len() && (#[trigger] references[i]).span_ns >= 2_000_000_000,
        forall|i: int|
            0 <= i < references.len() ==> 10 * camera_ns >= 15 * (#[trigger] references[i]).span_ns
                && camera_ns >= references[i].span_ns + 1_000_000_000,
        forall|i: int, j: int|
            0 <= i < references.len() && 0 <= j < references.len() ==> 85 * (
            #[trigger] references[i]).span_ns <= 100 * (#[trigger] references[j]).span_ns,
        (forall|i: int|
            0 <= i < references.len() ==> (#[trigger] references[i]).track
                == ReferenceTrack::Display) ==> exists|i: int|
            0 <= i < references.len() && 16 * (#[trigger] references[i]).span_ns <= 10 * camera_ns
                <= 26 * references[i].span_ns,
        decision matches Some(decision) && {
            &&& forall|i: int|
                0 <= i < references.len() ==> (#[trigger] references[i]).span_ns
                    <= decision.expected_span_ns
            &&& exists|i: int|
                0 <= i < references.len() && (#[trigger] references[i]).span_ns
                    == decision.expected_span_ns
        },
{
    let all = spans(references);
    all.max_ensures();
    let at = all.index_of(all.max());
    assert(all[at] == references[at].span_ns);
    lemma_shortest(references);
    assert forall|i: int| 0 <= i < references.len() implies (#[trigger] references[i]).span_ns
        <= all.max() by {
        assert(all[i] == references[i].span_ns);
    }
}

/// A further audio track never hides a stretched camera track if the span that it
/// predicts lies between those of two other references.
pub proof fn law_further_reference_keeps_decision(
    camera_ns: u64,
    references: Seq<Reference>,
    further: Reference,
    decision: Option<StretchDecision>,
    again: Option<StretchDecision>,
    shorter: int,
    longer: int,
)
    requires
        evaluates_to(camera_ns, references, decision),
        evaluates_to(camera_ns, references.push(further), again),
        decision is Some,
        further.track != ReferenceTrack::Display,
        0 <= shorter < references.len(),
        0 <= longer < references.len(),
        references[shorter].span_ns <= further.span_ns <= references[longer].span_ns,
    ensures
        again == decision,
{
    let all = spans(references);
    all.max_ensures();
    let longest = all.index_of(all.max());
    assert(all[longest] == references[longest].span_ns);
    law_only_clear_cases_are_found(camera_ns, references, decision);
    let more = references.push(further);
    assert(more[longest] == references[longest]);
    assert(more[references.len() as int] == further);
    assert forall|i: int| 0 <= i < more.len() implies (#[trigger] more[i]).span_ns
        <= more[longest].span_ns && 100 * more[i].span_ns >= 85 * more[longest].span_ns by {
        if i < references.len() {
            assert(more[i] == references[i]);
            assert(all[i] == references[i].span_ns);
        } else {
            assert(all[longer] == references[longer].span_ns);
            assert(85 * references[longest].span_ns <= 100 * references[shorter].span_ns);
        }
    }
    assert(10 * camera_ns >= 15 * references[longest].span_ns);
    assert(exists|i: int| 0 <= i < references.len() && (#[trigger] references[i]).span_ns
        >= 2_000_000_000 && all[i] == references[i].span_ns);
    law_stretched_track_is_found(camera_ns, more, again, longest);
}

/// A rescaled track is accepted exactly if it is between 95 % and 105 % as long
/// as it should be.
pub proof fn law_healed_span_is_close(expected_ns: int, healed_ns: int)
    ensures
        is_healed_span(expected_ns, healed_ns) <==> 95 * expected_ns <= 100 * healed_ns <= 105
            * expected_ns,
{
}

/// The scale takes the camera track to the expected span, shortens it, and is
/// the inverse of the ratio.
pub proof fn law_scale_restores_span(
    camera_ns: u64,
    references: Seq<Reference>,
    decision: StretchDecision,
)
    requires
        is_stretched(camera_ns as int, references),
        is_decision(camera_ns, references, decision),
    ensures
        0 < decision.scale.num < decision.scale.den,
        camera_ns * decision.scale.num == decision.expected_span_ns * decision.scale.den,
        decision.ratio.num * decision.scale.num == decision.ratio.den * decision.scale.den,
{
    assert(camera_ns * decision.expected_span_ns == decision.expected_span_ns * camera_ns)
        by (nonlinear_arith);
}

/// A track that passes verification is not stretched any more.
pub proof fn law_healed_track_is_not_stretched(
    camera_ns: int,
    references: Seq<Reference>,
    healed_ns: int,
)
    requires
        is_stretched(camera_ns, references),
        is_healed_span(spans(references).max(), healed_ns),
    ensures
        !is_stretched(healed_ns, references),
{
}

/// One reference about as long as the camera track is enough for the track to
/// be left alone, whatever the other references say.
pub proof fn law_confirmed_track_is_left_alone(
    camera_ns: int,
    references: Seq<Reference>,
    i: int,
)
    requires
        0 <= i < references.len(),
        10 * camera_ns < MIN_STRETCH_RATIO_TENTHS * references[i].span_ns,
    ensures
        !is_stretched(camera_ns, references),
{
    spans(references).max_ensures();
    assert(spans(references)[i] == references[i].span_ns);
}

} // verus!
