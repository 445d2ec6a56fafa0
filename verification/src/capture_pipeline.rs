//! What the stages of a capture pipeline do with the frames that reach them.

use vstd::prelude::*;

verus! {

/// Ticks per second of the clock that audio timestamps count in.
pub const AV_TIME_BASE: i32 = 1_000_000;

/// How the screen is captured.
#[derive(Clone, Copy, PartialEq, Eq, Structural, Debug)]
pub enum CaptureMethod {
    /// Sample buffers of the operating system, encoded by its own writer.
    CmSampleBuffer,
    /// Frames that the software encoder takes.
    AvFrame,
}

/// A source or a task of a capture pipeline.
#[derive(Clone, Copy, PartialEq, Eq, Structural, Debug)]
pub enum Stage {
    MicrophoneCapture,
    AudioMixer,
    AudioEncoding,
    ScreenCapture,
    ScreenEncoding,
}

/// The stages that handle the screen. The order in which they start depends
/// on the capture method.
pub open spec fn screen_stages(method: CaptureMethod) -> Seq<Stage> {
    match method {
        CaptureMethod::CmSampleBuffer => seq![Stage::ScreenEncoding, Stage::ScreenCapture],
        CaptureMethod::AvFrame => seq![Stage::ScreenCapture, Stage::ScreenEncoding],
    }
}

/// The stages that handle the audio of an instant recording.
pub open spec fn audio_stages(mic: bool, system_audio: bool) -> Seq<Stage> {
    let capture = if mic {
        seq![Stage::MicrophoneCapture]
    } else {
        Seq::empty()
    };
    if mic || system_audio {
        capture + seq![Stage::AudioMixer, Stage::AudioEncoding]
    } else {
        capture
    }
}

/// The stages of a studio recording in the order in which they start.
pub fn studio_stages(method: CaptureMethod) -> (stages: Vec<Stage>)
    ensures
        stages@ == screen_stages(method),
        stages@.len() == 2,
        stages@.contains(Stage::ScreenCapture),
        stages@.contains(Stage::ScreenEncoding),
{
    let mut stages: Vec<Stage> = Vec::new();
    push_screen_stages(&mut stages, method);
    assert(stages@ =~= screen_stages(method));
    proof {
        law_screen_is_encoded(method, stages@);
    }
    stages
}

/// The stages of an instant recording in the order in which they start.
pub fn instant_stages(method: CaptureMethod, mic: bool, system_audio: bool) -> (stages: Vec<Stage>)
    ensures
        stages@ == audio_stages(mic, system_audio) + screen_stages(method),
        stages@.contains(Stage::AudioMixer) <==> mic || system_audio,
        stages@.contains(Stage::AudioEncoding) <==> mic || system_audio,
        stages@.contains(Stage::MicrophoneCapture) <==> mic,
        stages@.contains(Stage::ScreenCapture),
        stages@.contains(Stage::ScreenEncoding),
{
    let mut stages: Vec<Stage> = Vec::new();
    if mic {
        stages.push(Stage::MicrophoneCapture);
    }
    if mic || system_audio {
        stages.push(Stage::AudioMixer);
        stages.push(Stage::AudioEncoding);
    }
    assert(stages@ =~= audio_stages(mic, system_audio));
    push_screen_stages(&mut stages, method);
    proof {
        law_audio_is_encoded(method, mic, system_audio, stages@);
    }
    stages
}

fn push_screen_stages(stages: &mut Vec<Stage>, method: CaptureMethod)
    ensures
        final(stages)@ == old(stages)@ + screen_stages(method),
{
    match method {
        CaptureMethod::CmSampleBuffer => {
            stages.push(Stage::ScreenEncoding);
            stages.push(Stage::ScreenCapture);
        },
        CaptureMethod::AvFrame => {
            stages.push(Stage::ScreenCapture);
            stages.push(Stage::ScreenEncoding);
        },
    }
    assert(stages@ =~= old(stages)@ + screen_stages(method));
}

/// Whether one stage starts before another.
pub open spec fn starts_before(stages: Seq<Stage>, one: Stage, other: Stage) -> bool {
    exists|i: int, j: int|
        0 <= i < j < stages.len() && #[trigger] stages[i] == one && #[trigger] stages[j] == other
}

/// A studio recording captures the screen and encodes it, and handles no audio.
/// Frames that the software encoder takes are captured first; the system's own
/// writer is started before it gets any.
pub proof fn law_screen_is_encoded(method: CaptureMethod, stages: Seq<Stage>)
    requires
        stages == screen_stages(method),
    ensures
        stages.len() == 2,
        stages.contains(Stage::ScreenCapture),
        stages.contains(Stage::ScreenEncoding),
        starts_before(stages, Stage::ScreenCapture, Stage::ScreenEncoding) <==> method
            == CaptureMethod::AvFrame,
        starts_before(stages, Stage::ScreenEncoding, Stage::ScreenCapture) <==> method
            == CaptureMethod::CmSampleBuffer,
{
    assert(stages[0] == stages[0] && stages[1] == stages[1]);
}

/// Whatever audio there is gets mixed and encoded, from the microphone as well as
/// from the system: the mixer and the audio encoder run if and only if there is
/// any. The microphone is captured if it is used. What is captured is mixed and
/// encoded in this order, and the screen comes last. No stage runs twice.
pub proof fn law_audio_is_encoded(
    method: CaptureMethod,
    mic: bool,
    system_audio: bool,
    stages: Seq<Stage>,
)
    requires
        stages == audio_stages(mic, system_audio) + screen_stages(method),
    ensures
        stages.contains(Stage::AudioMixer) <==> mic || system_audio,
        stages.contains(Stage::AudioEncoding) <==> mic || system_audio,
        stages.contains(Stage::MicrophoneCapture) <==> mic,
        stages.contains(Stage::ScreenCapture),
        stages.contains(Stage::ScreenEncoding),
        mic ==> starts_before(stages, Stage::MicrophoneCapture, Stage::AudioMixer),
        mic || system_audio ==> starts_before(stages, Stage::AudioMixer, Stage::AudioEncoding)
            && starts_before(stages, Stage::AudioEncoding, Stage::ScreenCapture) && starts_before(
            stages,
            Stage::AudioEncoding,
            Stage::ScreenEncoding,
        ),
        starts_before(stages, Stage::ScreenCapture, Stage::ScreenEncoding) <==> method
            == CaptureMethod::AvFrame,
        forall|i: int, j: int|
            0 <= i < j < stages.len() ==> #[trigger] stages[i] != #[trigger] stages[j],
{
    let screen = audio_stages(mic, system_audio).len() as int;
    assert(stages[screen] == screen_stages(method)[0]);
    assert(stages[screen + 1] == screen_stages(method)[1]);
    if mic {
        assert(stages[0] == Stage::MicrophoneCapture);
    }
    if mic || system_audio {
        assert(stages[screen - 2] == Stage::AudioMixer);
        assert(stages[screen - 1] == Stage::AudioEncoding);
    }
}

/// What the screen encoder of a studio recording does with a frame.
pub struct StudioStep<T> {
    /// Report this timestamp as that of the first frame.
    pub send_timestamp: Option<T>,
    /// Encode the frame.
    pub queue_frame: bool,
}

/// What happens to a frame, given whether another came before. The first
/// frame gives the recording its start time; the system's own writer does not
/// get it.
pub open spec fn studio_step<T>(
    method: CaptureMethod,
    started: bool,
    timestamp: T,
) -> StudioStep<T> {
    StudioStep {
        send_timestamp: if started {
            None
        } else {
            Some(timestamp)
        },
        queue_frame: started || method == CaptureMethod::AvFrame,
    }
}

/// Whether the file is completed when no more frames arrive, given whether any
/// arrived.
pub open spec fn completes_file(method: CaptureMethod, started: bool) -> bool {
    started || method == CaptureMethod::AvFrame
}

/// The screen encoder of a studio recording. Timestamps are of the type `T`,
/// which is only passed on.
pub struct StudioEncoder {
    method: CaptureMethod,
    started: bool,
}

impl StudioEncoder {
    pub closed spec fn method(&self) -> CaptureMethod {
        self.method
    }

    /// Whether a frame has arrived.
    pub closed spec fn started(&self) -> bool {
        self.started
    }

    pub fn new(method: CaptureMethod) -> (encoder: Self)
        ensures
            encoder.method() == method,
            !encoder.started(),
    {
        StudioEncoder { method, started: false }
    }

    /// A frame arrived.
    pub fn frame<T>(&mut self, timestamp: T) -> (step: StudioStep<T>)
        ensures
            step == studio_step(old(self).method(), old(self).started(), timestamp),
            final(self).method() == old(self).method(),
            final(self).started(),
    {
        let started = self.started;
        self.started = true;
        StudioStep {
            send_timestamp: if started {
                None
            } else {
                Some(timestamp)
            },
            queue_frame: started || self.method == CaptureMethod::AvFrame,
        }
    }

    /// No more frames arrive: whether to complete the file. The system's own
    /// writer is left alone if it was never used.
    pub fn closed(&self) -> (finish: bool)
        ensures
            finish == completes_file(self.method(), self.started()),
    {
        self.started || self.method == CaptureMethod::AvFrame
    }
}

/// What the screen encoder of an instant recording does before it encodes a
/// frame.
#[derive(Clone, Copy, PartialEq, Eq, Structural, Debug)]
pub struct InstantStep {
    /// Pause (`true`) or resume (`false`) the writer.
    pub set_paused: Option<bool>,
    /// Tell the audio encoder when the first frame was captured.
    pub announce: bool,
}

/// What happens before a frame is encoded, given whether the first frame was
/// announced before. The software encoder neither pauses nor waits for the
/// first frame.
pub open spec fn instant_step(method: CaptureMethod, announced: bool, paused: bool) -> InstantStep {
    match method {
        CaptureMethod::CmSampleBuffer => InstantStep {
            set_paused: Some(paused),
            announce: !announced,
        },
        CaptureMethod::AvFrame => InstantStep { set_paused: None, announce: false },
    }
}

/// The screen encoder of an instant recording.
pub struct InstantEncoder {
    method: CaptureMethod,
    announced: bool,
}

impl InstantEncoder {
    pub closed spec fn method(&self) -> CaptureMethod {
        self.method
    }

    /// Whether the first frame was announced.
    pub closed spec fn announced(&self) -> bool {
        self.announced
    }

    pub fn new(method: CaptureMethod) -> (encoder: Self)
        ensures
            encoder.method() == method,
            !encoder.announced(),
    {
        InstantEncoder { method, announced: false }
    }

    /// A frame arrived while the recording was paused or not. It is encoded in
    /// any case.
    pub fn frame(&mut self, paused: bool) -> (step: InstantStep)
        ensures
            step == instant_step(old(self).method(), old(self).announced(), paused),
            final(self).method() == old(self).method(),
            final(self).announced() == (old(self).announced() || step.announce),
    {
        match self.method {
            CaptureMethod::CmSampleBuffer => {
                let announce = !self.announced;
                self.announced = true;
                InstantStep { set_paused: Some(paused), announce }
            },
            CaptureMethod::AvFrame => InstantStep { set_paused: None, announce: false },
        }
    }
}

/// When the first frame of a recording was captured: on the clock of the
/// screen capture, in `scale` ticks per second, and in real time.
pub struct FirstFrame<T> {
    pub value: i64,
    pub scale: i32,
    pub unix_time: T,
}

/// What is known of the first frame after an announcement, or without one.
pub open spec fn first_known<T>(
    before: Option<FirstFrame<T>>,
    announced: Option<FirstFrame<T>>,
) -> Option<FirstFrame<T>> {
    if announced is Some {
        announced
    } else {
        before
    }
}

/// Aligns the audio of an instant recording with its first frame.
pub struct AudioClock<T> {
    first: Option<FirstFrame<T>>,
}

impl<T> AudioClock<T> {
    /// The first frame, if it is known.
    pub closed spec fn first(&self) -> Option<FirstFrame<T>> {
        self.first
    }

    pub fn new() -> (clock: Self)
        ensures
            clock.first() is None,
    {
        AudioClock { first: None }
    }

    /// An audio frame arrived, after the first frame was announced or not.
    /// Returns what to align it with; audio from before the first frame is
    /// dropped.
    pub fn frame(&mut self, announced: Option<FirstFrame<T>>) -> (first: Option<&FirstFrame<T>>)
        ensures
            final(self).first() == first_known(old(self).first(), announced),
            match final(self).first() {
                Some(known) => first == Some(&known),
                None => first is None,
            },
    {
        if let Some(first) = announced {
            self.first = Some(first);
        }
        self.first.as_ref()
    }
}

/// `a` divided by `b`, rounded towards zero.
pub open spec fn truncated_quotient(a: int, b: int) -> int
    recommends
        b != 0,
{
    if a < 0 && b < 0 {
        (-a) / (-b)
    } else if a < 0 {
        -((-a) / b)
    } else if b < 0 {
        -(a / (-b))
    } else {
        a / b
    }
}

/// Ticks of a clock with `scale` ticks per second in one tick of the audio
/// clock.
pub open spec fn ticks_per_audio_tick(scale: i32) -> int {
    truncated_quotient(scale as int, AV_TIME_BASE as int)
}

/// Converts a point in time from `scale` ticks per second to the audio clock.
/// The clock that is converted from must not be the slower one.
pub fn audio_pts(value: i64, scale: i32) -> (pts: i64)
    requires
        ticks_per_audio_tick(scale) != 0,
        value == i64::MIN ==> ticks_per_audio_tick(scale) != -1,
    ensures
        pts == truncated_quotient(value as int, ticks_per_audio_tick(scale)),
{
    let ticks: i64 = (scale / AV_TIME_BASE) as i64;
    proof {
        if ticks < 0 {
            let a = if value < 0 {
                -(value as int)
            } else {
                value as int
            };
            lemma_negative_divisor(a, ticks as int);
            if ticks == -1 {
                assert(a / 1 == a);
            } else {
                vstd::arithmetic::div_mod::lemma_div_is_ordered_by_denominator(a, 2, -ticks as int);
            }
        }
    }
    value / ticks
}

/// `pts` is the point in time `ticks` after `value` on the audio clock, if there is
/// one.
pub open spec fn aligns_to(value: i64, ticks: i64, scale: i32, pts: Option<i64>) -> bool {
    match pts {
        Some(pts) => {
            &&& i64::MIN <= value + ticks <= i64::MAX
            &&& ticks_per_audio_tick(scale) != 0
            &&& pts == truncated_quotient(value + ticks, ticks_per_audio_tick(scale))
        },
        None => {
            ||| !(i64::MIN <= value + ticks <= i64::MAX)
            ||| ticks_per_audio_tick(scale) == 0
            ||| truncated_quotient(value + ticks, ticks_per_audio_tick(scale)) > i64::MAX
        },
    }
}

/// The point in time `ticks` after `value`, both in `scale` ticks per second,
/// on the audio clock. There is none if the numbers do not fit, or if the
/// clock that is converted from is the slower one.
pub fn aligned_pts(value: i64, ticks: i64, scale: i32) -> (pts: Option<i64>)
    ensures
        aligns_to(value, ticks, scale, pts),
{
    let time: i64 = match value.checked_add(ticks) {
        Some(time) => time,
        None => return None,
    };
    let divisor: i32 = scale / AV_TIME_BASE;
    if divisor == 0 {
        return None;
    }
    if time == i64::MIN && divisor == -1 {
        assert(-(i64::MIN as int) / 1 == -(i64::MIN as int));
        return None;
    }
    Some(audio_pts(time, scale))
}

/// Dividing by a negative number turns the sign.
proof fn lemma_negative_divisor(a: int, b: int)
    requires
        a >= 0,
        b < 0,
    ensures
        a / b == -(a / -b),
{
    assert(a / b == -(a / -b)) by (nonlinear_arith)
        requires
            a >= 0,
            b < 0,
    ;
}

/// Audio is aligned with the last announcement of the first frame, and is dropped
/// as long as there was none: `announced` are the announcements that came with
/// each audio frame, and `known` is what the clock knew after each, from its
/// beginning.
pub proof fn law_audio_follows_announcements<T>(
    announced: Seq<Option<FirstFrame<T>>>,
    known: Seq<Option<FirstFrame<T>>>,
    n: int,
)
    requires
        known.len() == announced.len() + 1,
        known[0] is None,
        forall|i: int|
            0 <= i < announced.len() ==> #[trigger] known[i + 1] == first_known(
                known[i],
                announced[i],
            ),
        0 <= n <= announced.len(),
    ensures
        known[n] is None <==> forall|i: int| 0 <= i < n ==> #[trigger] announced[i] is None,
        forall|i: int|
            0 <= i < n && #[trigger] announced[i] is Some && (forall|j: int|
                i < j < n ==> #[trigger] announced[j] is None) ==> known[n] == announced[i],
    decreases n,
{
    if n > 0 {
        law_audio_follows_announcements(announced, known, n - 1);
        assert(known[n - 1 + 1] == first_known(known[n - 1], announced[n - 1]));
    }
}

/// Quotients are rounded towards zero: what is left over is smaller than the
/// divisor and, like the dividend, on the same side of zero or none.
pub proof fn law_quotient_is_rounded_towards_zero(a: int, b: int)
    requires
        b != 0,
    ensures
        ({
            let rest = a - truncated_quotient(a, b) * b;
            &&& a >= 0 ==> 0 <= rest
            &&& a <= 0 ==> rest <= 0
            &&& -(if b < 0 {
                -b
            } else {
                b
            }) < rest < if b < 0 {
                -b
            } else {
                b
            }
        }),
{
    let d = if b < 0 {
        -b
    } else {
        b
    };
    let m = if a < 0 {
        -a
    } else {
        a
    };
    vstd::arithmetic::div_mod::lemma_fundamental_div_mod(m, d);
    vstd::arithmetic::div_mod::lemma_mod_bound(m, d);
    let q = m / d;
    assert(m - q * d == m % d) by (nonlinear_arith)
        requires
            m == d * q + m % d,
    ;
    assert((-q) * (-d) == q * d && (-q) * d == -(q * d) && q * (-d) == -(q * d)) by (nonlinear_arith);
}

/// A clock with `n` million ticks per second, or up to a million more, has `n`
/// ticks in a tick of the audio clock. Converting a time to the audio clock divides
/// by them: it gives back the time that they were counted from.
pub proof fn law_audio_clock_counts_microseconds(scale: i32, n: int, pts: int)
    requires
        0 < n,
        n * 1_000_000 <= scale < (n + 1) * 1_000_000,
    ensures
        ticks_per_audio_tick(scale) == n,
        truncated_quotient(pts * n, ticks_per_audio_tick(scale)) == pts,
{
    vstd::arithmetic::div_mod::lemma_fundamental_div_mod_converse(
        scale as int,
        1_000_000,
        n,
        scale - n * 1_000_000,
    );
    law_quotient_is_rounded_towards_zero(pts * n, n);
    let q = truncated_quotient(pts * n, n);
    assert(q == pts) by (nonlinear_arith)
        requires
            -n < pts * n - q * n < n,
            0 < n,
    ;
}

/// With a clock of `n` million ticks per second, or up to a million more, the sum of
/// both times always has its point on the audio clock if it fits in eight bytes: the
/// one whose `n`-fold is closest to the sum on the side of zero. There is none if the
/// sum does not fit, or if the clock has less than a million ticks.
pub proof fn law_audio_is_aligned(value: i64, ticks: i64, scale: i32, pts: Option<i64>, n: int)
    requires
        aligns_to(value, ticks, scale, pts),
        0 <= n,
        n * 1_000_000 <= scale < (n + 1) * 1_000_000,
    ensures
        pts is Some <==> n > 0 && i64::MIN <= value + ticks <= i64::MAX,
        pts matches Some(pts) ==> {
            &&& value + ticks >= 0 ==> pts * n <= value + ticks < pts * n + n
            &&& value + ticks <= 0 ==> pts * n - n < value + ticks <= pts * n
        },
{
    if n > 0 {
        law_audio_clock_counts_microseconds(scale, n, 0);
        law_quotient_is_rounded_towards_zero(value + ticks, n);
        let q = truncated_quotient(value + ticks, n);
        assert(q > i64::MAX ==> q * n > i64::MAX) by (nonlinear_arith)
            requires
                n > 0,
        ;
    }
}

/// The screen encoder of a studio recording meets `timestamps` from its
/// beginning: whether it had started before each frame, and what it did.
pub open spec fn is_studio_run<T>(
    method: CaptureMethod,
    timestamps: Seq<T>,
    started: Seq<bool>,
    steps: Seq<StudioStep<T>>,
) -> bool {
    &&& steps.len() == timestamps.len()
    &&& started.len() == timestamps.len() + 1
    &&& !started[0]
    &&& forall|i: int|
        #![trigger steps[i]]
        0 <= i < steps.len() ==> steps[i] == studio_step(method, started[i], timestamps[i])
            && started[i + 1]
}

/// A studio recording gets one start time, that of its first frame. Every
/// frame is encoded, except for the first one with the system's own writer.
pub proof fn law_first_frame_starts_recording<T>(
    method: CaptureMethod,
    timestamps: Seq<T>,
    started: Seq<bool>,
    steps: Seq<StudioStep<T>>,
    i: int,
)
    requires
        is_studio_run(method, timestamps, started, steps),
        0 <= i < steps.len(),
    ensures
        steps[i].send_timestamp == if i == 0 {
            Some(timestamps[0])
        } else {
            None
        },
        steps[i].queue_frame <==> i > 0 || method == CaptureMethod::AvFrame,
{
    let _ = steps[i];
    if i > 0 {
        let _ = steps[i - 1];
    }
}

/// A studio recording that encoded a frame gets its file completed. The software
/// encoder's file always is; that of the system's own writer is left alone only if
/// not a single frame arrived.
pub proof fn law_used_file_is_completed<T>(
    method: CaptureMethod,
    timestamps: Seq<T>,
    started: Seq<bool>,
    steps: Seq<StudioStep<T>>,
)
    requires
        is_studio_run(method, timestamps, started, steps),
    ensures
        completes_file(method, started.last()) <==> timestamps.len() > 0 || method
            == CaptureMethod::AvFrame,
        forall|i: int|
            0 <= i < steps.len() && (#[trigger] steps[i]).queue_frame ==> completes_file(
                method,
                started.last(),
            ),
{
    if steps.len() > 0 {
        let _ = steps[steps.len() - 1];
    }
}

/// The screen encoder of an instant recording meets frames from its beginning,
/// while the recording is paused or not: whether it had announced the first
/// frame before each, and what it did.
pub open spec fn is_instant_run(
    method: CaptureMethod,
    paused: Seq<bool>,
    announced: Seq<bool>,
    steps: Seq<InstantStep>,
) -> bool {
    &&& steps.len() == paused.len()
    &&& announced.len() == paused.len() + 1
    &&& !announced[0]
    &&& forall|i: int|
        #![trigger steps[i]]
        0 <= i < steps.len() ==> steps[i] == instant_step(method, announced[i], paused[i])
            && announced[i + 1] == (announced[i] || steps[i].announce)
}

/// With the system's own writer the audio encoder is told about the first
/// frame, once, and the writer follows the pause flag at every frame. The
/// software encoder does neither.
pub proof fn law_first_frame_is_announced_once(
    method: CaptureMethod,
    paused: Seq<bool>,
    announced: Seq<bool>,
    steps: Seq<InstantStep>,
    i: int,
)
    requires
        is_instant_run(method, paused, announced, steps),
        0 <= i < steps.len(),
    ensures
        steps[i].announce <==> i == 0 && method == CaptureMethod::CmSampleBuffer,
        steps[i].set_paused == if method == CaptureMethod::CmSampleBuffer {
            Some(paused[i])
        } else {
            None
        },
{
    let _ = steps[i];
    lemma_announced(method, paused, announced, steps, i);
}

/// The first frame has been announced once a frame has arrived, with the
/// system's own writer.
proof fn lemma_announced(
    method: CaptureMethod,
    paused: Seq<bool>,
    announced: Seq<bool>,
    steps: Seq<InstantStep>,
    i: int,
)
    requires
        is_instant_run(method, paused, announced, steps),
        0 <= i < announced.len(),
    ensures
        announced[i] <==> i > 0 && method == CaptureMethod::CmSampleBuffer,
    decreases i,
{
    if i > 0 {
        lemma_announced(method, paused, announced, steps, i - 1);
        let _ = steps[i - 1];
    }
}

} // verus!
