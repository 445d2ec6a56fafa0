//! The state of a frame server that decodes a video forward, caches what it
//! decodes and answers requests for single frames.

use std::collections::BTreeMap;

use vstd::prelude::*;

use crate::decoder::frame::{share, CachedFrame, CachedFrameData, DecodedFrame, RgbaFrame};

verus! {

/// The smallest frame number in `frames`.
pub open spec fn is_first_frame(frames: Set<u32>, frame: u32) -> bool {
    &&& frames.contains(frame)
    &&& forall|other: u32| #[trigger] frames.contains(other) ==> frame <= other
}

/// The largest frame number in `frames`.
pub open spec fn is_last_frame(frames: Set<u32>, frame: u32) -> bool {
    &&& frames.contains(frame)
    &&& forall|other: u32| #[trigger] frames.contains(other) ==> other <= frame
}

/// Frame numbers are usable as keys of an ordered map.
proof fn lemma_frame_numbers_are_keys()
    ensures
        vstd::laws_cmp::obeys_cmp::<u32>(),
        vstd::std_specs::btree::key_obeys_cmp_spec::<u32>(),
{
    broadcast use vstd::laws_cmp::group_laws_cmp;
    broadcast use vstd::std_specs::btree::group_btree_axioms;

}

/// The smallest and the largest frame number in the cache.
fn cached_range<F>(cache: &BTreeMap<u32, CachedFrame<F>>) -> (range: (u32, u32))
    requires
        0 < cache@.len(),
    ensures
        is_first_frame(cache@.dom(), range.0),
        is_last_frame(cache@.dom(), range.1),
{
    broadcast use vstd::std_specs::btree::group_btree_axioms;

    proof {
        lemma_frame_numbers_are_keys();
    }
    let mut found: Option<(u32, u32)> = None;
    for key in frames: cache.keys()
        invariant
            match found {
                None => frames.index() == 0,
                Some((first, last)) => {
                    &&& frames.seq().unref().contains(first)
                    &&& frames.seq().unref().contains(last)
                    &&& forall|i: int|
                        0 <= i < frames.index() ==> first <= *#[trigger] frames.seq()[i] <= last
                },
            },
    {
        found = match found {
            None => Some((*key, *key)),
            Some((first, last)) => Some(
                (
                    if *key < first {
                        *key
                    } else {
                        first
                    },
                    if *key > last {
                        *key
                    } else {
                        last
                    },
                ),
            ),
        };
    }
    found.unwrap()
}

/// A request that the cache could not answer, while frames are being decoded
/// for it.
#[derive(Clone, Copy)]
pub struct PendingFrame {
    pub requested_frame: u32,
    /// The cache window around the requested frame.
    pub cache_min: u32,
    pub cache_max: u32,
    /// Whether the requester still waits for a reply.
    pub awaiting: bool,
    /// Whether a frame beyond the cache window has been decoded.
    pub exit: bool,
}

/// What to do about a request.
pub enum GetFrame {
    /// The requested frame was cached: send it.
    Reply(DecodedFrame),
    /// Decode forward, after seeking to the requested time if `seek` is set.
    Decode { seek: bool },
}

/// What to do after a frame was decoded.
pub struct Decoded {
    /// The reply to send to the requester, if any.
    pub reply: Option<DecodedFrame>,
    /// Whether to decode another frame for this request.
    pub more: bool,
}

/// What happened while frames are decoded for a request.
pub enum DecodeEvent<F> {
    /// The frame number `current_frame` was decoded.
    Frame { frame: F, current_frame: u32 },
    /// Another request waits.
    RequestWaiting,
    /// The video ended.
    EndOfVideo,
    /// The next frame could not be decoded.
    DecodingFailed,
}

/// The frame server at one moment.
pub struct DecoderState<F> {
    pub frame_cache_size: u32,
    pub cache: Map<u32, CachedFrame<F>>,
    /// The last frame that triggered decoding.
    pub last_active_frame: Option<u32>,
    pub last_decoded_frame: Option<u32>,
    pub last_sent_frame: Option<(u32, DecodedFrame)>,
    pub pending: Option<PendingFrame>,
}

/// The frame that makes room for `current` in a full cache: one at the end
/// of the cache that the requests move away from or, while they stay, the
/// first frame if `current` lies beyond the cache and the last one otherwise.
pub open spec fn is_victim(
    frames: Set<u32>,
    requested: u32,
    active: u32,
    current: u32,
    victim: u32,
) -> bool {
    if requested > active {
        is_first_frame(frames, victim)
    } else if requested < active {
        is_last_frame(frames, victim)
    } else if forall|other: u32| #[trigger] frames.contains(other) ==> other < current {
        is_first_frame(frames, victim)
    } else {
        is_last_frame(frames, victim)
    }
}

impl<F> DecoderState<F> {
    /// The cache never outgrows its size, and the window of a pending request
    /// is half the cache size to either side of the requested frame.
    pub open spec fn valid(self) -> bool {
        &&& 0 < self.frame_cache_size
        &&& self.cache.dom().finite()
        &&& self.cache.len() <= self.frame_cache_size
        &&& self.pending matches Some(pending) ==> {
            &&& pending.cache_min == if pending.requested_frame < self.frame_cache_size / 2 {
                0
            } else {
                pending.requested_frame - self.frame_cache_size / 2
            }
            &&& pending.cache_max == pending.requested_frame + self.frame_cache_size / 2
            &&& self.last_active_frame == Some(pending.requested_frame)
        }
    }

    /// Whether a request for a frame that is not cached jumps: to the first
    /// frame, backwards, further forward than the cache is large, or from
    /// nowhere.
    pub open spec fn jumps_to(self, requested: u32) -> bool {
        ||| requested == 0
        ||| match self.last_sent_frame {
            Some((last, _)) => requested < last || requested - last > self.frame_cache_size,
            None => true,
        }
    }

    /// `pixels` have been sent in reply to a request for the cached `frame`.
    pub open spec fn after_sending(self, frame: u32, pixels: DecodedFrame) -> Self {
        DecoderState {
            cache: self.cache.insert(
                frame,
                CachedFrame { data: CachedFrameData::Processed(pixels) },
            ),
            last_sent_frame: Some((frame, pixels)),
            ..self
        }
    }

    /// Decoding for `requested` begins.
    pub open spec fn after_request(self, requested: u32) -> Self {
        let half = self.frame_cache_size / 2;
        DecoderState {
            last_active_frame: Some(requested),
            last_decoded_frame: if self.jumps_to(requested) {
                None
            } else {
                self.last_decoded_frame
            },
            pending: Some(
                PendingFrame {
                    requested_frame: requested,
                    cache_min: if requested < half {
                        0
                    } else {
                        (requested - half) as u32
                    },
                    cache_max: (requested + half) as u32,
                    awaiting: true,
                    exit: false,
                },
            ),
            ..self
        }
    }

    /// `answer` is the answer to a request, and `next` the state after it. A
    /// cached frame is sent; any other frame has to be decoded.
    pub open spec fn answers<C: FnOnce(F) -> RgbaFrame>(
        self,
        requested: u32,
        convert: C,
        answer: GetFrame,
        next: Self,
    ) -> bool {
        match answer {
            GetFrame::Reply(pixels) => {
                &&& self.cache.contains_key(requested)
                &&& self.cache[requested].shows(convert, pixels)
                &&& next == self.after_sending(requested, pixels)
            },
            GetFrame::Decode { seek } => {
                &&& !self.cache.contains_key(requested)
                &&& seek == self.jumps_to(requested)
                &&& next == self.after_request(requested)
            },
        }
    }

    /// The frame that stands for a requested frame which the video skips: the
    /// one decoded before `current`, if the requested frame lies between the
    /// two.
    pub open spec fn skipped_to(self, current: u32) -> Option<u32> {
        match (self.pending, self.last_decoded_frame) {
            (Some(pending), Some(last)) => if pending.awaiting && last < pending.requested_frame
                < current {
                Some(last)
            } else {
                None
            },
            _ => None,
        }
    }

    /// The requested frame is skipped, and the frame that stands for it is no
    /// longer cached.
    pub open spec fn loses(self, current: u32) -> bool {
        self.skipped_to(current) matches Some(last) && !self.cache.contains_key(last)
    }

    /// `current` is the requested frame, and still waited for.
    pub open spec fn hits(self, current: u32) -> bool {
        self.pending matches Some(pending) && pending.awaiting && current
            == pending.requested_frame
    }

    /// Whether decoding `current` brings a reply.
    pub open spec fn replies(self, current: u32) -> bool {
        self.hits(current) || (self.skipped_to(current) is Some && !self.loses(current))
    }

    /// Whether more frames are decoded for the request after `current`.
    pub open spec fn goes_on_after(self, current: u32) -> bool {
        !self.loses(current) && !self.hits(current)
    }

    /// Every frame that decoding `frame`, the frame number `current`, may send
    /// can be converted.
    pub open spec fn can_decode<C: FnOnce(F) -> RgbaFrame>(
        self,
        frame: F,
        current: u32,
        convert: C,
    ) -> bool {
        &&& self.skipped_to(current) matches Some(last) ==> (self.cache.contains_key(last)
            ==> self.cache[last].convertible(convert))
        &&& self.hits(current) ==> (CachedFrame {
            data: CachedFrameData::Raw(frame),
        }).convertible(convert)
    }

    /// `reply` is the reply that decoding `frame`, the frame number `current`,
    /// brings: the frame itself, or the one that stands for a skipped frame.
    pub open spec fn brings<C: FnOnce(F) -> RgbaFrame>(
        self,
        frame: F,
        current: u32,
        convert: C,
        reply: Option<DecodedFrame>,
    ) -> bool {
        &&& reply is Some <==> self.replies(current)
        &&& reply matches Some(pixels) ==> match self.skipped_to(current) {
            Some(last) => self.cache[last].shows(convert, pixels),
            None => (CachedFrame { data: CachedFrameData::Raw(frame) }).shows(convert, pixels),
        }
    }

    /// The requester no longer waits.
    pub open spec fn answered(self) -> Self {
        DecoderState {
            pending: match self.pending {
                Some(pending) => Some(PendingFrame { awaiting: false, ..pending }),
                None => None,
            },
            ..self
        }
    }

    /// `cache` is this cache with `stored` under the number `current`, after
    /// one frame left a full cache for it.
    pub open spec fn stores(
        self,
        current: u32,
        stored: CachedFrame<F>,
        cache: Map<u32, CachedFrame<F>>,
    ) -> bool {
        if self.cache.len() < self.frame_cache_size {
            cache == self.cache.insert(current, stored)
        } else {
            match (self.pending, self.last_active_frame) {
                (Some(pending), Some(active)) => exists|victim: u32| #[trigger]
                    is_victim(
                        self.cache.dom(),
                        pending.requested_frame,
                        active,
                        current,
                        victim,
                    ) && cache == self.cache.remove(victim).insert(current, stored),
                _ => cache == Map::empty().insert(current, stored),
            }
        }
    }

    /// `next` is the state after `frame`, the frame number `current`, has been
    /// decoded and `reply` sent.
    pub open spec fn decodes_to(
        self,
        frame: F,
        current: u32,
        reply: Option<DecodedFrame>,
        next: Self,
    ) -> bool {
        if self.loses(current) {
            next == self.answered()
        } else if self.hits(current) {
            &&& reply matches Some(pixels)
            &&& next == (DecoderState {
                cache: next.cache,
                last_decoded_frame: Some(current),
                last_sent_frame: Some((current, pixels)),
                ..self.answered()
            })
            &&& self.stores(
                current,
                CachedFrame { data: CachedFrameData::Processed(pixels) },
                next.cache,
            )
        } else {
            let sent = match (self.skipped_to(current), reply) {
                (Some(last), Some(pixels)) => self.after_sending(last, pixels).answered(),
                _ => self,
            };
            let pending = sent.pending.unwrap();
            &&& next.frame_cache_size == self.frame_cache_size
            &&& next.last_active_frame == self.last_active_frame
            &&& next.last_decoded_frame == Some(current)
            &&& next.last_sent_frame == sent.last_sent_frame
            &&& next.pending == Some(
                PendingFrame { exit: pending.exit || current > pending.cache_max, ..pending },
            )
            &&& if current < pending.cache_min {
                next.cache == sent.cache
            } else {
                sent.stores(
                    current,
                    CachedFrame { data: CachedFrameData::Raw(frame) },
                    next.cache,
                )
            }
        }
    }

    /// `next` is the state after `frame`, the frame number `current`, has been
    /// decoded, and the request has ended if no more frames are decoded for
    /// it.
    pub open spec fn decodes_or_ends(
        self,
        frame: F,
        current: u32,
        step: Decoded,
        next: Self,
    ) -> bool {
        &&& step.more <==> self.goes_on_after(current)
        &&& exists|decoded: Self| #[trigger]
            self.decodes_to(frame, current, step.reply, decoded) && next == if step.more {
                decoded
            } else {
                decoded.finished()
            }
    }

    /// No request is pending any more.
    pub open spec fn finished(self) -> Self {
        DecoderState { pending: None, ..self }
    }

    /// The reply that the requester gets when decoding ends without one: the
    /// frame sent last, unless it lies at or beyond the requested frame and
    /// decoding has passed the cache window.
    pub open spec fn final_reply(self) -> Option<DecodedFrame> {
        match (self.pending, self.last_sent_frame) {
            (Some(pending), Some((last, pixels))) => if pending.awaiting && (last
                < pending.requested_frame || !pending.exit) {
                Some(pixels)
            } else {
                None
            },
            _ => None,
        }
    }
}

/// Serves frames of one video by number. The caller owns the decoder: it
/// announces requests and decoded frames, and does what it is told.
pub struct FfmpegDecoder<F> {
    frame_cache_size: u32,
    cache: BTreeMap<u32, CachedFrame<F>>,
    last_active_frame: Option<u32>,
    last_decoded_frame: Option<u32>,
    last_sent_frame: Option<(u32, DecodedFrame)>,
    pending: Option<PendingFrame>,
}

impl<F> View for FfmpegDecoder<F> {
    type V = DecoderState<F>;

    closed spec fn view(&self) -> DecoderState<F> {
        DecoderState {
            frame_cache_size: self.frame_cache_size,
            cache: self.cache@,
            last_active_frame: self.last_active_frame,
            last_decoded_frame: self.last_decoded_frame,
            last_sent_frame: self.last_sent_frame,
            pending: self.pending,
        }
    }
}

impl<F> FfmpegDecoder<F> {
    /// A server that has decoded nothing yet and caches up to
    /// `frame_cache_size` frames.
    pub fn new(frame_cache_size: u32) -> (decoder: Self)
        requires
            0 < frame_cache_size,
        ensures
            decoder@.valid(),
            decoder@ == (DecoderState::<F> {
                frame_cache_size,
                cache: Map::empty(),
                last_active_frame: None,
                last_decoded_frame: None,
                last_sent_frame: None,
                pending: None,
            }),
    {
        FfmpegDecoder {
            frame_cache_size,
            cache: BTreeMap::new(),
            last_active_frame: None,
            last_decoded_frame: None,
            last_sent_frame: None,
            pending: None,
        }
    }

    /// Whether `frame` is cached.
    pub fn is_cached(&self, frame: u32) -> (cached: bool)
        ensures
            cached == self@.cache.contains_key(frame),
    {
        broadcast use vstd::std_specs::btree::group_btree_axioms;

        proof {
            lemma_frame_numbers_are_keys();
        }
        self.cache.contains_key(&frame)
    }

    /// The pixels of the cached `frame`, which becomes the frame sent last.
    fn send_cached<C: FnOnce(F) -> RgbaFrame>(&mut self, frame: u32, convert: C) -> (reply: Option<
        DecodedFrame,
    >)
        requires
            old(self)@.cache.contains_key(frame) ==> old(self)@.cache[frame].convertible(convert),
        ensures
            match reply {
                Some(pixels) => {
                    &&& old(self)@.cache.contains_key(frame)
                    &&& old(self)@.cache[frame].shows(convert, pixels)
                    &&& final(self)@ == old(self)@.after_sending(frame, pixels)
                },
                None => !old(self)@.cache.contains_key(frame) && final(self)@ == old(self)@,
            },
    {
        broadcast use vstd::std_specs::btree::group_btree_axioms;

        proof {
            lemma_frame_numbers_are_keys();
        }
        match self.cache.remove(&frame) {
            Some(mut cached) => {
                let pixels = cached.process(convert);
                self.cache.insert(frame, cached);
                self.last_sent_frame = Some((frame, share(&pixels)));
                assert(self@.cache =~= old(self)@.after_sending(frame, pixels).cache);
                Some(pixels)
            },
            None => {
                assert(self@.cache =~= old(self)@.cache);
                None
            },
        }
    }

    /// A request for `requested_frame` arrives. A cached frame is the reply;
    /// any other frame has to be decoded.
    pub fn get_frame<C: FnOnce(F) -> RgbaFrame>(
        &mut self,
        requested_frame: u32,
        convert: C,
    ) -> (answer: GetFrame)
        requires
            old(self)@.valid(),
            if old(self)@.cache.contains_key(requested_frame) {
                old(self)@.cache[requested_frame].convertible(convert)
            } else {
                requested_frame + old(self)@.frame_cache_size / 2 <= u32::MAX
            },
        ensures
            final(self)@.valid(),
            old(self)@.answers(requested_frame, convert, answer, final(self)@),
            !old(self)@.cache.contains_key(requested_frame) ==> answer == (GetFrame::Decode {
                seek: match old(self)@.last_sent_frame {
                    Some((last, _)) => requested_frame == 0 || requested_frame < last
                        || requested_frame > last + old(self)@.frame_cache_size,
                    None => true,
                },
            }),
    {
        match self.send_cached(requested_frame, convert) {
            Some(pixels) => {
                proof {
                    assert(old(self)@.cache.insert(
                        requested_frame,
                        self@.cache[requested_frame],
                    ).dom() =~= old(self)@.cache.dom());
                }
                return GetFrame::Reply(pixels);
            },
            None => {},
        }
        let half: u32 = self.frame_cache_size / 2;
        let cache_min: u32 = if requested_frame < half {
            0
        } else {
            requested_frame - half
        };
        let cache_max: u32 = requested_frame + half;
        let seek = requested_frame == 0 || match &self.last_sent_frame {
            Some(last) => requested_frame < last.0 || requested_frame - last.0
                > self.frame_cache_size,
            None => true,
        };
        if seek {
            self.last_decoded_frame = None;
        }
        self.last_active_frame = Some(requested_frame);
        self.pending = Some(
            PendingFrame { requested_frame, cache_min, cache_max, awaiting: true, exit: false },
        );
        GetFrame::Decode { seek }
    }

    /// Makes room in a full cache for the frame number `current_frame`.
    fn evict(&mut self, requested_frame: u32, current_frame: u32)
        requires
            old(self)@.valid(),
        ensures
            final(self)@ == (DecoderState { cache: final(self)@.cache, ..old(self)@ }),
            final(self)@.cache.dom().finite(),
            if old(self)@.cache.len() < old(self)@.frame_cache_size {
                final(self)@.cache == old(self)@.cache
            } else {
                &&& final(self)@.cache.len() < old(self)@.frame_cache_size
                &&& match old(self)@.last_active_frame {
                    Some(active) => exists|victim: u32| #[trigger]
                        is_victim(
                            old(self)@.cache.dom(),
                            requested_frame,
                            active,
                            current_frame,
                            victim,
                        ) && final(self)@.cache == old(self)@.cache.remove(victim),
                    None => final(self)@.cache == Map::<u32, CachedFrame<F>>::empty(),
                }
            },
    {
        broadcast use vstd::std_specs::btree::group_btree_axioms;

        proof {
            lemma_frame_numbers_are_keys();
        }
        if self.cache.len() >= self.frame_cache_size as usize {
            match self.last_active_frame {
                Some(active) => {
                    let (first, last) = cached_range(&self.cache);
                    let victim: u32 = if requested_frame > active {
                        first
                    } else if requested_frame < active {
                        last
                    } else if current_frame > last {
                        first
                    } else {
                        last
                    };
                    assert(is_victim(
                        self@.cache.dom(),
                        requested_frame,
                        active,
                        current_frame,
                        victim,
                    ));
                    self.cache.remove(&victim);
                },
                None => {
                    self.cache.clear();
                },
            }
        }
    }

    /// Caches `stored` under the number `current_frame`.
    fn store(&mut self, requested_frame: u32, current_frame: u32, stored: CachedFrame<F>)
        requires
            old(self)@.valid(),
            old(self)@.pending matches Some(pending) && pending.requested_frame == requested_frame,
        ensures
            final(self)@.valid(),
            final(self)@ == (DecoderState { cache: final(self)@.cache, ..old(self)@ }),
            old(self)@.stores(current_frame, stored, final(self)@.cache),
    {
        broadcast use vstd::std_specs::btree::group_btree_axioms;

        proof {
            lemma_frame_numbers_are_keys();
        }
        self.evict(requested_frame, current_frame);
        let ghost room = self@.cache;
        self.cache.insert(current_frame, stored);
        assert(self@.cache.dom() =~= room.dom().insert(current_frame));
    }

    /// The caller decoded `frame`, whose number is `current_frame`, for the
    /// pending request.
    pub fn decoded<C: FnOnce(F) -> RgbaFrame>(
        &mut self,
        frame: F,
        current_frame: u32,
        convert: C,
    ) -> (step: Decoded)
        requires
            old(self)@.valid(),
            old(self)@.pending is Some,
            old(self)@.can_decode(frame, current_frame, convert),
        ensures
            final(self)@.valid(),
            old(self)@.decodes_to(frame, current_frame, step.reply, final(self)@),
            old(self)@.brings(frame, current_frame, convert, step.reply),
            step.more <==> old(self)@.goes_on_after(current_frame),
    {
        broadcast use vstd::std_specs::btree::group_btree_axioms;

        proof {
            lemma_frame_numbers_are_keys();
        }
        let mut pending = self.pending.unwrap();
        let requested_frame: u32 = pending.requested_frame;

        if pending.awaiting && current_frame == requested_frame {
            let mut cached = CachedFrame { data: CachedFrameData::Raw(frame) };
            let pixels = cached.process(convert);
            pending.awaiting = false;
            self.pending = Some(pending);
            self.last_decoded_frame = Some(current_frame);
            self.last_sent_frame = Some((current_frame, share(&pixels)));
            self.store(requested_frame, current_frame, cached);
            return Decoded { reply: Some(pixels), more: false };
        }
        let skipped: Option<u32> = match self.last_decoded_frame {
            Some(last) => if pending.awaiting && last < requested_frame && requested_frame
                < current_frame {
                Some(last)
            } else {
                None
            },
            None => None,
        };
        let mut reply: Option<DecodedFrame> = None;
        if let Some(last) = skipped {
            pending.awaiting = false;
            self.pending = Some(pending);
            reply = self.send_cached(last, convert);
            if reply.is_none() {
                return Decoded { reply, more: false };
            }
            proof {
                assert(self@.cache.dom() =~= old(self)@.cache.dom());
            }
        }
        self.last_decoded_frame = Some(current_frame);
        if current_frame >= pending.cache_min {
            let raw = CachedFrame { data: CachedFrameData::Raw(frame) };
            self.store(requested_frame, current_frame, raw);
        }
        pending.exit = pending.exit || current_frame > pending.cache_max;
        self.pending = Some(pending);
        Decoded { reply, more: true }
    }

    /// No more frames are decoded for the pending request: another request
    /// arrived, the video ended, decoding failed, or the reply was sent.
    pub fn finish(&mut self) -> (reply: Option<DecodedFrame>)
        requires
            old(self)@.valid(),
        ensures
            final(self)@.valid(),
            final(self)@ == old(self)@.finished(),
            reply == old(self)@.final_reply(),
    {
        let pending = self.pending;
        self.pending = None;
        match (pending, &self.last_sent_frame) {
            (Some(pending), Some(last)) => if pending.awaiting && (last.0
                < pending.requested_frame || !pending.exit) {
                Some(share(&last.1))
            } else {
                None
            },
            _ => None,
        }
    }

    /// Something happened while frames are decoded for the pending request. A
    /// decoded frame ends the request if it brings the reply or if the reply
    /// is lost; anything else ends it at once.
    pub fn next<C: FnOnce(F) -> RgbaFrame>(&mut self, event: DecodeEvent<F>, convert: C) -> (step:
        Decoded)
        requires
            old(self)@.valid(),
            old(self)@.pending is Some,
            event matches DecodeEvent::Frame { frame, current_frame } ==> old(self)@.can_decode(
                frame,
                current_frame,
                convert,
            ),
        ensures
            final(self)@.valid(),
            match event {
                DecodeEvent::Frame { frame, current_frame } => {
                    &&& old(self)@.decodes_or_ends(frame, current_frame, step, final(self)@)
                    &&& old(self)@.brings(frame, current_frame, convert, step.reply)
                },
                _ => {
                    &&& step.reply == old(self)@.final_reply()
                    &&& !step.more
                    &&& final(self)@ == old(self)@.finished()
                },
            },
    {
        match event {
            DecodeEvent::Frame { frame, current_frame } => {
                let step = self.decoded(frame, current_frame, convert);
                let ghost decoded = self@;
                if !step.more {
                    self.finish();
                }
                assert(old(self)@.decodes_to(frame, current_frame, step.reply, decoded));
                step
            },
            _ => Decoded { reply: self.finish(), more: false },
        }
    }
}

/// A frame decoded for a request, and the reply that it brought.
pub struct DecodeStep<F> {
    pub frame: F,
    pub current: u32,
    pub reply: Option<DecodedFrame>,
}

/// `states` are the states that a server passes through while `steps` are
/// decoded for one request.
pub open spec fn is_decode_run<F>(states: Seq<DecoderState<F>>, steps: Seq<DecodeStep<F>>) -> bool {
    &&& states.len() == steps.len() + 1
    &&& states[0].pending is Some
    &&& forall|i: int|
        #![trigger steps[i]]
        0 <= i < steps.len() ==> {
            &&& states[i].decodes_to(
                steps[i].frame,
                steps[i].current,
                steps[i].reply,
                states[i + 1],
            )
            &&& steps[i].reply is Some <==> states[i].replies(steps[i].current)
        }
}

/// A request stays pending throughout the run, for the same frame, and
/// whoever is no longer waited for is not waited for again.
proof fn lemma_run_keeps_request<F>(
    states: Seq<DecoderState<F>>,
    steps: Seq<DecodeStep<F>>,
    i: int,
    j: int,
)
    requires
        is_decode_run(states, steps),
        0 <= i <= j <= steps.len(),
    ensures
        states[i].pending is Some,
        states[j].pending is Some,
        states[i].pending.unwrap().requested_frame == states[j].pending.unwrap().requested_frame,
        !states[i].pending.unwrap().awaiting ==> !states[j].pending.unwrap().awaiting,
    decreases j,
{
    if j > 0 {
        let _ = steps[j - 1];
        if i < j {
            lemma_run_keeps_request(states, steps, i, j - 1);
        } else {
            lemma_run_keeps_request(states, steps, i - 1, j - 1);
        }
    }
}

/// A request gets at most one reply: after one brought by a decoded frame,
/// neither a later frame nor the end of decoding brings another.
pub proof fn law_at_most_one_reply<F>(
    states: Seq<DecoderState<F>>,
    steps: Seq<DecodeStep<F>>,
    i: int,
    j: int,
)
    requires
        is_decode_run(states, steps),
        0 <= i < j < steps.len() || (0 <= i < steps.len() && j == steps.len()),
        steps[i].reply is Some,
    ensures
        j < steps.len() ==> steps[j].reply is None,
        states.last().final_reply() is None,
{
    let _ = steps[i];
    lemma_run_keeps_request(states, steps, 0, i);
    lemma_run_keeps_request(states, steps, i + 1, j);
    lemma_run_keeps_request(states, steps, i + 1, steps.len() as int);
    if j < steps.len() {
        let _ = steps[j];
    }
}

/// A reply brought by a decoded frame shows the requested frame, or the last
/// frame before it when the video skips it.
pub proof fn law_reply_is_not_ahead<F>(
    state: DecoderState<F>,
    frame: F,
    current: u32,
    pixels: DecodedFrame,
    next: DecoderState<F>,
)
    requires
        state.pending is Some,
        state.replies(current),
        state.decodes_to(frame, current, Some(pixels), next),
    ensures
        next.last_sent_frame matches Some((sent, shown)) && shown == pixels && (if current
            == state.pending.unwrap().requested_frame {
            sent == current
        } else {
            &&& Some(sent) == state.last_decoded_frame
            &&& sent < state.pending.unwrap().requested_frame < current
        }),
{
}

/// A frame that was sent from the cache is sent again with the same pixels,
/// whatever the converter: it is not converted twice.
pub proof fn law_cached_frame_is_sent_again<F, C: FnOnce(F) -> RgbaFrame>(
    state: DecoderState<F>,
    frame: u32,
    pixels: DecodedFrame,
    convert: C,
    again: DecodedFrame,
)
    requires
        state.after_sending(frame, pixels).cache[frame].shows(convert, again),
    ensures
        again == pixels,
        state.after_sending(frame, pixels).after_sending(frame, again) == state.after_sending(
            frame,
            pixels,
        ),
{
    assert(state.after_sending(frame, pixels).after_sending(frame, again).cache
        =~= state.after_sending(frame, pixels).cache);
}

/// Decoding a frame leaves the cache within its size, adds no other frame
/// than the decoded one, and that one only if it does not lie before the
/// window of the request.
pub proof fn law_cache_stays_in_bounds<F>(
    state: DecoderState<F>,
    frame: F,
    current: u32,
    reply: Option<DecodedFrame>,
    next: DecoderState<F>,
)
    requires
        state.valid(),
        state.pending is Some,
        reply is Some <==> state.replies(current),
        state.decodes_to(frame, current, reply, next),
    ensures
        next.valid(),
        next.cache.len() <= state.frame_cache_size,
        forall|cached: u32| #[trigger]
            next.cache.contains_key(cached) ==> state.cache.contains_key(cached) || (cached
                == current && state.pending.unwrap().cache_min <= current),
{
    if !state.loses(current) {
        let sent = match (state.skipped_to(current), reply) {
            (Some(last), Some(pixels)) => state.after_sending(last, pixels).answered(),
            _ => state,
        };
        assert(sent.cache.dom() =~= state.cache.dom());
        let stored = match reply {
            Some(pixels) if state.hits(current) => CachedFrame {
                data: CachedFrameData::Processed(pixels),
            },
            _ => CachedFrame { data: CachedFrameData::Raw(frame) },
        };
        if current >= sent.pending.unwrap().cache_min {
            assert(sent.stores(current, stored, next.cache));
            if sent.cache.len() < sent.frame_cache_size {
                assert(next.cache.dom() =~= sent.cache.dom().insert(current));
            } else {
                let pending = sent.pending.unwrap();
                let active = sent.last_active_frame.unwrap();
                let victim = choose|victim: u32| #[trigger]
                    is_victim(
                        sent.cache.dom(),
                        pending.requested_frame,
                        active,
                        current,
                        victim,
                    ) && next.cache == sent.cache.remove(victim).insert(current, stored);
                assert(next.cache.dom() =~= sent.cache.dom().remove(victim).insert(current));
            }
        }
    }
}

/// A frame that was decoded for its own request is cached: the same request,
/// made again, is answered at once with the same pixels.
pub proof fn law_repeated_request_is_answered<F, C: FnOnce(F) -> RgbaFrame>(
    state: DecoderState<F>,
    frame: F,
    current: u32,
    pixels: DecodedFrame,
    next: DecoderState<F>,
    convert: C,
    answer: GetFrame,
    after: DecoderState<F>,
)
    requires
        state.hits(current),
        state.decodes_to(frame, current, Some(pixels), next),
        next.finished().answers(current, convert, answer, after),
    ensures
        answer == GetFrame::Reply(pixels),
{
}

} // verus!
