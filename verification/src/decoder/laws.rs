//! What a frame server owes its requesters.

use vstd::prelude::*;

use crate::decoder::ffmpeg::{is_victim, Decoded, DecoderState, GetFrame};
use crate::decoder::frame::{CachedFrame, CachedFrameData, DecodedFrame, RgbaFrame};

verus! {

/// A cached frame is sent at once: with the pixels that it was sent with before,
/// or else with the packed pixels of its picture. From then on it is cached with
/// these pixels; every other frame stays as it is, and nothing is decoded.
pub proof fn law_cached_frame_is_sent<F, C: FnOnce(F) -> RgbaFrame>(
    state: DecoderState<F>,
    requested: u32,
    convert: C,
    answer: GetFrame,
    next: DecoderState<F>,
)
    requires
        state.answers(requested, convert, answer, next),
        state.cache.contains_key(requested),
    ensures
        answer matches GetFrame::Reply(pixels) && {
            &&& match state.cache[requested].data {
                CachedFrameData::Processed(earlier) => pixels == earlier,
                CachedFrameData::Raw(raw) => exists|rgba: RgbaFrame| #[trigger]
                    convert.ensures((raw,), rgba) && pixels@ == rgba.packed(),
            }
            &&& next.last_sent_frame == Some((requested, pixels))
            &&& next.cache.dom() == state.cache.dom()
            &&& next.cache[requested].data == CachedFrameData::<F>::Processed(pixels)
        },
        forall|other: u32| #[trigger]
            state.cache.contains_key(other) && other != requested ==> next.cache[other]
                == state.cache[other],
        next.frame_cache_size == state.frame_cache_size,
        next.last_active_frame == state.last_active_frame,
        next.last_decoded_frame == state.last_decoded_frame,
        next.pending == state.pending,
{
    assert(next.cache.dom() =~= state.cache.dom());
}

/// Decoding only goes forward, so that a request for a frame before the one that
/// was sent last has to seek, however far back it lies.
pub proof fn law_backward_request_seeks<F, C: FnOnce(F) -> RgbaFrame>(
    state: DecoderState<F>,
    requested: u32,
    convert: C,
    answer: GetFrame,
    next: DecoderState<F>,
)
    requires
        state.answers(requested, convert, answer, next),
        !state.cache.contains_key(requested),
        state.last_sent_frame matches Some((last, _)) && requested < last,
    ensures
        answer == (GetFrame::Decode { seek: true }),
{
}

/// As long as no frame has been sent, and for the first frame of the video, a
/// request that the cache cannot answer seeks.
pub proof fn law_first_request_seeks<F, C: FnOnce(F) -> RgbaFrame>(
    state: DecoderState<F>,
    requested: u32,
    convert: C,
    answer: GetFrame,
    next: DecoderState<F>,
)
    requires
        state.answers(requested, convert, answer, next),
        !state.cache.contains_key(requested),
        state.last_sent_frame is None || requested == 0,
    ensures
        answer == (GetFrame::Decode { seek: true }),
{
}

/// A request for a frame ahead is answered by decoding on, without a seek, if it
/// lies no further ahead than the cache holds frames; one further ahead seeks.
pub proof fn law_forward_request_seeks_if_far<F, C: FnOnce(F) -> RgbaFrame>(
    state: DecoderState<F>,
    requested: u32,
    convert: C,
    answer: GetFrame,
    next: DecoderState<F>,
)
    requires
        state.answers(requested, convert, answer, next),
        !state.cache.contains_key(requested),
        requested > 0,
        state.last_sent_frame matches Some((last, _)) && last <= requested,
    ensures
        state.last_sent_frame matches Some((last, _)) && answer == (GetFrame::Decode {
            seek: requested > last + state.frame_cache_size,
        }),
{
}

/// A request that the cache cannot answer leaves the cache and the frame that
/// was sent last alone, and waits for its frame. Frames are kept for it up to
/// half the cache size to either side. After a seek nothing counts as decoded.
pub proof fn law_request_waits<F, C: FnOnce(F) -> RgbaFrame>(
    state: DecoderState<F>,
    requested: u32,
    convert: C,
    seek: bool,
    next: DecoderState<F>,
)
    requires
        state.answers(requested, convert, GetFrame::Decode { seek }, next),
        requested + state.frame_cache_size / 2 <= u32::MAX,
    ensures
        !state.cache.contains_key(requested),
        next.frame_cache_size == state.frame_cache_size,
        next.cache == state.cache,
        next.last_sent_frame == state.last_sent_frame,
        next.last_active_frame == Some(requested),
        next.last_decoded_frame == if seek {
            None
        } else {
            state.last_decoded_frame
        },
        next.pending matches Some(pending) && {
            &&& pending.requested_frame == requested
            &&& pending.awaiting
            &&& !pending.exit
            &&& pending.cache_max - requested == state.frame_cache_size / 2
            &&& requested - pending.cache_min == if requested < state.frame_cache_size / 2 {
                requested as int
            } else {
                state.frame_cache_size as int / 2
            }
        },
{
}

/// When the requested frame has been decoded, it is sent: the reply is the packed
/// pixels of this very frame, it is cached with them, and the request is over.
pub proof fn law_requested_frame_is_sent<F, C: FnOnce(F) -> RgbaFrame>(
    state: DecoderState<F>,
    frame: F,
    current: u32,
    convert: C,
    step: Decoded,
    next: DecoderState<F>,
)
    requires
        state.decodes_or_ends(frame, current, step, next),
        state.brings(frame, current, convert, step.reply),
        state.valid(),
        state.pending matches Some(pending) && pending.awaiting && pending.requested_frame
            == current,
    ensures
        step.reply matches Some(pixels) && {
            &&& exists|rgba: RgbaFrame| #[trigger]
                convert.ensures((frame,), rgba) && pixels@ == rgba.packed()
            &&& next.last_sent_frame == Some((current, pixels))
            &&& next.cache.contains_key(current)
            &&& next.cache[current].data == CachedFrameData::<F>::Processed(pixels)
        },
        !step.more,
        next.pending is None,
        next.last_decoded_frame == Some(current),
        next.last_active_frame == state.last_active_frame,
        next.frame_cache_size == state.frame_cache_size,
        forall|other: u32| #[trigger]
            next.cache.contains_key(other) && other != current ==> state.cache.contains_key(other)
                && next.cache[other] == state.cache[other],
{
    let decoded = choose|decoded: DecoderState<F>| #[trigger]
        state.decodes_to(frame, current, step.reply, decoded) && next == if step.more {
            decoded
        } else {
            decoded.finished()
        };
    assert(decoded.cache == next.cache);
}

/// When decoding passes over the requested frame, the frame decoded before stands
/// in for it: it is sent if it is still cached, and decoding goes on to fill the
/// cache. If it is not, the request ends without a reply.
pub proof fn law_skipped_frame_is_replaced<F, C: FnOnce(F) -> RgbaFrame>(
    state: DecoderState<F>,
    frame: F,
    current: u32,
    convert: C,
    step: Decoded,
    next: DecoderState<F>,
    last: u32,
)
    requires
        state.decodes_or_ends(frame, current, step, next),
        state.brings(frame, current, convert, step.reply),
        state.valid(),
        state.pending matches Some(pending) && pending.awaiting && last
            < pending.requested_frame < current,
        state.last_decoded_frame == Some(last),
    ensures
        if state.cache.contains_key(last) {
            &&& step.reply matches Some(pixels) && {
                &&& match state.cache[last].data {
                    CachedFrameData::Processed(earlier) => pixels == earlier,
                    CachedFrameData::Raw(raw) => exists|rgba: RgbaFrame| #[trigger]
                        convert.ensures((raw,), rgba) && pixels@ == rgba.packed(),
                }
                &&& next.last_sent_frame == Some((last, pixels))
            }
            &&& step.more
            &&& next.last_decoded_frame == Some(current)
            &&& (state.pending, next.pending) matches (Some(before), Some(after)) && {
                &&& !after.awaiting
                &&& after.requested_frame == before.requested_frame
                &&& after.cache_min == before.cache_min
                &&& after.cache_max == before.cache_max
                &&& after.exit == (before.exit || current > before.cache_max)
            }
        } else {
            &&& step.reply is None
            &&& !step.more
            &&& next.pending is None
            &&& next.cache == state.cache
            &&& next.last_sent_frame == state.last_sent_frame
            &&& next.last_decoded_frame == state.last_decoded_frame
        },
{
    let decoded = choose|decoded: DecoderState<F>| #[trigger]
        state.decodes_to(frame, current, step.reply, decoded) && next == if step.more {
            decoded
        } else {
            decoded.finished()
        };
    assert(decoded.cache == next.cache);
}

/// Any other decoded frame brings no reply, and decoding goes on. The request
/// stays what it was; once a frame beyond its window has been decoded, that is
/// remembered.
pub proof fn law_other_frame_brings_no_reply<F, C: FnOnce(F) -> RgbaFrame>(
    state: DecoderState<F>,
    frame: F,
    current: u32,
    convert: C,
    step: Decoded,
    next: DecoderState<F>,
)
    requires
        state.decodes_or_ends(frame, current, step, next),
        state.brings(frame, current, convert, step.reply),
        state.valid(),
        state.pending matches Some(pending) && (!pending.awaiting || current
            < pending.requested_frame || (current > pending.requested_frame
            && match state.last_decoded_frame {
            Some(last) => last >= pending.requested_frame,
            None => true,
        })),
    ensures
        step.reply is None,
        step.more,
        next.frame_cache_size == state.frame_cache_size,
        next.last_sent_frame == state.last_sent_frame,
        next.last_active_frame == state.last_active_frame,
        next.last_decoded_frame == Some(current),
        (state.pending, next.pending) matches (Some(before), Some(after)) && {
            &&& after.requested_frame == before.requested_frame
            &&& after.cache_min == before.cache_min
            &&& after.cache_max == before.cache_max
            &&& after.awaiting == before.awaiting
            &&& after.exit == (before.exit || current > before.cache_max)
        },
{
}

/// A frame that was decoded for a request, and was not sent, is cached as it is
/// unless it lies before the window of the request. No cached frame changes,
/// but for the one that was sent.
pub proof fn law_decoded_frame_is_cached<F, C: FnOnce(F) -> RgbaFrame>(
    state: DecoderState<F>,
    frame: F,
    current: u32,
    convert: C,
    step: Decoded,
    next: DecoderState<F>,
)
    requires
        state.decodes_or_ends(frame, current, step, next),
        state.brings(frame, current, convert, step.reply),
        state.valid(),
        state.pending is Some,
        step.more,
    ensures
        state.pending matches Some(pending) && if current < pending.cache_min {
            next.cache.dom() == state.cache.dom()
        } else {
            &&& next.cache.contains_key(current)
            &&& next.cache[current].data == CachedFrameData::Raw(frame)
        },
        forall|other: u32| #[trigger]
            next.cache.contains_key(other) && other != current ==> {
                &&& state.cache.contains_key(other)
                &&& match step.reply {
                    Some(pixels) => if state.last_decoded_frame == Some(other) {
                        next.cache[other].data == CachedFrameData::<F>::Processed(pixels)
                    } else {
                        next.cache[other] == state.cache[other]
                    },
                    None => next.cache[other] == state.cache[other],
                }
            },
{
    let sent = match (state.skipped_to(current), step.reply) {
        (Some(last), Some(pixels)) => state.after_sending(last, pixels).answered(),
        _ => state,
    };
    assert(sent.cache.dom() =~= state.cache.dom());
}

/// A frame that is cached while there is room displaces no other. In a full cache
/// exactly one frame makes room: the first one, if the new frame lies beyond all
/// of them, and the last one otherwise.
pub proof fn law_full_cache_loses_the_far_end<F>(
    state: DecoderState<F>,
    frame: F,
    current: u32,
    step: Decoded,
    next: DecoderState<F>,
    other: u32,
)
    requires
        state.decodes_or_ends(frame, current, step, next),
        step.reply is Some <==> state.replies(current),
        state.valid(),
        state.pending is Some,
        next.last_decoded_frame == Some(current),
        state.pending matches Some(pending) && pending.cache_min <= current,
        other != current,
        state.cache.contains_key(other),
    ensures
        next.cache.contains_key(other) || {
            &&& state.cache.len() == state.frame_cache_size
            &&& if forall|cached: u32| #[trigger] state.cache.contains_key(cached) ==> cached
                < current {
                forall|cached: u32| #[trigger] state.cache.contains_key(cached) ==> other <= cached
            } else {
                forall|cached: u32| #[trigger] state.cache.contains_key(cached) ==> cached <= other
            }
        },
        state.cache.len() == state.frame_cache_size && !state.cache.contains_key(current)
            ==> next.cache.len() == state.frame_cache_size,
{
    let decoded = choose|decoded: DecoderState<F>| #[trigger]
        state.decodes_to(frame, current, step.reply, decoded) && next == if step.more {
            decoded
        } else {
            decoded.finished()
        };
    assert(decoded.cache == next.cache);
    if !state.loses(current) {
        lemma_stored(state, frame, current, step.reply, decoded, other);
    } else {
        assert(next.last_decoded_frame == state.last_decoded_frame);
    }
}

/// Which cached frames stay when a frame is cached.
proof fn lemma_stored<F>(
    state: DecoderState<F>,
    frame: F,
    current: u32,
    reply: Option<DecodedFrame>,
    next: DecoderState<F>,
    other: u32,
)
    requires
        state.valid(),
        state.pending matches Some(pending) && pending.cache_min <= current,
        reply is Some <==> state.replies(current),
        state.decodes_to(frame, current, reply, next),
        !state.loses(current),
        other != current,
        state.cache.contains_key(other),
    ensures
        next.cache.contains_key(other) || {
            &&& state.cache.len() == state.frame_cache_size
            &&& if forall|cached: u32| #[trigger] state.cache.contains_key(cached) ==> cached
                < current {
                forall|cached: u32| #[trigger] state.cache.contains_key(cached) ==> other <= cached
            } else {
                forall|cached: u32| #[trigger] state.cache.contains_key(cached) ==> cached <= other
            }
        },
        state.cache.len() == state.frame_cache_size && !state.cache.contains_key(current)
            ==> next.cache.len() == state.frame_cache_size,
{
    let sent = match (state.skipped_to(current), reply) {
        (Some(last), Some(pixels)) => state.after_sending(last, pixels).answered(),
        _ => state,
    };
    assert(sent.cache.dom() =~= state.cache.dom());
    assert(sent.cache.len() == state.cache.len());
    let stored = match reply {
        Some(pixels) if state.hits(current) => CachedFrame {
            data: CachedFrameData::Processed(pixels),
        },
        _ => CachedFrame { data: CachedFrameData::Raw(frame) },
    };
    assert(sent.stores(current, stored, next.cache));
    if sent.cache.len() == sent.frame_cache_size {
        let pending = sent.pending.unwrap();
        let active = sent.last_active_frame.unwrap();
        assert(active == pending.requested_frame);
        let victim = choose|victim: u32| #[trigger]
            is_victim(sent.cache.dom(), pending.requested_frame, active, current, victim)
                && next.cache == sent.cache.remove(victim).insert(current, stored);
        assert(next.cache.dom() =~= state.cache.dom().remove(victim).insert(current));
        assert(forall|cached: u32|
            state.cache.dom().contains(cached) == #[trigger] state.cache.contains_key(cached));
        if other == victim {
            assert forall|cached: u32| #[trigger] state.cache.contains_key(cached) implies if forall|
                cached: u32,
            | #[trigger] state.cache.contains_key(cached) ==> cached < current {
                other <= cached
            } else {
                cached <= other
            } by {
                assert(sent.cache.dom().contains(cached));
            }
        }
    } else {
        assert(next.cache.dom() =~= state.cache.dom().insert(current));
    }
}

/// When decoding ends before the requester got a reply, the frame that was sent
/// last stands in. Only if that frame does not lie before the requested one, and
/// decoding has passed the window of the request, there is no reply; nor is there
/// one if the requester got one before, or nothing was ever sent.
pub proof fn law_last_sent_frame_stands_in<F>(state: DecoderState<F>)
    requires
        state.pending is Some,
    ensures
        state.pending matches Some(pending) && match state.last_sent_frame {
            Some((last, pixels)) => {
                &&& pending.awaiting && last < pending.requested_frame ==> state.final_reply()
                    == Some(pixels)
                &&& pending.awaiting && !pending.exit ==> state.final_reply() == Some(pixels)
                &&& pending.exit && last >= pending.requested_frame ==> state.final_reply() is None
                &&& !pending.awaiting ==> state.final_reply() is None
            },
            None => state.final_reply() is None,
        },
        state.finished() == (DecoderState { pending: None, ..state }),
{
}

} // verus!
