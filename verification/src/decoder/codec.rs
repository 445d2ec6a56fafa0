//! Which decoder opens a stream.

use vstd::prelude::*;

verus! {

/// What a stream carries.
#[derive(Clone, Copy, PartialEq, Eq, Structural)]
pub enum MediaType {
    Video,
    Audio,
    Subtitle,
    Other,
}

/// The codecs that an opened input prescribes, per kind of stream.
pub struct PresetCodecs<C> {
    pub video: Option<C>,
    pub audio: Option<C>,
    pub subtitle: Option<C>,
}

/// The codec that the input prescribes for a stream of this kind.
pub open spec fn preset_codec<C>(medium: MediaType, presets: PresetCodecs<C>) -> Option<C> {
    match medium {
        MediaType::Video => presets.video,
        MediaType::Audio => presets.audio,
        MediaType::Subtitle => presets.subtitle,
        MediaType::Other => None,
    }
}

/// The decoder for a stream: the one that the input prescribes for its kind,
/// or else the one that `look_up` finds for its codec, which is asked only
/// then.
pub fn find_decoder<C, L: FnOnce() -> Option<C>>(
    medium: MediaType,
    presets: PresetCodecs<C>,
    look_up: L,
) -> (codec: Option<C>)
    requires
        preset_codec(medium, presets) is None ==> look_up.requires(()),
    ensures
        match preset_codec(medium, presets) {
            Some(preset) => codec == Some(preset),
            None => look_up.ensures((), codec),
        },
        medium == MediaType::Video && presets.video is Some ==> codec == presets.video,
        medium == MediaType::Audio && presets.audio is Some ==> codec == presets.audio,
        medium == MediaType::Subtitle && presets.subtitle is Some ==> codec == presets.subtitle,
        medium == MediaType::Other ==> look_up.ensures((), codec),
{
    let preset = match medium {
        MediaType::Video => presets.video,
        MediaType::Audio => presets.audio,
        MediaType::Subtitle => presets.subtitle,
        MediaType::Other => None,
    };
    match preset {
        Some(codec) => Some(codec),
        None => look_up(),
    }
}

/// A stream is opened with the codec that is prescribed for its own kind, whatever
/// is prescribed for the others. Nothing is prescribed for other streams.
pub proof fn law_kinds_do_not_mix<C>(presets: PresetCodecs<C>)
    ensures
        preset_codec(MediaType::Video, presets) == presets.video,
        preset_codec(MediaType::Audio, presets) == presets.audio,
        preset_codec(MediaType::Subtitle, presets) == presets.subtitle,
        preset_codec(MediaType::Other, presets) is None,
{
}

} // verus!
