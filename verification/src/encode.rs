//! From a video to an animation: where the width, the height and the frame
//! rate of the animation come from, and what its header is.
//!
//! Each of the three is taken from the first source that has it: what was
//! asked for, then the descriptor of an earlier animation, then the video
//! itself.

use vstd::prelude::*;
use crate::descriptor::Header;
use crate::error::{Error, Setting};

verus! {

/// What was asked for.
#[derive(Clone, Copy, Debug, PartialEq, Eq, Structural)]
pub struct EncodeRequest {
    pub width: Option<u32>,
    pub height: Option<u32>,
    pub fps: Option<u32>,
    pub with_audio: bool,
}

/// What was found out about the video.
#[derive(Clone, Copy, Debug, PartialEq, Eq, Structural)]
pub struct VideoProperties {
    pub width: u32,
    pub height: u32,
    pub fps: u32,
    pub has_audio: bool,
}

/// What the animation is made with.
#[derive(Clone, Copy, Debug, PartialEq, Eq, Structural)]
pub struct EncodeSettings {
    /// The header of the descriptor.
    pub header: Header,
    /// Whether the parts get sound.
    pub has_audio: bool,
}

/// The first of three values that is there.
pub open spec fn first_of(a: Option<u32>, b: Option<u32>, c: Option<u32>) -> Option<u32> {
    if a is Some {
        a
    } else if b is Some {
        b
    } else {
        c
    }
}

/// The width that the three sources give.
pub open spec fn resolved_width(
    request: EncodeRequest,
    seed: Option<Header>,
    video: Option<VideoProperties>,
) -> Option<u32> {
    first_of(
        request.width,
        match seed {
            Some(h) => Some(h.spec_width()),
            None => None,
        },
        match video {
            Some(v) => Some(v.width),
            None => None,
        },
    )
}

/// The height that the three sources give.
pub open spec fn resolved_height(
    request: EncodeRequest,
    seed: Option<Header>,
    video: Option<VideoProperties>,
) -> Option<u32> {
    first_of(
        request.height,
        match seed {
            Some(h) => Some(h.spec_height()),
            None => None,
        },
        match video {
            Some(v) => Some(v.height),
            None => None,
        },
    )
}

/// The frame rate that the three sources give.
pub open spec fn resolved_fps(
    request: EncodeRequest,
    seed: Option<Header>,
    video: Option<VideoProperties>,
) -> Option<u32> {
    first_of(
        request.fps,
        match seed {
            Some(h) => Some(h.spec_fps()),
            None => None,
        },
        match video {
            Some(v) => Some(v.fps),
            None => None,
        },
    )
}

/// The header with the given numbers, in the dialect of the earlier
/// descriptor and with its offsets; the standard header where there is no
/// earlier descriptor.
pub open spec fn header_like(seed: Option<Header>, width: u32, height: u32, fps: u32) -> Header {
    match seed {
        Some(Header::Global { offset_x, offset_y, .. }) => Header::Global {
            width,
            height,
            offset_x,
            offset_y,
            fps,
        },
        _ => Header::Standard { width, height, fps },
    }
}

/// The settings that the three sources give: the width, the height and the
/// frame rate each from the first source that has it, or the first of them,
/// in this order, that no source has.
pub open spec fn resolved_settings(
    request: EncodeRequest,
    seed: Option<Header>,
    video: Option<VideoProperties>,
) -> Result<EncodeSettings, Error> {
    match (
        resolved_width(request, seed, video),
        resolved_height(request, seed, video),
        resolved_fps(request, seed, video),
    ) {
        (None, _, _) => Err(Error::MissingRequiredValue(Setting::Width)),
        (Some(_), None, _) => Err(Error::MissingRequiredValue(Setting::Height)),
        (Some(_), Some(_), None) => Err(Error::MissingRequiredValue(Setting::Fps)),
        (Some(width), Some(height), Some(fps)) => Ok(
            EncodeSettings {
                header: header_like(seed, width, height, fps),
                has_audio: request.with_audio && (video matches Some(v) && v.has_audio),
            },
        ),
    }
}

/// The video has to be looked at: sound was asked for, or some setting was
/// neither asked for nor comes with an earlier descriptor.
pub open spec fn probe_needed(request: EncodeRequest, seed: Option<Header>) -> bool {
    request.with_audio || (seed is None && (request.width is None || request.height is None
        || request.fps is None))
}

/// Tells whether the video has to be looked at before the settings can be
/// resolved.
pub fn needs_probe(request: &EncodeRequest, seed: &Option<Header>) -> (r: bool)
    ensures
        r == probe_needed(*request, *seed),
{
    request.with_audio || (seed.is_none() && (request.width.is_none() || request.height.is_none()
        || request.fps.is_none()))
}

/// One setting: the first of the three values that is there.
fn pick(a: Option<u32>, b: Option<u32>, c: Option<u32>) -> (r: Option<u32>)
    ensures
        r == first_of(a, b, c),
{
    if a.is_some() {
        a
    } else if b.is_some() {
        b
    } else {
        c
    }
}

/// Resolves the settings of the animation from what was asked for, the
/// header of an earlier descriptor and what was found out about the video.
///
/// It fails with [`Error::MissingRequiredValue`] for the first of width,
/// height and frame rate that no source has.
pub fn resolve_settings(
    request: &EncodeRequest,
    seed: &Option<Header>,
    video: &Option<VideoProperties>,
) -> (r: Result<EncodeSettings, Error>)
    ensures
        r == resolved_settings(*request, *seed, *video),
{
    let seed_width = match seed {
        Some(h) => Some(h.width()),
        None => None,
    };
    let seed_height = match seed {
        Some(h) => Some(h.height()),
        None => None,
    };
    let seed_fps = match seed {
        Some(h) => Some(h.fps()),
        None => None,
    };
    let video_width = match video {
        Some(v) => Some(v.width),
        None => None,
    };
    let video_height = match video {
        Some(v) => Some(v.height),
        None => None,
    };
    let video_fps = match video {
        Some(v) => Some(v.fps),
        None => None,
    };
    let width = match pick(request.width, seed_width, video_width) {
        Some(n) => n,
        None => {
            return Err(Error::MissingRequiredValue(Setting::Width));
        },
    };
    let height = match pick(request.height, seed_height, video_height) {
        Some(n) => n,
        None => {
            return Err(Error::MissingRequiredValue(Setting::Height));
        },
    };
    let fps = match pick(request.fps, seed_fps, video_fps) {
        Some(n) => n,
        None => {
            return Err(Error::MissingRequiredValue(Setting::Fps));
        },
    };
    let header = match seed {
        Some(Header::Global { offset_x, offset_y, .. }) => Header::Global {
            width,
            height,
            offset_x: *offset_x,
            offset_y: *offset_y,
            fps,
        },
        _ => Header::Standard { width, height, fps },
    };
    let has_audio = request.with_audio && match video {
        Some(v) => v.has_audio,
        None => false,
    };
    Ok(EncodeSettings { header, has_audio })
}

/// Where the video need not be looked at, the settings can be resolved
/// without it, and looking at it would change nothing.
pub proof fn lemma_probe_not_needed(request: EncodeRequest, seed: Option<Header>, video: VideoProperties)
    requires
        !probe_needed(request, seed),
    ensures
        resolved_settings(request, seed, None) is Ok,
        resolved_settings(request, seed, Some(video)) == resolved_settings(request, seed, None),
{
}

} // verus!
