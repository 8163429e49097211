//! The draft model values the planning logic works with.

use vstd::prelude::*;

verus! {

/// Canvas size and frame rate of a draft.
#[derive(Debug, Clone, Copy, PartialEq, Eq)]
pub struct Canvas {
    pub width: u32,
    pub height: u32,
    pub fps: u32,
}

impl Canvas {
    /// A canvas of the given size and frame rate.
    pub fn new(width: u32, height: u32, fps: u32) -> (c: Canvas)
        ensures
            c == (Canvas { width, height, fps }),
    {
        Canvas { width, height, fps }
    }

    /// The default canvas: 1920x1080 at 30 frames per second.
    pub open spec fn spec_default() -> Canvas {
        Canvas { width: 1920, height: 1080, fps: 30 }
    }
}

impl Default for Canvas {
    fn default() -> (c: Canvas)
        ensures
            c == Canvas::spec_default(),
    {
        Canvas { width: 1920, height: 1080, fps: 30 }
    }
}

/// A span of time: `duration` microseconds from `start`.
#[derive(Debug, Clone, Copy, PartialEq, Eq)]
pub struct TimeRange {
    pub start: u64,
    pub duration: u64,
}

/// The kind of a draft track.
#[derive(Debug, Clone, Copy, PartialEq, Eq)]
pub enum TrackKind {
    Video,
    Audio,
    Text,
}

impl TrackKind {
    /// The track's `type` in a draft: `video`, `audio` or `text`.
    pub fn to_str(&self) -> (r: &'static str)
        ensures
            r@ == match *self {
                TrackKind::Video => "video"@,
                TrackKind::Audio => "audio"@,
                TrackKind::Text => "text"@,
            },
    {
        match self {
            TrackKind::Video => "video",
            TrackKind::Audio => "audio",
            TrackKind::Text => "text",
        }
    }
}

/// The kind of a media material.
#[derive(Debug, Clone, Copy, PartialEq, Eq)]
pub enum MaterialKind {
    Video,
    Photo,
    Audio,
}

} // verus!
