//! Verified core of the YingDraft draft-generation toolkit.

pub mod text;
pub mod release;
pub mod chars;
pub mod srt;
pub mod paths;
pub mod concat;
pub mod vod;
pub mod vod_plan;
pub mod pipeline;
pub mod stitch;
pub mod multitrack;
pub mod media;
pub mod urls;
pub mod bundle;
pub mod draft;
pub mod timeline;
pub mod model;
pub mod output;
pub mod draft_json;
pub mod messages;
