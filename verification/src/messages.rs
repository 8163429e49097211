//! The messages the library's errors are reported with.

use vstd::prelude::*;
use crate::chars::{decimal, decimal_vec};
use crate::concat::ConcatError;
use crate::multitrack::MultitrackError;
use crate::paths::PathError;
use crate::pipeline::PipelineError;
use crate::srt::{SrtError, TimeError};
use crate::stitch::{NarrationError, SimpleTimelineError, StitchError, StyleError};
use crate::text::{push_str, string_from_chars};

verus! {

/// `n` written in decimal.
pub open spec fn dec(n: usize) -> Seq<char> {
    decimal(n as nat)
}

/// `a`, then `n` in decimal, then `b`.
pub open spec fn jn(a: Seq<char>, n: usize, b: Seq<char>) -> Seq<char> {
    a + dec(n) + b
}

/// `a`, then `n1`, `b`, `n2` and `c`.
pub open spec fn jnn(a: Seq<char>, n1: usize, b: Seq<char>, n2: usize, c: Seq<char>) -> Seq<char> {
    a + dec(n1) + b + dec(n2) + c
}

/// `a`, then the text `s`, `b`, `n` in decimal and `c`.
pub open spec fn jsn(a: Seq<char>, s: Seq<char>, b: Seq<char>, n: usize, c: Seq<char>) -> Seq<char> {
    a + s + b + dec(n) + c
}

fn push_num(v: &mut Vec<char>, n: usize)
    ensures
        final(v)@ == old(v)@ + dec(n),
{
    let mut d = decimal_vec(n as u128);
    v.append(&mut d);
}

fn join_n(a: &str, n: usize, b: &str) -> (r: String)
    ensures
        r@ == jn(a@, n, b@),
{
    let mut v: Vec<char> = Vec::new();
    push_str(&mut v, a);
    push_num(&mut v, n);
    push_str(&mut v, b);
    assert(v@ =~= jn(a@, n, b@));
    string_from_chars(&v)
}

fn join_nn(a: &str, n1: usize, b: &str, n2: usize, c: &str) -> (r: String)
    ensures
        r@ == jnn(a@, n1, b@, n2, c@),
{
    let mut v: Vec<char> = Vec::new();
    push_str(&mut v, a);
    push_num(&mut v, n1);
    push_str(&mut v, b);
    push_num(&mut v, n2);
    push_str(&mut v, c);
    assert(v@ =~= jnn(a@, n1, b@, n2, c@));
    string_from_chars(&v)
}

fn join_sn(a: &str, s: &str, b: &str, n: usize, c: &str) -> (r: String)
    ensures
        r@ == jsn(a@, s@, b@, n, c@),
{
    let mut v: Vec<char> = Vec::new();
    push_str(&mut v, a);
    push_str(&mut v, s);
    push_str(&mut v, b);
    push_num(&mut v, n);
    push_str(&mut v, c);
    assert(v@ =~= jsn(a@, s@, b@, n, c@));
    string_from_chars(&v)
}

fn join_s(a: &str, s: &str, b: &str) -> (r: String)
    ensures
        r@ == a@ + s@ + b@,
{
    let mut v: Vec<char> = Vec::new();
    push_str(&mut v, a);
    push_str(&mut v, s);
    push_str(&mut v, b);
    assert(v@ =~= a@ + s@ + b@);
    string_from_chars(&v)
}

/// The message of a refused bundle path.
pub open spec fn spec_path_error_message(e: PathError) -> Seq<char> {
    match e {
        PathError::Empty(l) => l@ + " must not be empty"@,
        PathError::Backslash(l) => l@ + " must use '/' as path separator"@,
        PathError::Absolute(l) => l@ + " must be relative"@,
        PathError::BadSegment(l) => l@ + " contains an invalid path segment"@,
    }
}

/// The message of a refused bundle path.
pub fn path_error_message(e: &PathError) -> (r: String)
    ensures
        r@ == spec_path_error_message(*e),
{
    let mut v: Vec<char> = Vec::new();
    match e {
        PathError::Empty(l) => {
            push_str(&mut v, l.as_str());
            push_str(&mut v, " must not be empty");
        },
        PathError::Backslash(l) => {
            push_str(&mut v, l.as_str());
            push_str(&mut v, " must use '/' as path separator");
        },
        PathError::Absolute(l) => {
            push_str(&mut v, l.as_str());
            push_str(&mut v, " must be relative");
        },
        PathError::BadSegment(l) => {
            push_str(&mut v, l.as_str());
            push_str(&mut v, " contains an invalid path segment");
        },
    }
    assert(v@ =~= spec_path_error_message(*e));
    string_from_chars(&v)
}

/// The message of a refused concat list.
pub open spec fn spec_concat_error_message(e: ConcatError) -> Seq<char> {
    match e {
        ConcatError::NotFileEntry(n) => jn("concat line "@, n, " only supports file entries"@),
        ConcatError::Unquoted(n) => jn("invalid concat line "@, n, ": concat file entry must use single quotes"@),
        ConcatError::BadPath(_, p) => spec_path_error_message(p),
        ConcatError::NoEntries => "concat file must contain at least one file entry"@,
    }
}

/// The message of a refused concat list.
pub fn concat_error_message(e: &ConcatError) -> (r: String)
    ensures
        r@ == spec_concat_error_message(*e),
{
    match e {
        ConcatError::NotFileEntry(n) => join_n("concat line ", *n, " only supports file entries"),
        ConcatError::Unquoted(n) => join_n("invalid concat line ", *n, ": concat file entry must use single quotes"),
        ConcatError::BadPath(_, p) => path_error_message(p),
        ConcatError::NoEntries => "concat file must contain at least one file entry".to_string(),
    }
}

/// The message of an unreadable subtitle time.
pub open spec fn spec_time_error_message(e: TimeError) -> Seq<char> {
    match e {
        TimeError::MissingArrow => "srt time range must contain -->"@,
        TimeError::Layout(v) => "invalid srt time: "@ + v@,
        TimeError::Hour(v) => "invalid srt hour: "@ + v@,
        TimeError::Minute(v) => "invalid srt minute: "@ + v@,
        TimeError::Second(v) => "invalid srt second: "@ + v@,
        TimeError::Millis(v) => "invalid srt millis: "@ + v@,
        TimeError::Component(v) => "invalid srt time component: "@ + v@,
    }
}

/// The message of an unreadable subtitle time.
pub fn time_error_message(e: &TimeError) -> (r: String)
    ensures
        r@ == spec_time_error_message(*e),
{
    let mut out: Vec<char> = Vec::new();
    match e {
        TimeError::MissingArrow => push_str(&mut out, "srt time range must contain -->"),
        TimeError::Layout(v) => {
            push_str(&mut out, "invalid srt time: ");
            push_str(&mut out, v.as_str());
        },
        TimeError::Hour(v) => {
            push_str(&mut out, "invalid srt hour: ");
            push_str(&mut out, v.as_str());
        },
        TimeError::Minute(v) => {
            push_str(&mut out, "invalid srt minute: ");
            push_str(&mut out, v.as_str());
        },
        TimeError::Second(v) => {
            push_str(&mut out, "invalid srt second: ");
            push_str(&mut out, v.as_str());
        },
        TimeError::Millis(v) => {
            push_str(&mut out, "invalid srt millis: ");
            push_str(&mut out, v.as_str());
        },
        TimeError::Component(v) => {
            push_str(&mut out, "invalid srt time component: ");
            push_str(&mut out, v.as_str());
        },
    }
    assert(out@ =~= spec_time_error_message(*e));
    string_from_chars(&out)
}

/// The message of an unreadable subtitle file.
pub open spec fn spec_srt_error_message(e: SrtError) -> Seq<char> {
    match e {
        SrtError::MissingTimeRange(b) => jn("srt block "@, b, " is missing time range"@),
        SrtError::MissingText(b) => jn("srt block "@, b, " is missing text"@),
        SrtError::BadTimeRange(b, t) => jn("invalid srt block "@, b, " time range: "@) + spec_time_error_message(t),
        SrtError::EndNotAfterStart(b) => jn("srt block "@, b, " end must be greater than start"@),
        SrtError::NoCues => "srt file must contain at least one subtitle cue"@,
    }
}

/// The message of an unreadable subtitle file.
pub fn srt_error_message(e: &SrtError) -> (r: String)
    ensures
        r@ == spec_srt_error_message(*e),
{
    match e {
        SrtError::MissingTimeRange(b) => join_n("srt block ", *b, " is missing time range"),
        SrtError::MissingText(b) => join_n("srt block ", *b, " is missing text"),
        SrtError::BadTimeRange(b, t) => {
            let head = join_n("invalid srt block ", *b, " time range: ");
            let tail = time_error_message(t);
            let mut v: Vec<char> = Vec::new();
            push_str(&mut v, head.as_str());
            push_str(&mut v, tail.as_str());
            assert(v@ =~= head@ + tail@);
            string_from_chars(&v)
        },
        SrtError::EndNotAfterStart(b) => join_n("srt block ", *b, " end must be greater than start"),
        SrtError::NoCues => "srt file must contain at least one subtitle cue".to_string(),
    }
}

/// The message of a refused pipeline manifest. `name` and `span` are those
/// an overlap reports: the track's name and the first clip's `start-end`.
pub open spec fn spec_pipeline_error_message(e: PipelineError, name: Seq<char>, span: Seq<char>) -> Seq<char> {
    match e {
        PipelineError::FontSize => "subtitle_style.font_size must be greater than 0"@,
        PipelineError::PositionX => "subtitle_style.x must be between 0.0 and 1.0"@,
        PipelineError::PositionY => "subtitle_style.y must be between 0.0 and 1.0"@,
        PipelineError::VideoVolume => "audio_style.video_volume must be non-negative"@,
        PipelineError::AudioVolumeUnsupported => "audio_style.audio_volume is no longer supported; use audio_style.narration_volume"@,
        PipelineError::NarrationVolume => "audio_style.narration_volume must be non-negative"@,
        PipelineError::AudioFileUnsupported => "pipeline.audio_file is no longer supported; use pipeline.narration_files"@,
        PipelineError::TracksCombined => "pipeline.tracks cannot be combined with concat_file, subtitle_file, or narration_files"@,
        PipelineError::ConcatFileRequired => "pipeline.concat_file is required"@,
        PipelineError::SubtitleFileRequired => "pipeline.subtitle_file is required"@,
        PipelineError::NarrationFilesRequired => "pipeline.narration_files must contain at least one narration file"@,
        PipelineError::NoTracks => "pipeline.tracks must contain at least one track"@,
        PipelineError::EmptyTrackName(t) => jn("pipeline.tracks["@, t, "].name must not be empty"@),
        PipelineError::DuplicateTrackName(n) => "pipeline.tracks name duplicated: "@ + n@,
        PipelineError::SubtitleOnlyOnText(t) => jn("pipeline.tracks["@, t, "].subtitle_file is only allowed on text tracks"@),
        PipelineError::NoVideoClips(t) => jn("pipeline.tracks["@, t, "].clips must contain at least one video clip"@),
        PipelineError::NoAudioClips(t) => jn("pipeline.tracks["@, t, "].clips must contain at least one audio clip"@),
        PipelineError::BadPath(p) => spec_path_error_message(p),
        PipelineError::NegativeStart(t, c) => jnn("pipeline.tracks["@, t, "].clips["@, c, "].start must be non-negative seconds"@),
        PipelineError::NegativeVolume(t, c) => jnn("pipeline.tracks["@, t, "].clips["@, c, "].volume must be non-negative"@),
        PipelineError::VideoEndUnsupported(t, c) => jnn("pipeline.tracks["@, t, "].clips["@, c, "].end is not supported for video tracks"@),
        PipelineError::AudioEndRequired(t, c) => jnn("pipeline.tracks["@, t, "].clips["@, c, "].end is required for audio tracks"@),
        PipelineError::EndNotAfterStart(t, c) => jnn("pipeline.tracks["@, t, "].clips["@, c, "].end must be greater than start"@),
        PipelineError::ClipsOverlap(t, a, b) => jn("pipeline.tracks["@, t, "] '"@) + name + jn("' clips overlap: clip["@, a, "] ("@)
            + span + jn(") and clip["@, b, "]"@),
        PipelineError::TextClipsUnsupported(t) => jn("pipeline.tracks["@, t, "].clips is not supported for text tracks"@),
        PipelineError::TextSubtitleRequired(t) => jn("pipeline.tracks["@, t, "].subtitle_file is required for text tracks"@),
        PipelineError::NoVideoClip => "pipeline.tracks must contain at least one video clip"@,
        PipelineError::NarrationCountMismatch(a, b) => jnn("pipeline.narration_files length ("@, a, ") must match subtitle cue count ("@, b, ")"@),
    }
}

/// The message of a refused pipeline manifest (see
/// [`spec_pipeline_error_message`]).
pub fn pipeline_error_message(e: &PipelineError, name: &str, span: &str) -> (r: String)
    ensures
        r@ == spec_pipeline_error_message(*e, name@, span@),
{
    match e {
        PipelineError::FontSize => "subtitle_style.font_size must be greater than 0".to_string(),
        PipelineError::PositionX => "subtitle_style.x must be between 0.0 and 1.0".to_string(),
        PipelineError::PositionY => "subtitle_style.y must be between 0.0 and 1.0".to_string(),
        PipelineError::VideoVolume => "audio_style.video_volume must be non-negative".to_string(),
        PipelineError::AudioVolumeUnsupported => "audio_style.audio_volume is no longer supported; use audio_style.narration_volume".to_string(),
        PipelineError::NarrationVolume => "audio_style.narration_volume must be non-negative".to_string(),
        PipelineError::AudioFileUnsupported => "pipeline.audio_file is no longer supported; use pipeline.narration_files".to_string(),
        PipelineError::TracksCombined => "pipeline.tracks cannot be combined with concat_file, subtitle_file, or narration_files".to_string(),
        PipelineError::ConcatFileRequired => "pipeline.concat_file is required".to_string(),
        PipelineError::SubtitleFileRequired => "pipeline.subtitle_file is required".to_string(),
        PipelineError::NarrationFilesRequired => "pipeline.narration_files must contain at least one narration file".to_string(),
        PipelineError::NoTracks => "pipeline.tracks must contain at least one track".to_string(),
        PipelineError::EmptyTrackName(t) => join_n("pipeline.tracks[", *t, "].name must not be empty"),
        PipelineError::DuplicateTrackName(n) => {
            let mut v: Vec<char> = Vec::new();
            push_str(&mut v, "pipeline.tracks name duplicated: ");
            push_str(&mut v, n.as_str());
            string_from_chars(&v)
        },
        PipelineError::SubtitleOnlyOnText(t) => join_n("pipeline.tracks[", *t, "].subtitle_file is only allowed on text tracks"),
        PipelineError::NoVideoClips(t) => join_n("pipeline.tracks[", *t, "].clips must contain at least one video clip"),
        PipelineError::NoAudioClips(t) => join_n("pipeline.tracks[", *t, "].clips must contain at least one audio clip"),
        PipelineError::BadPath(p) => path_error_message(p),
        PipelineError::NegativeStart(t, c) => join_nn("pipeline.tracks[", *t, "].clips[", *c, "].start must be non-negative seconds"),
        PipelineError::NegativeVolume(t, c) => join_nn("pipeline.tracks[", *t, "].clips[", *c, "].volume must be non-negative"),
        PipelineError::VideoEndUnsupported(t, c) => join_nn("pipeline.tracks[", *t, "].clips[", *c, "].end is not supported for video tracks"),
        PipelineError::AudioEndRequired(t, c) => join_nn("pipeline.tracks[", *t, "].clips[", *c, "].end is required for audio tracks"),
        PipelineError::EndNotAfterStart(t, c) => join_nn("pipeline.tracks[", *t, "].clips[", *c, "].end must be greater than start"),
        PipelineError::ClipsOverlap(t, a, b) => {
            let p1 = join_n("pipeline.tracks[", *t, "] '");
            let p2 = join_n("' clips overlap: clip[", *a, "] (");
            let p3 = join_n(") and clip[", *b, "]");
            let mut v: Vec<char> = Vec::new();
            push_str(&mut v, p1.as_str());
            push_str(&mut v, name);
            push_str(&mut v, p2.as_str());
            push_str(&mut v, span);
            push_str(&mut v, p3.as_str());
            assert(v@ =~= p1@ + name@ + p2@ + span@ + p3@);
            string_from_chars(&v)
        },
        PipelineError::TextClipsUnsupported(t) => join_n("pipeline.tracks[", *t, "].clips is not supported for text tracks"),
        PipelineError::TextSubtitleRequired(t) => join_n("pipeline.tracks[", *t, "].subtitle_file is required for text tracks"),
        PipelineError::NoVideoClip => "pipeline.tracks must contain at least one video clip".to_string(),
        PipelineError::NarrationCountMismatch(a, b) => join_nn("pipeline.narration_files length (", *a, ") must match subtitle cue count (", *b, ")"),
    }
}

/// The message of a video list that cannot be stitched; `what` names the
/// list and `name` the item the error is about.
pub open spec fn spec_stitch_error_message(e: StitchError, what: Seq<char>, name: Seq<char>) -> Seq<char> {
    match e {
        StitchError::LoadFailed(i) => jsn("failed to load "@, what, "["@, i, "]: "@) + name,
        StitchError::NotVideo(i) => jsn(""@, what, "["@, i, "] is not a video material: "@) + name,
        StitchError::ZeroDuration(i) => jsn(""@, what, "["@, i, "] duration is zero: "@) + name,
        StitchError::Overflow => "stitched duration overflow"@,
    }
}

/// The message of a video list that cannot be stitched.
pub fn stitch_error_message(e: &StitchError, what: &str, name: &str) -> (r: String)
    ensures
        r@ == spec_stitch_error_message(*e, what@, name@),
{
    let head = match e {
        StitchError::LoadFailed(i) => join_sn("failed to load ", what, "[", *i, "]: "),
        StitchError::NotVideo(i) => join_sn("", what, "[", *i, "] is not a video material: "),
        StitchError::ZeroDuration(i) => join_sn("", what, "[", *i, "] duration is zero: "),
        StitchError::Overflow => return "stitched duration overflow".to_string(),
    };
    let mut v: Vec<char> = Vec::new();
    push_str(&mut v, head.as_str());
    push_str(&mut v, name);
    assert(v@ =~= head@ + name@);
    string_from_chars(&v)
}

/// The message of narration that cannot be laid out.
pub open spec fn spec_narration_error_message(e: NarrationError) -> Seq<char> {
    match e {
        NarrationError::StartTooLarge(i) => jn("subtitle.srt["@, i, "].start is too large"@),
        NarrationError::EndTooLarge(i) => jn("subtitle.srt["@, i, "].end is too large"@),
        NarrationError::CueBeyondVideo(i) => jn("subtitle.srt["@, i, "] end exceeds stitched video duration"@),
        NarrationError::NarrationUnavailable(i) => jn("failed to load pipeline narration["@, i, "]"@),
        NarrationError::NarrationZero(i) => jn("pipeline narration["@, i, "] duration is zero"@),
    }
}

/// The message of narration that cannot be laid out.
pub fn narration_error_message(e: &NarrationError) -> (r: String)
    ensures
        r@ == spec_narration_error_message(*e),
{
    match e {
        NarrationError::StartTooLarge(i) => join_n("subtitle.srt[", *i, "].start is too large"),
        NarrationError::EndTooLarge(i) => join_n("subtitle.srt[", *i, "].end is too large"),
        NarrationError::CueBeyondVideo(i) => join_n("subtitle.srt[", *i, "] end exceeds stitched video duration"),
        NarrationError::NarrationUnavailable(i) => join_n("failed to load pipeline narration[", *i, "]"),
        NarrationError::NarrationZero(i) => join_n("pipeline narration[", *i, "] duration is zero"),
    }
}

/// The message of a refused simple timeline; `name` names the video a
/// stitching error is about.
pub open spec fn spec_simple_error_message(e: SimpleTimelineError, name: Seq<char>) -> Seq<char> {
    match e {
        SimpleTimelineError::NoVideos => "simple_timeline_package requires at least one video"@,
        SimpleTimelineError::Style(StyleError::FontSize) => spec_pipeline_error_message(PipelineError::FontSize, Seq::empty(), Seq::empty()),
        SimpleTimelineError::Style(StyleError::PositionX) => spec_pipeline_error_message(PipelineError::PositionX, Seq::empty(), Seq::empty()),
        SimpleTimelineError::Style(StyleError::PositionY) => spec_pipeline_error_message(PipelineError::PositionY, Seq::empty(), Seq::empty()),
        SimpleTimelineError::CueStart(i) => jn("subtitles["@, i, "].start must be non-negative seconds"@),
        SimpleTimelineError::CueEnd(i) => jn("subtitles["@, i, "].end must be non-negative seconds"@),
        SimpleTimelineError::CueEndNotAfterStart(i) => jn("subtitles["@, i, "] end must be greater than start"@),
        SimpleTimelineError::CueBeyondVideo(i) => jn("subtitles["@, i, "] end exceeds stitched video duration"@),
        SimpleTimelineError::Stitch(s) => spec_stitch_error_message(s, "video"@, name),
    }
}

/// The message of a refused simple timeline.
pub fn simple_error_message(e: &SimpleTimelineError, name: &str) -> (r: String)
    ensures
        r@ == spec_simple_error_message(*e, name@),
{
    match e {
        SimpleTimelineError::NoVideos => "simple_timeline_package requires at least one video".to_string(),
        SimpleTimelineError::Style(StyleError::FontSize) => "subtitle_style.font_size must be greater than 0".to_string(),
        SimpleTimelineError::Style(StyleError::PositionX) => "subtitle_style.x must be between 0.0 and 1.0".to_string(),
        SimpleTimelineError::Style(StyleError::PositionY) => "subtitle_style.y must be between 0.0 and 1.0".to_string(),
        SimpleTimelineError::CueStart(i) => join_n("subtitles[", *i, "].start must be non-negative seconds"),
        SimpleTimelineError::CueEnd(i) => join_n("subtitles[", *i, "].end must be non-negative seconds"),
        SimpleTimelineError::CueEndNotAfterStart(i) => join_n("subtitles[", *i, "] end must be greater than start"),
        SimpleTimelineError::CueBeyondVideo(i) => join_n("subtitles[", *i, "] end exceeds stitched video duration"),
        SimpleTimelineError::Stitch(s) => stitch_error_message(s, "video", name),
    }
}

/// The message of a multitrack pipeline that cannot be laid out; `name`
/// names the track the error is about.
pub open spec fn spec_multitrack_error_message(e: MultitrackError, name: Seq<char>) -> Seq<char> {
    match e {
        MultitrackError::LoadFailed(_, c) => "failed to load pipeline track '"@ + name + jn("' clip["@, c, "]"@),
        MultitrackError::NotVideo(t, c) => jnn("pipeline.tracks["@, t, "].clips["@, c, "] is not a video material"@),
        MultitrackError::ZeroDuration(t, c) => jnn("pipeline.tracks["@, t, "].clips["@, c, "] duration is zero"@),
        MultitrackError::StartInvalid(t, c) => jnn("pipeline.tracks["@, t, "].clips["@, c, "].start must be non-negative seconds"@),
        MultitrackError::AudioEndRequired(t, c) => jnn("pipeline.tracks["@, t, "].clips["@, c, "].end is required for audio tracks"@),
        MultitrackError::EndNotAfterStart(t, c) => jnn("pipeline.tracks["@, t, "].clips["@, c, "].end must be greater than start"@),
        MultitrackError::TimeOverflow(t, c) => jnn("pipeline.tracks["@, t, "].clips["@, c, "] time is too large"@),
        MultitrackError::TextSubtitleRequired(t) => jn("pipeline.tracks["@, t, "].subtitle_file is required for text tracks"@),
        MultitrackError::SubtitleUnavailable(t) => jn("failed to parse subtitle file of pipeline.tracks["@, t, "]"@),
        MultitrackError::NoVideoClip => "pipeline.tracks must contain at least one video clip"@,
        MultitrackError::TextBeyondVideo(_, i) => "pipeline text track '"@ + name + jn("' clip["@, i, "] end exceeds video duration"@),
    }
}

/// The message of a multitrack pipeline that cannot be laid out.
pub fn multitrack_error_message(e: &MultitrackError, name: &str) -> (r: String)
    ensures
        r@ == spec_multitrack_error_message(*e, name@),
{
    match e {
        MultitrackError::LoadFailed(_, c) => {
            let tail = join_n("' clip[", *c, "]");
            let r = join_s("failed to load pipeline track '", name, tail.as_str());
            r
        },
        MultitrackError::NotVideo(t, c) => join_nn("pipeline.tracks[", *t, "].clips[", *c, "] is not a video material"),
        MultitrackError::ZeroDuration(t, c) => join_nn("pipeline.tracks[", *t, "].clips[", *c, "] duration is zero"),
        MultitrackError::StartInvalid(t, c) => join_nn("pipeline.tracks[", *t, "].clips[", *c, "].start must be non-negative seconds"),
        MultitrackError::AudioEndRequired(t, c) => join_nn("pipeline.tracks[", *t, "].clips[", *c, "].end is required for audio tracks"),
        MultitrackError::EndNotAfterStart(t, c) => join_nn("pipeline.tracks[", *t, "].clips[", *c, "].end must be greater than start"),
        MultitrackError::TimeOverflow(t, c) => join_nn("pipeline.tracks[", *t, "].clips[", *c, "] time is too large"),
        MultitrackError::TextSubtitleRequired(t) => join_n("pipeline.tracks[", *t, "].subtitle_file is required for text tracks"),
        MultitrackError::SubtitleUnavailable(t) => join_n("failed to parse subtitle file of pipeline.tracks[", *t, "]"),
        MultitrackError::NoVideoClip => "pipeline.tracks must contain at least one video clip".to_string(),
        MultitrackError::TextBeyondVideo(_, i) => {
            let tail = join_n("' clip[", *i, "] end exceeds video duration");
            join_s("pipeline text track '", name, tail.as_str())
        },
    }
}

} // verus!
