//! The `pipeline_package` bundle: its manifest section, the checks it must
//! pass before anything is imported, and the placement of its clips.
//!
//! Numbers of the manifest (seconds, volumes, positions, sizes) are read as
//! [`Real`]s: a finite, non-negative value is counted in millionths, so
//! seconds become microseconds.

use vstd::prelude::*;
use crate::chars::{decimal, decimal_vec, is_blank, trim, vec_is_blank};
use crate::model::TrackKind;
use crate::paths::{check_relative_path, maybe_absolute, path_is_absolute, relative_path_failure, PathError, PathErrorKind};
use crate::text::{chars_of, push_str, seq_eq, string_from_chars};

verus! {

/// A number read from a bundle manifest: not finite, negative, or a
/// non-negative value counted in millionths (rounded to the nearest).
#[derive(Debug, Clone, Copy, PartialEq, Eq)]
pub enum Real {
    NonFinite,
    Negative,
    NonNegative(u64),
}

/// The kind of a pipeline track.
#[derive(Debug, Clone, Copy, PartialEq, Eq)]
pub enum PipelineTrackKind {
    Video,
    Audio,
    Text,
}

impl PipelineTrackKind {
    /// The kind's name in manifests: `video`, `audio` or `text`.
    pub fn as_str(&self) -> (r: &'static str)
        ensures
            r@ == match *self {
                PipelineTrackKind::Video => "video"@,
                PipelineTrackKind::Audio => "audio"@,
                PipelineTrackKind::Text => "text"@,
            },
    {
        match self {
            PipelineTrackKind::Video => "video",
            PipelineTrackKind::Audio => "audio",
            PipelineTrackKind::Text => "text",
        }
    }

    /// The draft track kind of a pipeline track kind.
    pub fn track_kind(&self) -> (r: TrackKind)
        ensures
            r == match *self {
                PipelineTrackKind::Video => TrackKind::Video,
                PipelineTrackKind::Audio => TrackKind::Audio,
                PipelineTrackKind::Text => TrackKind::Text,
            },
    {
        match self {
            PipelineTrackKind::Video => TrackKind::Video,
            PipelineTrackKind::Audio => TrackKind::Audio,
            PipelineTrackKind::Text => TrackKind::Text,
        }
    }
}

/// Size and position of the subtitles of a simple or pipeline bundle.
#[derive(Debug, Clone, Copy, PartialEq, Eq)]
pub struct SimpleSubtitleStyle {
    /// Font size; 8 when the manifest gives none.
    pub font_size: Real,
    /// Horizontal position, 0 to 1; 0.5 when the manifest gives none.
    pub x: Real,
    /// Vertical position, 0 to 1; 0.82 when the manifest gives none.
    pub y: Real,
}

impl Default for SimpleSubtitleStyle {
    fn default() -> (s: SimpleSubtitleStyle)
        ensures
            s == (SimpleSubtitleStyle {
                font_size: Real::NonNegative(8_000_000),
                x: Real::NonNegative(500_000),
                y: Real::NonNegative(820_000),
            }),
    {
        SimpleSubtitleStyle {
            font_size: Real::NonNegative(8_000_000),
            x: Real::NonNegative(500_000),
            y: Real::NonNegative(820_000),
        }
    }
}

/// Volumes of a pipeline bundle.
#[derive(Debug, Clone, Copy, PartialEq, Eq)]
pub struct PipelineAudioStyle {
    /// Volume of the stitched videos; 1 when the manifest gives none.
    pub video_volume: Real,
    /// Volume of the narration; 1 when the manifest gives none.
    pub narration_volume: Real,
    /// A field of earlier manifests, now refused.
    pub audio_volume: Option<Real>,
}

impl Default for PipelineAudioStyle {
    fn default() -> (s: PipelineAudioStyle)
        ensures
            s == (PipelineAudioStyle {
                video_volume: Real::NonNegative(1_000_000),
                narration_volume: Real::NonNegative(1_000_000),
                audio_volume: None,
            }),
    {
        PipelineAudioStyle {
            video_volume: Real::NonNegative(1_000_000),
            narration_volume: Real::NonNegative(1_000_000),
            audio_volume: None,
        }
    }
}

/// A clip of a pipeline video or audio track.
#[derive(Debug, Clone, PartialEq, Eq)]
pub struct PipelineClipSpec {
    /// Path of the media, relative to the assets directory.
    pub path: String,
    /// Start on the timeline, in seconds.
    pub start: Real,
    /// End on the timeline, in seconds (audio clips only).
    pub end: Option<Real>,
    pub volume: Option<Real>,
}

/// A track of a pipeline bundle.
#[derive(Debug, Clone, PartialEq, Eq)]
pub struct PipelineTrackSpec {
    pub kind: PipelineTrackKind,
    pub name: String,
    pub clips: Vec<PipelineClipSpec>,
    /// The subtitles of a text track.
    pub subtitle_file: Option<String>,
    pub style: Option<SimpleSubtitleStyle>,
}

/// The `pipeline` section of a bundle manifest: either the fixed layout of
/// one stitched video, its subtitles and one narration per cue, or a list of
/// tracks.
#[derive(Debug, Clone, PartialEq, Eq)]
pub struct PipelineSpec {
    pub concat_file: Option<String>,
    pub subtitle_file: Option<String>,
    pub narration_files: Vec<String>,
    pub tracks: Option<Vec<PipelineTrackSpec>>,
    /// A field of earlier manifests, now refused.
    pub audio_file: Option<String>,
}

/// Why a pipeline bundle was refused. Track and clip numbers count from 0.
#[derive(Debug, PartialEq, Eq)]
pub enum PipelineError {
    /// `subtitle_style.font_size` is not greater than 0.
    FontSize,
    /// `subtitle_style.x` is not between 0 and 1.
    PositionX,
    /// `subtitle_style.y` is not between 0 and 1.
    PositionY,
    /// `audio_style.video_volume` is negative or not finite.
    VideoVolume,
    /// `audio_style.audio_volume` is given; it is no longer supported.
    AudioVolumeUnsupported,
    /// `audio_style.narration_volume` is negative or not finite.
    NarrationVolume,
    /// `pipeline.audio_file` is given; it is no longer supported.
    AudioFileUnsupported,
    /// `pipeline.tracks` is given together with the fields of the fixed layout.
    TracksCombined,
    ConcatFileRequired,
    SubtitleFileRequired,
    NarrationFilesRequired,
    /// `pipeline.tracks` is empty.
    NoTracks,
    /// The track's name is blank.
    EmptyTrackName(usize),
    /// Two tracks carry this name.
    DuplicateTrackName(String),
    /// A subtitle file is given on this video or audio track.
    SubtitleOnlyOnText(usize),
    /// This video track has no clip.
    NoVideoClips(usize),
    /// This audio track has no clip.
    NoAudioClips(usize),
    /// A path of the manifest was refused.
    BadPath(PathError),
    /// The start of this clip (track, clip) is negative or not finite.
    NegativeStart(usize, usize),
    /// The volume of this clip is negative or not finite.
    NegativeVolume(usize, usize),
    /// This video clip gives an end.
    VideoEndUnsupported(usize, usize),
    /// This audio clip gives no end.
    AudioEndRequired(usize, usize),
    /// This audio clip does not end after it starts.
    EndNotAfterStart(usize, usize),
    /// On this audio track, the second clip starts before the first ends.
    ClipsOverlap(usize, usize, usize),
    /// This text track has clips.
    TextClipsUnsupported(usize),
    /// This text track names no subtitle file.
    TextSubtitleRequired(usize),
    /// No track holds a video clip.
    NoVideoClip,
    /// The number of narration files and of subtitle cues differ.
    NarrationCountMismatch(usize, usize),
}

/// A pipeline error with its texts as character sequences.
pub enum PipelineErrorView {
    FontSize,
    PositionX,
    PositionY,
    VideoVolume,
    AudioVolumeUnsupported,
    NarrationVolume,
    AudioFileUnsupported,
    TracksCombined,
    ConcatFileRequired,
    SubtitleFileRequired,
    NarrationFilesRequired,
    NoTracks,
    EmptyTrackName(nat),
    DuplicateTrackName(Seq<char>),
    SubtitleOnlyOnText(nat),
    NoVideoClips(nat),
    NoAudioClips(nat),
    BadPath(PathErrorKind, Seq<char>),
    NegativeStart(nat, nat),
    NegativeVolume(nat, nat),
    VideoEndUnsupported(nat, nat),
    AudioEndRequired(nat, nat),
    EndNotAfterStart(nat, nat),
    ClipsOverlap(nat, nat, nat),
    TextClipsUnsupported(nat),
    TextSubtitleRequired(nat),
    NoVideoClip,
    NarrationCountMismatch(nat, nat),
}

impl View for PipelineError {
    type V = PipelineErrorView;

    open spec fn view(&self) -> PipelineErrorView {
        match self {
            PipelineError::FontSize => PipelineErrorView::FontSize,
            PipelineError::PositionX => PipelineErrorView::PositionX,
            PipelineError::PositionY => PipelineErrorView::PositionY,
            PipelineError::VideoVolume => PipelineErrorView::VideoVolume,
            PipelineError::AudioVolumeUnsupported => PipelineErrorView::AudioVolumeUnsupported,
            PipelineError::NarrationVolume => PipelineErrorView::NarrationVolume,
            PipelineError::AudioFileUnsupported => PipelineErrorView::AudioFileUnsupported,
            PipelineError::TracksCombined => PipelineErrorView::TracksCombined,
            PipelineError::ConcatFileRequired => PipelineErrorView::ConcatFileRequired,
            PipelineError::SubtitleFileRequired => PipelineErrorView::SubtitleFileRequired,
            PipelineError::NarrationFilesRequired => PipelineErrorView::NarrationFilesRequired,
            PipelineError::NoTracks => PipelineErrorView::NoTracks,
            PipelineError::EmptyTrackName(t) => PipelineErrorView::EmptyTrackName(*t as nat),
            PipelineError::DuplicateTrackName(n) => PipelineErrorView::DuplicateTrackName(n@),
            PipelineError::SubtitleOnlyOnText(t) => PipelineErrorView::SubtitleOnlyOnText(*t as nat),
            PipelineError::NoVideoClips(t) => PipelineErrorView::NoVideoClips(*t as nat),
            PipelineError::NoAudioClips(t) => PipelineErrorView::NoAudioClips(*t as nat),
            PipelineError::BadPath(e) => PipelineErrorView::BadPath(e.kind(), e.label_view()),
            PipelineError::NegativeStart(t, c) => PipelineErrorView::NegativeStart(*t as nat, *c as nat),
            PipelineError::NegativeVolume(t, c) => PipelineErrorView::NegativeVolume(*t as nat, *c as nat),
            PipelineError::VideoEndUnsupported(t, c) => PipelineErrorView::VideoEndUnsupported(*t as nat, *c as nat),
            PipelineError::AudioEndRequired(t, c) => PipelineErrorView::AudioEndRequired(*t as nat, *c as nat),
            PipelineError::EndNotAfterStart(t, c) => PipelineErrorView::EndNotAfterStart(*t as nat, *c as nat),
            PipelineError::ClipsOverlap(t, a, b) => PipelineErrorView::ClipsOverlap(*t as nat, *a as nat, *b as nat),
            PipelineError::TextClipsUnsupported(t) => PipelineErrorView::TextClipsUnsupported(*t as nat),
            PipelineError::TextSubtitleRequired(t) => PipelineErrorView::TextSubtitleRequired(*t as nat),
            PipelineError::NoVideoClip => PipelineErrorView::NoVideoClip,
            PipelineError::NarrationCountMismatch(a, b) => PipelineErrorView::NarrationCountMismatch(*a as nat, *b as nat),
        }
    }
}

/// The result of a check, with its error viewed.
pub open spec fn result_view(r: Result<(), PipelineError>) -> Result<(), PipelineErrorView> {
    match r {
        Ok(()) => Ok(()),
        Err(e) => Err(e@),
    }
}

/// A finite, non-negative number.
pub open spec fn non_negative(r: Real) -> bool {
    r is NonNegative
}

/// The check of a subtitle style: a positive font size, and both positions
/// between 0 and 1.
pub open spec fn spec_check_style(style: SimpleSubtitleStyle) -> Result<(), PipelineErrorView> {
    if !(style.font_size matches Real::NonNegative(m) && m > 0) {
        Err(PipelineErrorView::FontSize)
    } else if !(style.x matches Real::NonNegative(m) && m <= 1_000_000) {
        Err(PipelineErrorView::PositionX)
    } else if !(style.y matches Real::NonNegative(m) && m <= 1_000_000) {
        Err(PipelineErrorView::PositionY)
    } else {
        Ok(())
    }
}

/// Checks a subtitle style: the font size must be greater than 0 and both
/// positions between 0 and 1.
pub fn validate_simple_subtitle_style(style: &SimpleSubtitleStyle) -> (r: Result<(), PipelineError>)
    ensures
        result_view(r) == spec_check_style(*style),
{
    match style.font_size {
        Real::NonNegative(m) if m > 0 => {},
        _ => return Err(PipelineError::FontSize),
    }
    match style.x {
        Real::NonNegative(m) if m <= 1_000_000 => {},
        _ => return Err(PipelineError::PositionX),
    }
    match style.y {
        Real::NonNegative(m) if m <= 1_000_000 => {},
        _ => return Err(PipelineError::PositionY),
    }
    Ok(())
}

/// The check of the volumes of a pipeline bundle.
pub open spec fn spec_check_audio_style(style: PipelineAudioStyle) -> Result<(), PipelineErrorView> {
    if !non_negative(style.video_volume) {
        Err(PipelineErrorView::VideoVolume)
    } else if style.audio_volume is Some {
        Err(PipelineErrorView::AudioVolumeUnsupported)
    } else if !non_negative(style.narration_volume) {
        Err(PipelineErrorView::NarrationVolume)
    } else {
        Ok(())
    }
}

/// Checks the volumes of a pipeline bundle: both must be finite and not
/// negative, and the retired `audio_volume` must be absent.
pub fn validate_pipeline_audio_style(style: &PipelineAudioStyle) -> (r: Result<(), PipelineError>)
    ensures
        result_view(r) == spec_check_audio_style(*style),
{
    if !matches!(style.video_volume, Real::NonNegative(_)) {
        return Err(PipelineError::VideoVolume);
    }
    if style.audio_volume.is_some() {
        return Err(PipelineError::AudioVolumeUnsupported);
    }
    if !matches!(style.narration_volume, Real::NonNegative(_)) {
        return Err(PipelineError::NarrationVolume);
    }
    Ok(())
}

/// Checks that the fixed layout has one narration file per subtitle cue.
pub fn validate_pipeline_narration_count(narration_count: usize, cue_count: usize) -> (r: Result<(), PipelineError>)
    ensures
        r is Ok <==> narration_count == cue_count,
        r is Err ==> r == Err::<(), PipelineError>(PipelineError::NarrationCountMismatch(narration_count, cue_count)),
{
    if narration_count != cue_count {
        return Err(PipelineError::NarrationCountMismatch(narration_count, cue_count));
    }
    Ok(())
}

/// Clip `a` comes before clip `b` when sorted by start, ties kept in order.
pub open spec fn key_lt(r: Seq<(u64, u64)>, a: int, b: int) -> bool {
    r[a].0 < r[b].0 || (r[a].0 == r[b].0 && a < b)
}

/// Clip `b` directly follows clip `a` when sorted by start.
pub open spec fn is_succ(r: Seq<(u64, u64)>, a: int, b: int) -> bool {
    &&& 0 <= a < r.len()
    &&& 0 <= b < r.len()
    &&& key_lt(r, a, b)
    &&& forall|c: int| 0 <= c < r.len() ==> !(key_lt(r, a, c) && #[trigger] key_lt(r, c, b))
}

/// Clip `b` follows clip `a` when sorted by start, and starts before `a` ends.
pub open spec fn bad_adjacent(r: Seq<(u64, u64)>, a: int, b: int) -> bool {
    is_succ(r, a, b) && r[b].0 < r[a].1
}

/// Some clip starts before the clip sorted just before it ends.
pub open spec fn has_overlap(r: Seq<(u64, u64)>) -> bool {
    exists|a: int, b: int| #[trigger] bad_adjacent(r, a, b)
}

/// `(a, b)` is the first pair, in start order, of a clip and the clip after
/// it that starts before it ends.
pub open spec fn first_overlap_is(r: Seq<(u64, u64)>, a: int, b: int) -> bool {
    &&& bad_adjacent(r, a, b)
    &&& forall|a2: int, b2: int| #[trigger] bad_adjacent(r, a2, b2) ==> !key_lt(r, a2, a)
}

/// The first overlapping pair, in start order.
pub open spec fn first_overlap(r: Seq<(u64, u64)>) -> (int, int) {
    choose|p: (int, int)| first_overlap_is(r, p.0, p.1)
}

proof fn lemma_first_overlap_unique(r: Seq<(u64, u64)>, a: int, b: int, a2: int, b2: int)
    requires
        first_overlap_is(r, a, b),
        first_overlap_is(r, a2, b2),
    ensures
        a == a2 && b == b2,
{
    assert(!key_lt(r, a2, a));
    assert(!key_lt(r, a, a2));
    assert(a == a2);
    if b != b2 {
        if key_lt(r, b, b2) {
            assert(key_lt(r, a, b) && key_lt(r, b, b2));
        } else {
            assert(key_lt(r, b2, b));
            assert(key_lt(r, a, b2) && key_lt(r, b2, b));
        }
    }
}

/// The clip sorted directly after clip `a`, if any.
fn successor(r: &Vec<(u64, u64)>, a: usize) -> (s: Option<usize>)
    requires
        a < r.len(),
    ensures
        match s {
            Some(b) => is_succ(r@, a as int, b as int),
            None => forall|c: int| 0 <= c < r@.len() ==> !#[trigger] key_lt(r@, a as int, c),
        },
{
    let mut best: Option<usize> = None;
    let mut c: usize = 0;
    while c < r.len()
        invariant
            a < r.len(),
            c <= r.len(),
            match best {
                Some(b) => b < r.len() && key_lt(r@, a as int, b as int)
                    && forall|q: int| 0 <= q < c ==> !(key_lt(r@, a as int, q) && #[trigger] key_lt(r@, q, b as int)),
                None => forall|q: int| 0 <= q < c ==> !#[trigger] key_lt(r@, a as int, q),
            },
        decreases r.len() - c,
    {
        let above = r[c].0 > r[a].0 || (r[c].0 == r[a].0 && c > a);
        if above {
            match best {
                None => {
                    best = Some(c);
                },
                Some(b) => {
                    let below = r[c].0 < r[b].0 || (r[c].0 == r[b].0 && c < b);
                    if below {
                        best = Some(c);
                        assert forall|q: int| 0 <= q < c + 1 implies !(key_lt(r@, a as int, q) && #[trigger] key_lt(r@, q, c as int)) by {
                            if key_lt(r@, a as int, q) && key_lt(r@, q, c as int) && q < c {
                                assert(key_lt(r@, q, b as int));
                            }
                        }
                    }
                },
            }
        }
        c += 1;
    }
    best
}

/// Finds, on an audio track whose clips each end after they start, the
/// first clip (in start order) that the next clip in start order begins
/// before it ends.
pub fn find_overlap(r: &Vec<(u64, u64)>) -> (o: Option<(usize, usize)>)
    ensures
        match o {
            None => !has_overlap(r@),
            Some((a, b)) => has_overlap(r@) && first_overlap(r@) == (a as int, b as int),
        },
{
    let mut best: Option<(usize, usize)> = None;
    let mut i: usize = 0;
    while i < r.len()
        invariant
            i <= r.len(),
            match best {
                Some((a, b)) => a < i && bad_adjacent(r@, a as int, b as int)
                    && forall|a2: int, b2: int| 0 <= a2 < i && #[trigger] bad_adjacent(r@, a2, b2) ==> !key_lt(r@, a2, a as int),
                None => forall|a2: int, b2: int| 0 <= a2 < i ==> !#[trigger] bad_adjacent(r@, a2, b2),
            },
        decreases r.len() - i,
    {
        let s = successor(r, i);
        match s {
            None => {
                assert forall|a2: int, b2: int| 0 <= a2 < i + 1 && #[trigger] bad_adjacent(r@, a2, b2) implies a2 < i by {
                    if a2 == i {
                        assert(key_lt(r@, i as int, b2));
                    }
                }
            },
            Some(b) => {
                assert forall|b2: int| #[trigger] bad_adjacent(r@, i as int, b2) implies b2 == b by {
                    if b2 != b {
                        if key_lt(r@, b as int, b2) {
                            assert(key_lt(r@, i as int, b as int) && key_lt(r@, b as int, b2));
                        } else {
                            assert(key_lt(r@, b2, b as int));
                            assert(key_lt(r@, i as int, b2) && key_lt(r@, b2, b as int));
                        }
                    }
                }
                if r[b].0 < r[i].1 {
                    assert(bad_adjacent(r@, i as int, b as int));
                    match best {
                        None => {
                            best = Some((i, b));
                        },
                        Some((a, _)) => {
                            if r[i].0 < r[a].0 || (r[i].0 == r[a].0 && i < a) {
                                best = Some((i, b));
                            }
                        },
                    }
                }
            },
        }
        i += 1;
    }
    match best {
        None => {
            assert(!has_overlap(r@));
            None
        },
        Some((a, b)) => {
            assert(first_overlap_is(r@, a as int, b as int));
            let ghost p = first_overlap(r@);
            assert(first_overlap_is(r@, p.0, p.1));
            proof {
                lemma_first_overlap_unique(r@, a as int, b as int, p.0, p.1);
            }
            Some((a, b))
        },
    }
}

/// No two clips overlap: whichever starts first ends before the other starts.
pub open spec fn pairwise_separate(r: Seq<(u64, u64)>) -> bool {
    forall|a: int, b: int| 0 <= a < r.len() && 0 <= b < r.len() && a != b && #[trigger] r[a].0 <= #[trigger] r[b].0
        ==> r[a].1 <= r[b].0
}

/// The clip sorted directly after `a` among the first `n` clips, if any.
spec fn min_above(r: Seq<(u64, u64)>, a: int, n: int) -> Option<int>
    decreases n,
{
    if n <= 0 {
        None
    } else {
        let m = min_above(r, a, n - 1);
        let c = n - 1;
        if key_lt(r, a, c) && (m matches Some(b) ==> key_lt(r, c, b)) {
            Some(c)
        } else {
            m
        }
    }
}

proof fn lemma_min_above(r: Seq<(u64, u64)>, a: int, n: int)
    requires
        0 <= a < r.len(),
        0 <= n <= r.len(),
    ensures
        match min_above(r, a, n) {
            Some(b) => 0 <= b < n && key_lt(r, a, b) && forall|c: int| 0 <= c < n ==> !(key_lt(r, a, c) && #[trigger] key_lt(r, c, b)),
            None => forall|c: int| 0 <= c < n ==> !#[trigger] key_lt(r, a, c),
        },
    decreases n,
{
    if n > 0 {
        lemma_min_above(r, a, n - 1);
        let m = min_above(r, a, n - 1);
        let c = n - 1;
        if key_lt(r, a, c) && (m matches Some(b) ==> key_lt(r, c, b)) {
            assert forall|q: int| 0 <= q < n implies !(key_lt(r, a, q) && #[trigger] key_lt(r, q, c)) by {
                if q < n - 1 && key_lt(r, a, q) && key_lt(r, q, c) {
                    assert(m is Some);
                    assert(key_lt(r, q, m->0));
                }
            }
        }
    }
}

/// An audio track passes the overlap check exactly when no two of its clips
/// overlap, given that every clip ends after it starts.
pub proof fn lemma_overlap_check_means_separate(r: Seq<(u64, u64)>)
    requires
        forall|i: int| 0 <= i < r.len() ==> (#[trigger] r[i]).0 < r[i].1,
    ensures
        !has_overlap(r) <==> pairwise_separate(r),
{
    if !has_overlap(r) {
        assert forall|a: int, b: int| 0 <= a < r.len() && 0 <= b < r.len() && a != b && #[trigger] r[a].0 <= #[trigger] r[b].0
            implies r[a].1 <= r[b].0 by {
            if r[b].0 < r[a].1 {
                let (x, y) = if key_lt(r, a, b) { (a, b) } else { (b, a) };
                assert(key_lt(r, x, y));
                assert(r[y].0 < r[x].1);
                lemma_min_above(r, x, r.len() as int);
                let m = min_above(r, x, r.len() as int);
                assert(m is Some);
                let s = m->0;
                assert(is_succ(r, x, s));
                if s == y {
                    assert(bad_adjacent(r, x, y));
                } else {
                    assert(!(key_lt(r, x, y) && key_lt(r, y, s)));
                    assert(key_lt(r, s, y));
                    assert(bad_adjacent(r, x, s));
                }
            }
        }
    }
    if pairwise_separate(r) {
        if has_overlap(r) {
            let (a, b) = choose|a: int, b: int| #[trigger] bad_adjacent(r, a, b);
            assert(r[a].0 <= r[b].0);
        }
    }
}

/// The label of the path of clip `c` of track `t`.
pub open spec fn clip_path_label(t: nat, c: nat) -> Seq<char> {
    "pipeline.tracks["@ + decimal(t) + "].clips["@ + decimal(c) + "].path"@
}

/// The label of the subtitle file of track `t`.
pub open spec fn subtitle_file_label(t: nat) -> Seq<char> {
    "pipeline.tracks["@ + decimal(t) + "].subtitle_file"@
}

/// The check of a relative path, `absolute` telling whether the platform
/// considers it absolute.
pub open spec fn path_result(label: Seq<char>, value: Seq<char>, absolute: bool) -> Result<(), PipelineErrorView> {
    match relative_path_failure(value, absolute) {
        None => Ok(()),
        Some(k) => Err(PipelineErrorView::BadPath(k, label)),
    }
}

/// The value of a finite, non-negative number; 0 for the others.
pub open spec fn real_value(r: Real) -> u64 {
    match r {
        Real::NonNegative(v) => v,
        _ => 0,
    }
}

/// The checks every clip of a video or audio track passes: a valid path, a
/// start and a volume that are finite and not negative.
pub open spec fn spec_check_clip_common(t: nat, c: nat, clip: PipelineClipSpec, absolute: bool) -> Result<(), PipelineErrorView> {
    match path_result(clip_path_label(t, c), clip.path@, absolute) {
        Err(e) => Err(e),
        Ok(_) => if !non_negative(clip.start) {
            Err(PipelineErrorView::NegativeStart(t, c))
        } else if clip.volume matches Some(v) && !non_negative(v) {
            Err(PipelineErrorView::NegativeVolume(t, c))
        } else {
            Ok(())
        },
    }
}

/// The check of clip `c` of track `t`: video clips take no end, audio
/// clips need one after their start.
pub open spec fn spec_check_clip(kind: PipelineTrackKind, t: nat, c: nat, clip: PipelineClipSpec, absolute: bool) -> Result<(), PipelineErrorView> {
    match spec_check_clip_common(t, c, clip, absolute) {
        Err(e) => Err(e),
        Ok(_) => match kind {
            PipelineTrackKind::Audio => match clip.end {
                None => Err(PipelineErrorView::AudioEndRequired(t, c)),
                Some(e) => if e matches Real::NonNegative(ev) && ev > real_value(clip.start) {
                    Ok(())
                } else {
                    Err(PipelineErrorView::EndNotAfterStart(t, c))
                },
            },
            _ => if clip.end is Some {
                Err(PipelineErrorView::VideoEndUnsupported(t, c))
            } else {
                Ok(())
            },
        },
    }
}

/// The checks of the clips of track `t`, in order, up to the first failure.
pub open spec fn spec_check_clips(kind: PipelineTrackKind, t: nat, clips: Seq<PipelineClipSpec>, abs: Seq<bool>) -> Result<(), PipelineErrorView>
    decreases clips.len(),
{
    if clips.len() == 0 {
        Ok(())
    } else {
        match spec_check_clips(kind, t, clips.drop_last(), abs) {
            Err(e) => Err(e),
            Ok(_) => spec_check_clip(kind, t, (clips.len() - 1) as nat, clips.last(), abs[clips.len() - 1]),
        }
    }
}

/// The time ranges of the clips of an audio track, in millionths of a second.
pub open spec fn audio_ranges(clips: Seq<PipelineClipSpec>) -> Seq<(u64, u64)> {
    Seq::new(clips.len(), |c: int| (real_value(clips[c].start), match clips[c].end {
        Some(e) => real_value(e),
        None => 0,
    }))
}

/// The check of track `t` of `tracks`.
pub open spec fn spec_check_track(tracks: Seq<PipelineTrackSpec>, t: int, abs: Seq<bool>) -> Result<(), PipelineErrorView> {
    let tr = tracks[t];
    if is_blank(tr.name@) {
        Err(PipelineErrorView::EmptyTrackName(t as nat))
    } else if exists|u: int| 0 <= u < t && #[trigger] tracks[u].name@ == tr.name@ {
        Err(PipelineErrorView::DuplicateTrackName(tr.name@))
    } else {
        match tr.kind {
            PipelineTrackKind::Video => if tr.subtitle_file is Some {
                Err(PipelineErrorView::SubtitleOnlyOnText(t as nat))
            } else if tr.clips@.len() == 0 {
                Err(PipelineErrorView::NoVideoClips(t as nat))
            } else {
                spec_check_clips(tr.kind, t as nat, tr.clips@, abs)
            },
            PipelineTrackKind::Audio => if tr.subtitle_file is Some {
                Err(PipelineErrorView::SubtitleOnlyOnText(t as nat))
            } else if tr.clips@.len() == 0 {
                Err(PipelineErrorView::NoAudioClips(t as nat))
            } else {
                match spec_check_clips(tr.kind, t as nat, tr.clips@, abs) {
                    Err(e) => Err(e),
                    Ok(_) => if has_overlap(audio_ranges(tr.clips@)) {
                        let p = first_overlap(audio_ranges(tr.clips@));
                        Err(PipelineErrorView::ClipsOverlap(t as nat, p.0 as nat, p.1 as nat))
                    } else {
                        Ok(())
                    },
                }
            },
            PipelineTrackKind::Text => if tr.clips@.len() > 0 {
                Err(PipelineErrorView::TextClipsUnsupported(t as nat))
            } else {
                match tr.subtitle_file {
                    None => Err(PipelineErrorView::TextSubtitleRequired(t as nat)),
                    Some(f) => match path_result(subtitle_file_label(t as nat), f@, abs[0]) {
                        Err(e) => Err(e),
                        Ok(_) => match tr.style {
                            Some(st) => spec_check_style(st),
                            None => Ok(()),
                        },
                    },
                }
            },
        }
    }
}

/// The checks of the first `n` tracks, in order, up to the first failure.
pub open spec fn spec_check_tracks(tracks: Seq<PipelineTrackSpec>, n: int, abs: Seq<Seq<bool>>) -> Result<(), PipelineErrorView>
    decreases n,
{
    if n <= 0 {
        Ok(())
    } else {
        match spec_check_tracks(tracks, n - 1, abs) {
            Err(e) => Err(e),
            Ok(_) => spec_check_track(tracks, n - 1, abs[n - 1]),
        }
    }
}

/// The check of a track list: at least one track, every track valid, and
/// some video clip.
pub open spec fn spec_check_multitrack(tracks: Seq<PipelineTrackSpec>, abs: Seq<Seq<bool>>) -> Result<(), PipelineErrorView> {
    if tracks.len() == 0 {
        Err(PipelineErrorView::NoTracks)
    } else {
        match spec_check_tracks(tracks, tracks.len() as int, abs) {
            Err(e) => Err(e),
            Ok(_) => if exists|t: int| 0 <= t < tracks.len() && #[trigger] tracks[t].kind == PipelineTrackKind::Video {
                Ok(())
            } else {
                Err(PipelineErrorView::NoVideoClip)
            },
        }
    }
}

/// The answers to "is this path absolute?" for one track are ones the
/// platform may give: `true` only for a path that may be absolute somewhere.
pub open spec fn answers_sound_track(tr: PipelineTrackSpec, a: Seq<bool>) -> bool {
    match tr.kind {
        PipelineTrackKind::Text => a.len() == 1 && (a[0] ==> (tr.subtitle_file matches Some(f) && maybe_absolute(f@))),
        _ => a.len() == tr.clips@.len() && forall|c: int| 0 <= c < a.len() && #[trigger] a[c] ==> maybe_absolute(tr.clips@[c].path@),
    }
}

/// Sound answers for every track.
pub open spec fn answers_sound(tracks: Seq<PipelineTrackSpec>, abs: Seq<Seq<bool>>) -> bool {
    abs.len() == tracks.len() && forall|t: int| 0 <= t < tracks.len() ==> answers_sound_track(#[trigger] tracks[t], abs[t])
}

fn clip_label(t: usize, c: usize) -> (s: String)
    ensures
        s@ == clip_path_label(t as nat, c as nat),
{
    let mut v = chars_of("pipeline.tracks[");
    let mut d = decimal_vec(t as u128);
    v.append(&mut d);
    push_str(&mut v, "].clips[");
    let mut e = decimal_vec(c as u128);
    v.append(&mut e);
    push_str(&mut v, "].path");
    string_from_chars(&v)
}

fn subtitle_label(t: usize) -> (s: String)
    ensures
        s@ == subtitle_file_label(t as nat),
{
    let mut v = chars_of("pipeline.tracks[");
    let mut d = decimal_vec(t as u128);
    v.append(&mut d);
    push_str(&mut v, "].subtitle_file");
    string_from_chars(&v)
}

fn check_path(label: &str, value: &str) -> (r: (Result<(), PipelineError>, Ghost<bool>))
    ensures
        r.1@ ==> maybe_absolute(value@),
        result_view(r.0) == path_result(label@, value@, r.1@),
{
    let absolute = path_is_absolute(value);
    match check_relative_path(label, value, absolute) {
        Ok(()) => (Ok(()), Ghost(absolute)),
        Err(e) => (Err(PipelineError::BadPath(e)), Ghost(absolute)),
    }
}

fn check_clip(kind: PipelineTrackKind, t: usize, c: usize, clip: &PipelineClipSpec) -> (r: (Result<(), PipelineError>, Ghost<bool>))
    ensures
        r.1@ ==> maybe_absolute(clip.path@),
        result_view(r.0) == spec_check_clip(kind, t as nat, c as nat, *clip, r.1@),
{
    let label = clip_label(t, c);
    let (p, Ghost(absolute)) = check_path(label.as_str(), clip.path.as_str());
    if p.is_err() {
        return (p, Ghost(absolute));
    }
    if !matches!(clip.start, Real::NonNegative(_)) {
        return (Err(PipelineError::NegativeStart(t, c)), Ghost(absolute));
    }
    match clip.volume {
        Some(v) => if !matches!(v, Real::NonNegative(_)) {
            return (Err(PipelineError::NegativeVolume(t, c)), Ghost(absolute));
        },
        None => {},
    }
    match kind {
        PipelineTrackKind::Audio => match clip.end {
            None => (Err(PipelineError::AudioEndRequired(t, c)), Ghost(absolute)),
            Some(e) => {
                let start = match clip.start {
                    Real::NonNegative(s) => s,
                    _ => 0,
                };
                match e {
                    Real::NonNegative(ev) if ev > start => (Ok(()), Ghost(absolute)),
                    _ => (Err(PipelineError::EndNotAfterStart(t, c)), Ghost(absolute)),
                }
            },
        },
        _ => if clip.end.is_some() {
            (Err(PipelineError::VideoEndUnsupported(t, c)), Ghost(absolute))
        } else {
            (Ok(()), Ghost(absolute))
        },
    }
}

fn check_clips(kind: PipelineTrackKind, t: usize, clips: &Vec<PipelineClipSpec>) -> (r: (Result<(), PipelineError>, Ghost<Seq<bool>>))
    ensures
        r.1@.len() == clips@.len(),
        forall|c: int| 0 <= c < clips@.len() && #[trigger] r.1@[c] ==> maybe_absolute(clips@[c].path@),
        result_view(r.0) == spec_check_clips(kind, t as nat, clips@, r.1@),
{
    let ghost mut abs: Seq<bool> = Seq::new(clips@.len(), |c: int| false);
    let mut c: usize = 0;
    while c < clips.len()
        invariant
            c <= clips.len(),
            abs.len() == clips@.len(),
            forall|q: int| 0 <= q < clips@.len() && #[trigger] abs[q] ==> maybe_absolute(clips@[q].path@),
            forall|q: int| c <= q < clips@.len() ==> !#[trigger] abs[q],
            spec_check_clips(kind, t as nat, clips@.take(c as int), abs) == Ok::<(), PipelineErrorView>(()),
        decreases clips.len() - c,
    {
        let (res, Ghost(a)) = check_clip(kind, t, c, &clips[c]);
        let ghost before = abs;
        proof {
            abs = abs.update(c as int, a);
        }
        assert(clips@.take(c + 1).drop_last() =~= clips@.take(c as int));
        assert(clips@.take(c + 1).last() == clips@[c as int]);
        proof {
            lemma_check_clips_abs_frame(kind, t as nat, clips@.take(c as int), before, abs);
        }
        if res.is_err() {
            proof {
                lemma_check_clips_err_extends(kind, t as nat, clips@, c as int + 1, abs);
            }
            return (res, Ghost(abs));
        }
        c += 1;
    }
    assert(clips@.take(c as int) =~= clips@);
    (Ok(()), Ghost(abs))
}

proof fn lemma_check_clips_abs_frame(kind: PipelineTrackKind, t: nat, clips: Seq<PipelineClipSpec>, a1: Seq<bool>, a2: Seq<bool>)
    requires
        forall|q: int| 0 <= q < clips.len() ==> a1[q] == a2[q],
    ensures
        spec_check_clips(kind, t, clips, a1) == spec_check_clips(kind, t, clips, a2),
    decreases clips.len(),
{
    if clips.len() > 0 {
        lemma_check_clips_abs_frame(kind, t, clips.drop_last(), a1, a2);
    }
}

proof fn lemma_check_clips_err_extends(kind: PipelineTrackKind, t: nat, clips: Seq<PipelineClipSpec>, n: int, abs: Seq<bool>)
    requires
        0 <= n <= clips.len(),
        spec_check_clips(kind, t, clips.take(n), abs) is Err,
    ensures
        spec_check_clips(kind, t, clips, abs) == spec_check_clips(kind, t, clips.take(n), abs),
    decreases clips.len() - n,
{
    if n < clips.len() {
        assert(clips.take(n + 1).drop_last() =~= clips.take(n));
        lemma_check_clips_err_extends(kind, t, clips, n + 1, abs);
    } else {
        assert(clips.take(n) =~= clips);
    }
}

fn audio_ranges_of(clips: &Vec<PipelineClipSpec>) -> (r: Vec<(u64, u64)>)
    ensures
        r@ == audio_ranges(clips@),
{
    let mut out: Vec<(u64, u64)> = Vec::new();
    let mut c: usize = 0;
    while c < clips.len()
        invariant
            c <= clips.len(),
            out@ == audio_ranges(clips@).take(c as int),
        decreases clips.len() - c,
    {
        let s = match clips[c].start {
            Real::NonNegative(v) => v,
            _ => 0,
        };
        let e = match clips[c].end {
            Some(Real::NonNegative(v)) => v,
            _ => 0,
        };
        out.push((s, e));
        assert(audio_ranges(clips@).take(c + 1) =~= audio_ranges(clips@).take(c as int).push((s, e)));
        c += 1;
    }
    assert(audio_ranges(clips@).take(c as int) =~= audio_ranges(clips@));
    out
}

fn check_track(tracks: &Vec<PipelineTrackSpec>, t: usize) -> (r: (Result<(), PipelineError>, Ghost<Seq<bool>>))
    requires
        t < tracks.len(),
    ensures
        answers_sound_track(tracks@[t as int], r.1@),
        result_view(r.0) == spec_check_track(tracks@, t as int, r.1@),
{
    let tr = &tracks[t];
    let ghost none: Seq<bool> = match tr.kind {
        PipelineTrackKind::Text => seq![false],
        _ => Seq::new(tr.clips@.len(), |c: int| false),
    };
    let name = chars_of(tr.name.as_str());
    if vec_is_blank(&name) {
        return (Err(PipelineError::EmptyTrackName(t)), Ghost(none));
    }
    let mut u: usize = 0;
    while u < t
        invariant
            t < tracks.len(),
            u <= t,
            tr == &tracks@[t as int],
            !is_blank(tr.name@),
            none == (match tr.kind {
                PipelineTrackKind::Text => seq![false],
                _ => Seq::new(tr.clips@.len(), |c: int| false),
            }),
            forall|q: int| 0 <= q < u ==> #[trigger] tracks@[q].name@ != tr.name@,
        decreases t - u,
    {
        if crate::text::str_eq(tracks[u].name.as_str(), tr.name.as_str()) {
            assert(tracks@[u as int].name@ == tr.name@);
            return (Err(PipelineError::DuplicateTrackName(tr.name.clone())), Ghost(none));
        }
        u += 1;
    }
    assert(!exists|q: int| 0 <= q < t && #[trigger] tracks@[q].name@ == tr.name@);
    match tr.kind {
        PipelineTrackKind::Video => {
            if tr.subtitle_file.is_some() {
                return (Err(PipelineError::SubtitleOnlyOnText(t)), Ghost(none));
            }
            if tr.clips.len() == 0 {
                return (Err(PipelineError::NoVideoClips(t)), Ghost(none));
            }
            check_clips(tr.kind, t, &tr.clips)
        },
        PipelineTrackKind::Audio => {
            if tr.subtitle_file.is_some() {
                return (Err(PipelineError::SubtitleOnlyOnText(t)), Ghost(none));
            }
            if tr.clips.len() == 0 {
                return (Err(PipelineError::NoAudioClips(t)), Ghost(none));
            }
            let (res, Ghost(abs)) = check_clips(tr.kind, t, &tr.clips);
            if res.is_err() {
                return (res, Ghost(abs));
            }
            let ranges = audio_ranges_of(&tr.clips);
            match find_overlap(&ranges) {
                None => (Ok(()), Ghost(abs)),
                Some((a, b)) => (Err(PipelineError::ClipsOverlap(t, a, b)), Ghost(abs)),
            }
        },
        PipelineTrackKind::Text => {
            if tr.clips.len() > 0 {
                return (Err(PipelineError::TextClipsUnsupported(t)), Ghost(none));
            }
            match &tr.subtitle_file {
                None => (Err(PipelineError::TextSubtitleRequired(t)), Ghost(none)),
                Some(f) => {
                    let label = subtitle_label(t);
                    let (p, Ghost(absolute)) = check_path(label.as_str(), f.as_str());
                    let ghost abs = seq![absolute];
                    if p.is_err() {
                        return (p, Ghost(abs));
                    }
                    match &tr.style {
                        Some(st) => (validate_simple_subtitle_style(st), Ghost(abs)),
                        None => (Ok(()), Ghost(abs)),
                    }
                },
            }
        },
    }
}

proof fn lemma_check_tracks_abs_frame(tracks: Seq<PipelineTrackSpec>, n: int, a1: Seq<Seq<bool>>, a2: Seq<Seq<bool>>)
    requires
        forall|q: int| 0 <= q < n ==> a1[q] == a2[q],
    ensures
        spec_check_tracks(tracks, n, a1) == spec_check_tracks(tracks, n, a2),
    decreases n,
{
    if n > 0 {
        lemma_check_tracks_abs_frame(tracks, n - 1, a1, a2);
    }
}

proof fn lemma_check_tracks_err_extends(tracks: Seq<PipelineTrackSpec>, n: int, m: int, abs: Seq<Seq<bool>>)
    requires
        0 <= n <= m,
        spec_check_tracks(tracks, n, abs) is Err,
    ensures
        spec_check_tracks(tracks, m, abs) == spec_check_tracks(tracks, n, abs),
    decreases m - n,
{
    if n < m {
        lemma_check_tracks_err_extends(tracks, n, m - 1, abs);
    }
}

/// Checks the track list of a pipeline bundle: at least one track; each
/// with a name no other track has; video tracks with clips that give no end,
/// audio tracks with clips that end after they start and do not overlap,
/// text tracks with a subtitle file and no clips; valid relative paths,
/// starts and volumes; and at least one video clip. The first failure, in
/// track and clip order, is reported.
///
/// Whether a path is absolute is asked of the platform; the result is the
/// check's for some answers the platform may give.
pub fn validate_pipeline_multitrack_spec(tracks: &Vec<PipelineTrackSpec>) -> (r: Result<(), PipelineError>)
    ensures
        exists|abs: Seq<Seq<bool>>| answers_sound(tracks@, abs) && result_view(r) == #[trigger] spec_check_multitrack(tracks@, abs),
{
    let ghost mut abs: Seq<Seq<bool>> = Seq::new(tracks@.len(), |t: int| match tracks@[t].kind {
        PipelineTrackKind::Text => seq![false],
        _ => Seq::new(tracks@[t].clips@.len(), |c: int| false),
    });
    assert(answers_sound(tracks@, abs));
    if tracks.len() == 0 {
        assert(result_view(Err(PipelineError::NoTracks)) == spec_check_multitrack(tracks@, abs));
        return Err(PipelineError::NoTracks);
    }
    let mut t: usize = 0;
    while t < tracks.len()
        invariant
            t <= tracks.len(),
            answers_sound(tracks@, abs),
            spec_check_tracks(tracks@, t as int, abs) == Ok::<(), PipelineErrorView>(()),
        decreases tracks.len() - t,
    {
        let (res, Ghost(a)) = check_track(tracks, t);
        let ghost before = abs;
        proof {
            abs = abs.update(t as int, a);
            lemma_check_tracks_abs_frame(tracks@, t as int, before, abs);
            assert forall|q: int| 0 <= q < tracks@.len() implies answers_sound_track(#[trigger] tracks@[q], abs[q]) by {
                if q != t {
                    assert(abs[q] == before[q]);
                }
            }
        }
        if res.is_err() {
            proof {
                lemma_check_tracks_err_extends(tracks@, t as int + 1, tracks@.len() as int, abs);
            }
            assert(result_view(res) == spec_check_multitrack(tracks@, abs));
            return res;
        }
        t += 1;
    }
    let mut v: usize = 0;
    while v < tracks.len()
        invariant
            v <= tracks.len(),
            tracks.len() > 0,
            answers_sound(tracks@, abs),
            spec_check_tracks(tracks@, tracks.len() as int, abs) == Ok::<(), PipelineErrorView>(()),
            forall|q: int| 0 <= q < v ==> #[trigger] tracks@[q].kind != PipelineTrackKind::Video,
        decreases tracks.len() - v,
    {
        if matches!(tracks[v].kind, PipelineTrackKind::Video) {
            assert(tracks@[v as int].kind == PipelineTrackKind::Video);
            assert(result_view(Ok(())) == spec_check_multitrack(tracks@, abs));
            return Ok(());
        }
        v += 1;
    }
    assert(result_view(Err(PipelineError::NoVideoClip)) == spec_check_multitrack(tracks@, abs));
    Err(PipelineError::NoVideoClip)
}

/// The check of the `pipeline` section: the retired `audio_file` is
/// refused; a track list stands alone and must pass its own check; without
/// one, the concat file, the subtitle file and at least one narration file
/// are required.
pub open spec fn spec_check_pipeline(p: PipelineSpec, abs: Seq<Seq<bool>>) -> Result<(), PipelineErrorView> {
    if p.audio_file is Some {
        Err(PipelineErrorView::AudioFileUnsupported)
    } else {
        match p.tracks {
            Some(tracks) => if p.concat_file is Some || p.subtitle_file is Some || p.narration_files@.len() > 0 {
                Err(PipelineErrorView::TracksCombined)
            } else {
                spec_check_multitrack(tracks@, abs)
            },
            None => if p.concat_file is None {
                Err(PipelineErrorView::ConcatFileRequired)
            } else if p.subtitle_file is None {
                Err(PipelineErrorView::SubtitleFileRequired)
            } else if p.narration_files@.len() == 0 {
                Err(PipelineErrorView::NarrationFilesRequired)
            } else {
                Ok(())
            },
        }
    }
}

/// Checks the `pipeline` section of a bundle manifest (see
/// [`spec_check_pipeline`]). Whether a path is absolute is asked of the
/// platform; the result is the check's for some answers the platform may give.
pub fn validate_pipeline_spec(pipeline: &PipelineSpec) -> (r: Result<(), PipelineError>)
    ensures
        exists|abs: Seq<Seq<bool>>| (pipeline.tracks matches Some(tr) ==> answers_sound(tr@, abs))
            && result_view(r) == #[trigger] spec_check_pipeline(*pipeline, abs),
{
    let ghost none: Seq<Seq<bool>> = match &pipeline.tracks {
        Some(tr) => Seq::new(tr@.len(), |t: int| match tr@[t].kind {
            PipelineTrackKind::Text => seq![false],
            _ => Seq::new(tr@[t].clips@.len(), |c: int| false),
        }),
        None => Seq::empty(),
    };
    assert(pipeline.tracks matches Some(tr) ==> answers_sound(tr@, none));
    if pipeline.audio_file.is_some() {
        assert(result_view(Err(PipelineError::AudioFileUnsupported)) == spec_check_pipeline(*pipeline, none));
        return Err(PipelineError::AudioFileUnsupported);
    }
    match &pipeline.tracks {
        Some(tracks) => {
            if pipeline.concat_file.is_some() || pipeline.subtitle_file.is_some() || pipeline.narration_files.len() > 0 {
                assert(result_view(Err(PipelineError::TracksCombined)) == spec_check_pipeline(*pipeline, none));
                return Err(PipelineError::TracksCombined);
            }
            let r = validate_pipeline_multitrack_spec(tracks);
            proof {
                let abs = choose|abs: Seq<Seq<bool>>| answers_sound(tracks@, abs) && result_view(r) == spec_check_multitrack(tracks@, abs);
                assert(result_view(r) == spec_check_pipeline(*pipeline, abs));
            }
            r
        },
        None => {
            if pipeline.concat_file.is_none() {
                assert(result_view(Err(PipelineError::ConcatFileRequired)) == spec_check_pipeline(*pipeline, none));
                return Err(PipelineError::ConcatFileRequired);
            }
            if pipeline.subtitle_file.is_none() {
                assert(result_view(Err(PipelineError::SubtitleFileRequired)) == spec_check_pipeline(*pipeline, none));
                return Err(PipelineError::SubtitleFileRequired);
            }
            if pipeline.narration_files.len() == 0 {
                assert(result_view(Err(PipelineError::NarrationFilesRequired)) == spec_check_pipeline(*pipeline, none));
                return Err(PipelineError::NarrationFilesRequired);
            }
            assert(result_view(Ok(())) == spec_check_pipeline(*pipeline, none));
            Ok(())
        },
    }
}

} // verus!
