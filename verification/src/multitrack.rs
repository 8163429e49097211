//! Placing the clips of a `pipeline_package` that lists its own tracks.
//!
//! The track list has passed its check; the media of its clips have been
//! loaded (`None` where that failed) and the subtitle files of its text
//! tracks parsed (`None` where that failed). The placement reports the first
//! problem in track and clip order.

use vstd::prelude::*;
use crate::model::{MaterialKind, TimeRange};
use crate::pipeline::{PipelineClipSpec, PipelineTrackKind, PipelineTrackSpec, Real};
use crate::srt::SrtCue;
use crate::stitch::MaterialSummary;

verus! {

/// A clip placed on a draft track: where it plays, and which part of its
/// material plays (none for subtitles).
#[derive(Debug, Clone, Copy, PartialEq, Eq)]
pub struct PlannedClip {
    pub target: TimeRange,
    pub source: Option<TimeRange>,
}

/// Why a track list could not be placed. Track, clip and cue numbers count
/// from 0.
#[derive(Debug, Clone, Copy, PartialEq, Eq)]
pub enum MultitrackError {
    /// The clip's media could not be loaded.
    LoadFailed(usize, usize),
    /// The clip of a video track is an image, not a video.
    NotVideo(usize, usize),
    /// The clip plays for no time.
    ZeroDuration(usize, usize),
    /// The clip's start is negative or not finite.
    StartInvalid(usize, usize),
    /// The audio clip gives no end.
    AudioEndRequired(usize, usize),
    /// The audio clip does not end after it starts.
    EndNotAfterStart(usize, usize),
    /// The clip ends past what 64 bits of microseconds hold.
    TimeOverflow(usize, usize),
    /// The text track names no subtitle file.
    TextSubtitleRequired(usize),
    /// The text track's subtitle file could not be read or parsed.
    SubtitleUnavailable(usize),
    /// No video track holds a clip.
    NoVideoClip,
    /// The text clip (track, cue) ends after the last video clip.
    TextBeyondVideo(usize, usize),
}

/// The placement of clip `c` of video or audio track `t`, given its material.
pub open spec fn spec_plan_clip(kind: PipelineTrackKind, t: usize, c: usize, clip: PipelineClipSpec, m: Option<MaterialSummary>) -> Result<PlannedClip, MultitrackError> {
    match kind {
        PipelineTrackKind::Audio => match clip.end {
            None => Err(MultitrackError::AudioEndRequired(t, c)),
            Some(e) => if !(clip.start matches Real::NonNegative(s) && e matches Real::NonNegative(ev) && ev > s) {
                Err(MultitrackError::EndNotAfterStart(t, c))
            } else {
                match m {
                    None => Err(MultitrackError::LoadFailed(t, c)),
                    Some(v) => {
                        let s = clip.start->NonNegative_0;
                        let ev = e->NonNegative_0;
                        let requested = ev - s;
                        let d = if v.duration < requested { v.duration as int } else { requested };
                        if d == 0 {
                            Err(MultitrackError::ZeroDuration(t, c))
                        } else {
                            Ok(PlannedClip {
                                target: TimeRange { start: s, duration: d as u64 },
                                source: Some(TimeRange { start: 0, duration: d as u64 }),
                            })
                        }
                    },
                }
            },
        },
        _ => match m {
            None => Err(MultitrackError::LoadFailed(t, c)),
            Some(v) => if v.kind != MaterialKind::Video {
                Err(MultitrackError::NotVideo(t, c))
            } else if v.duration == 0 {
                Err(MultitrackError::ZeroDuration(t, c))
            } else {
                match clip.start {
                    Real::NonNegative(s) => if s + v.duration > u64::MAX {
                        Err(MultitrackError::TimeOverflow(t, c))
                    } else {
                        Ok(PlannedClip { target: TimeRange { start: s, duration: v.duration }, source: None })
                    },
                    _ => Err(MultitrackError::StartInvalid(t, c)),
                }
            },
        },
    }
}

/// The placements of the clips of track `t`, in order; the first problem otherwise.
pub open spec fn spec_plan_clips(kind: PipelineTrackKind, t: usize, clips: Seq<PipelineClipSpec>, media: Seq<Option<MaterialSummary>>) -> Result<Seq<PlannedClip>, MultitrackError>
    decreases clips.len(),
{
    if clips.len() == 0 {
        Ok(Seq::empty())
    } else {
        match spec_plan_clips(kind, t, clips.drop_last(), media) {
            Err(e) => Err(e),
            Ok(done) => match spec_plan_clip(kind, t, (clips.len() - 1) as usize, clips.last(), media[clips.len() - 1]) {
                Err(e) => Err(e),
                Ok(p) => Ok(done.push(p)),
            },
        }
    }
}

/// The placement of cue `i` of text track `t`.
pub open spec fn spec_plan_cue(t: usize, i: usize, cue: SrtCue) -> Result<PlannedClip, MultitrackError> {
    let start = cue.start_ms * 1000;
    let end = cue.end_ms * 1000;
    if start > u64::MAX || end > u64::MAX {
        Err(MultitrackError::TimeOverflow(t, i))
    } else {
        Ok(PlannedClip { target: TimeRange { start: start as u64, duration: (end - start) as u64 }, source: None })
    }
}

/// The placements of the cues of text track `t`, in order.
pub open spec fn spec_plan_cues(t: usize, cues: Seq<SrtCue>) -> Result<Seq<PlannedClip>, MultitrackError>
    decreases cues.len(),
{
    if cues.len() == 0 {
        Ok(Seq::empty())
    } else {
        match spec_plan_cues(t, cues.drop_last()) {
            Err(e) => Err(e),
            Ok(done) => match spec_plan_cue(t, (cues.len() - 1) as usize, cues.last()) {
                Err(e) => Err(e),
                Ok(p) => Ok(done.push(p)),
            },
        }
    }
}

/// The placements of the clips of track `t`.
pub open spec fn spec_plan_track(t: usize, tr: PipelineTrackSpec, media: Seq<Option<MaterialSummary>>, cues: Option<Seq<SrtCue>>) -> Result<Seq<PlannedClip>, MultitrackError> {
    match tr.kind {
        PipelineTrackKind::Text => if tr.subtitle_file is None {
            Err(MultitrackError::TextSubtitleRequired(t))
        } else {
            match cues {
                None => Err(MultitrackError::SubtitleUnavailable(t)),
                Some(cs) => spec_plan_cues(t, cs),
            }
        },
        _ => spec_plan_clips(tr.kind, t, tr.clips@, media),
    }
}

/// The placements of the first `n` tracks; the first problem otherwise.
pub open spec fn spec_plan_tracks(tracks: Seq<PipelineTrackSpec>, media: Seq<Seq<Option<MaterialSummary>>>, cues: Seq<Option<Seq<SrtCue>>>, n: int) -> Result<Seq<Seq<PlannedClip>>, MultitrackError>
    decreases n,
{
    if n <= 0 {
        Ok(Seq::empty())
    } else {
        match spec_plan_tracks(tracks, media, cues, n - 1) {
            Err(e) => Err(e),
            Ok(done) => match spec_plan_track((n - 1) as usize, tracks[n - 1], media[n - 1], cues[n - 1]) {
                Err(e) => Err(e),
                Ok(p) => Ok(done.push(p)),
            },
        }
    }
}

/// Where the clip ends.
pub open spec fn clip_end(p: PlannedClip) -> int {
    p.target.start + p.target.duration
}

/// No video clip ends after `d`.
pub open spec fn video_ends_within(tracks: Seq<PipelineTrackSpec>, plans: Seq<Seq<PlannedClip>>, d: int) -> bool {
    forall|t: int, i: int| 0 <= t < plans.len() && tracks[t].kind == PipelineTrackKind::Video && 0 <= i < plans[t].len()
        ==> clip_end(#[trigger] plans[t][i]) <= d
}

/// Some video clip ends at `d`.
pub open spec fn video_end_is(tracks: Seq<PipelineTrackSpec>, plans: Seq<Seq<PlannedClip>>, d: int) -> bool {
    exists|t: int, i: int| 0 <= t < plans.len() && tracks[t].kind == PipelineTrackKind::Video && 0 <= i < plans[t].len()
        && clip_end(#[trigger] plans[t][i]) == d
}

/// The end of the last video clip; 0 when there is none.
pub open spec fn video_duration(tracks: Seq<PipelineTrackSpec>, plans: Seq<Seq<PlannedClip>>) -> int {
    choose|d: int| video_ends_within(tracks, plans, d) && (d == 0 || video_end_is(tracks, plans, d)) && d >= 0
}

/// The first text clip, in track and cue order, ending after `d`.
pub open spec fn first_text_beyond(tracks: Seq<PipelineTrackSpec>, plans: Seq<Seq<PlannedClip>>, d: int, t: int, i: int) -> bool {
    &&& 0 <= t < plans.len()
    &&& tracks[t].kind == PipelineTrackKind::Text
    &&& 0 <= i < plans[t].len()
    &&& clip_end(plans[t][i]) > d
    &&& forall|t2: int, i2: int| 0 <= t2 < plans.len() && tracks[t2].kind == PipelineTrackKind::Text && 0 <= i2 < plans[t2].len()
        && clip_end(#[trigger] plans[t2][i2]) > d ==> t < t2 || (t == t2 && i <= i2)
}

/// Some video track holds a clip.
pub open spec fn has_video_clip(tracks: Seq<PipelineTrackSpec>, plans: Seq<Seq<PlannedClip>>) -> bool {
    exists|t: int| 0 <= t < tracks.len() && tracks[t].kind == PipelineTrackKind::Video && #[trigger] plans[t].len() > 0
}

/// Some text clip ends after `d`.
pub open spec fn has_text_beyond(tracks: Seq<PipelineTrackSpec>, plans: Seq<Seq<PlannedClip>>, d: int) -> bool {
    exists|t: int, i: int| #[trigger] first_text_beyond(tracks, plans, d, t, i)
}

/// The placement of a whole track list: every track placed, some video
/// clip present, and no text clip ending after the last video clip.
pub open spec fn spec_plan_multitrack(tracks: Seq<PipelineTrackSpec>, media: Seq<Seq<Option<MaterialSummary>>>, cues: Seq<Option<Seq<SrtCue>>>) -> Result<Seq<Seq<PlannedClip>>, MultitrackError> {
    match spec_plan_tracks(tracks, media, cues, tracks.len() as int) {
        Err(e) => Err(e),
        Ok(plans) => if !has_video_clip(tracks, plans) {
            Err(MultitrackError::NoVideoClip)
        } else if has_text_beyond(tracks, plans, video_duration(tracks, plans)) {
            let p = choose|p: (int, int)| first_text_beyond(tracks, plans, video_duration(tracks, plans), p.0, p.1);
            Err(MultitrackError::TextBeyondVideo(p.0 as usize, p.1 as usize))
        } else {
            Ok(plans)
        },
    }
}

/// The number of tracks of `kind` among `tracks`.
pub open spec fn kind_count(tracks: Seq<PipelineTrackSpec>, kind: PipelineTrackKind) -> nat
    decreases tracks.len(),
{
    if tracks.len() == 0 {
        0
    } else {
        kind_count(tracks.drop_last(), kind) + if tracks.last().kind == kind { 1nat } else { 0nat }
    }
}

proof fn lemma_kind_count_bound(tracks: Seq<PipelineTrackSpec>, kind: PipelineTrackKind)
    ensures
        kind_count(tracks, kind) <= tracks.len(),
    decreases tracks.len(),
{
    if tracks.len() > 0 {
        lemma_kind_count_bound(tracks.drop_last(), kind);
    }
}

/// Counting tracks of a kind over a longer prefix adds one for each track of
/// that kind in between.
proof fn lemma_kind_count_step(tracks: Seq<PipelineTrackSpec>, n: int, kind: PipelineTrackKind)
    requires
        0 <= n < tracks.len(),
    ensures
        kind_count(tracks.take(n + 1), kind) == kind_count(tracks.take(n), kind) + if tracks[n].kind == kind { 1nat } else { 0nat },
{
    assert(tracks.take(n + 1).drop_last() =~= tracks.take(n));
}

proof fn lemma_kind_count_gap(tracks: Seq<PipelineTrackSpec>, a: int, b: int, kind: PipelineTrackKind)
    requires
        0 <= a <= b <= tracks.len(),
        forall|j: int| a <= j < b ==> (#[trigger] tracks[j]).kind != kind,
    ensures
        kind_count(tracks.take(b), kind) == kind_count(tracks.take(a), kind),
    decreases b - a,
{
    if b > a {
        lemma_kind_count_gap(tracks, a, b - 1, kind);
        lemma_kind_count_step(tracks, b - 1, kind);
    }
}

/// Tracks of one kind stack in list order, each kind on its own: the first
/// track of a kind gets offset 0, and the next track of the same kind the
/// offset after it, whatever tracks of other kinds stand between them.
pub proof fn lemma_render_offsets_stack(tracks: Seq<PipelineTrackSpec>, t1: int, t2: int)
    requires
        0 <= t1 < t2 < tracks.len(),
        tracks[t1].kind == tracks[t2].kind,
        forall|j: int| t1 < j < t2 ==> (#[trigger] tracks[j]).kind != tracks[t1].kind,
    ensures
        kind_count(tracks.take(t2), tracks[t2].kind) == kind_count(tracks.take(t1), tracks[t1].kind) + 1,
{
    lemma_kind_count_step(tracks, t1, tracks[t1].kind);
    lemma_kind_count_gap(tracks, t1 + 1, t2, tracks[t1].kind);
}

/// The first track of a kind gets render-index offset 0.
pub proof fn lemma_render_offset_first(tracks: Seq<PipelineTrackSpec>, t: int)
    requires
        0 <= t < tracks.len(),
        forall|j: int| 0 <= j < t ==> (#[trigger] tracks[j]).kind != tracks[t].kind,
    ensures
        kind_count(tracks.take(t), tracks[t].kind) == 0,
{
    lemma_kind_count_gap(tracks, 0, t, tracks[t].kind);
    assert(tracks.take(0) =~= Seq::<PipelineTrackSpec>::empty());
}

/// The render-index offset of each track: the number of tracks of the same
/// kind before it, so that tracks of one kind stack in list order.
pub fn render_offsets(tracks: &Vec<PipelineTrackSpec>) -> (r: Vec<i32>)
    requires
        tracks.len() <= i32::MAX,
    ensures
        r@.len() == tracks@.len(),
        forall|t: int| 0 <= t < tracks@.len() ==> #[trigger] r@[t] == kind_count(tracks@.take(t), tracks@[t].kind),
{
    let mut out: Vec<i32> = Vec::new();
    let mut video: i32 = 0;
    let mut audio: i32 = 0;
    let mut text: i32 = 0;
    let mut t: usize = 0;
    assert(tracks@.take(0) =~= Seq::<PipelineTrackSpec>::empty());
    while t < tracks.len()
        invariant
            t <= tracks.len(),
            tracks.len() <= i32::MAX,
            out@.len() == t,
            video == kind_count(tracks@.take(t as int), PipelineTrackKind::Video),
            audio == kind_count(tracks@.take(t as int), PipelineTrackKind::Audio),
            text == kind_count(tracks@.take(t as int), PipelineTrackKind::Text),
            forall|q: int| 0 <= q < t ==> #[trigger] out@[q] == kind_count(tracks@.take(q), tracks@[q].kind),
        decreases tracks.len() - t,
    {
        proof {
            lemma_kind_count_bound(tracks@.take(t as int), PipelineTrackKind::Video);
            lemma_kind_count_bound(tracks@.take(t as int), PipelineTrackKind::Audio);
            lemma_kind_count_bound(tracks@.take(t as int), PipelineTrackKind::Text);
        }
        assert(tracks@.take(t + 1).drop_last() =~= tracks@.take(t as int));
        assert(tracks@.take(t + 1).last() == tracks@[t as int]);
        match tracks[t].kind {
            PipelineTrackKind::Video => {
                out.push(video);
                video = video + 1;
            },
            PipelineTrackKind::Audio => {
                out.push(audio);
                audio = audio + 1;
            },
            PipelineTrackKind::Text => {
                out.push(text);
                text = text + 1;
            },
        }
        t += 1;
    }
    out
}

fn plan_clip(kind: PipelineTrackKind, t: usize, c: usize, clip: &PipelineClipSpec, m: Option<MaterialSummary>) -> (r: Result<PlannedClip, MultitrackError>)
    ensures
        r == spec_plan_clip(kind, t, c, *clip, m),
{
    match kind {
        PipelineTrackKind::Audio => match clip.end {
            None => Err(MultitrackError::AudioEndRequired(t, c)),
            Some(e) => {
                let (s, ev) = match (clip.start, e) {
                    (Real::NonNegative(s), Real::NonNegative(ev)) if ev > s => (s, ev),
                    _ => return Err(MultitrackError::EndNotAfterStart(t, c)),
                };
                match m {
                    None => Err(MultitrackError::LoadFailed(t, c)),
                    Some(v) => {
                        let requested = ev - s;
                        let d = if v.duration < requested { v.duration } else { requested };
                        if d == 0 {
                            Err(MultitrackError::ZeroDuration(t, c))
                        } else {
                            Ok(PlannedClip {
                                target: TimeRange { start: s, duration: d },
                                source: Some(TimeRange { start: 0, duration: d }),
                            })
                        }
                    },
                }
            },
        },
        _ => match m {
            None => Err(MultitrackError::LoadFailed(t, c)),
            Some(v) => if !matches!(v.kind, MaterialKind::Video) {
                Err(MultitrackError::NotVideo(t, c))
            } else if v.duration == 0 {
                Err(MultitrackError::ZeroDuration(t, c))
            } else {
                match clip.start {
                    Real::NonNegative(s) => if s.checked_add(v.duration).is_none() {
                        Err(MultitrackError::TimeOverflow(t, c))
                    } else {
                        Ok(PlannedClip { target: TimeRange { start: s, duration: v.duration }, source: None })
                    },
                    _ => Err(MultitrackError::StartInvalid(t, c)),
                }
            },
        },
    }
}

proof fn lemma_plan_clips_err_extends(kind: PipelineTrackKind, t: usize, clips: Seq<PipelineClipSpec>, media: Seq<Option<MaterialSummary>>, n: int)
    requires
        0 <= n <= clips.len(),
        spec_plan_clips(kind, t, clips.take(n), media) is Err,
    ensures
        spec_plan_clips(kind, t, clips, media) == spec_plan_clips(kind, t, clips.take(n), media),
    decreases clips.len() - n,
{
    if n < clips.len() {
        assert(clips.take(n + 1).drop_last() =~= clips.take(n));
        lemma_plan_clips_err_extends(kind, t, clips, media, n + 1);
    } else {
        assert(clips.take(n) =~= clips);
    }
}

fn plan_clips(kind: PipelineTrackKind, t: usize, clips: &Vec<PipelineClipSpec>, media: &Vec<Option<MaterialSummary>>) -> (r: Result<Vec<PlannedClip>, MultitrackError>)
    requires
        media.len() == clips.len(),
    ensures
        match r {
            Ok(v) => spec_plan_clips(kind, t, clips@, media@) == Ok::<Seq<PlannedClip>, MultitrackError>(v@),
            Err(e) => spec_plan_clips(kind, t, clips@, media@) == Err::<Seq<PlannedClip>, MultitrackError>(e),
        },
{
    let mut out: Vec<PlannedClip> = Vec::new();
    let mut c: usize = 0;
    assert(clips@.take(0) =~= Seq::<PipelineClipSpec>::empty());
    while c < clips.len()
        invariant
            c <= clips.len(),
            media.len() == clips.len(),
            spec_plan_clips(kind, t, clips@.take(c as int), media@) == Ok::<Seq<PlannedClip>, MultitrackError>(out@),
        decreases clips.len() - c,
    {
        assert(clips@.take(c + 1).drop_last() =~= clips@.take(c as int));
        assert(clips@.take(c + 1).last() == clips@[c as int]);
        match plan_clip(kind, t, c, &clips[c], media[c]) {
            Err(e) => {
                proof {
                    lemma_plan_clips_err_extends(kind, t, clips@, media@, c + 1);
                }
                return Err(e);
            },
            Ok(p) => {
                out.push(p);
            },
        }
        c += 1;
    }
    assert(clips@.take(c as int) =~= clips@);
    Ok(out)
}

proof fn lemma_plan_cues_err_extends(t: usize, cues: Seq<SrtCue>, n: int)
    requires
        0 <= n <= cues.len(),
        spec_plan_cues(t, cues.take(n)) is Err,
    ensures
        spec_plan_cues(t, cues) == spec_plan_cues(t, cues.take(n)),
    decreases cues.len() - n,
{
    if n < cues.len() {
        assert(cues.take(n + 1).drop_last() =~= cues.take(n));
        lemma_plan_cues_err_extends(t, cues, n + 1);
    } else {
        assert(cues.take(n) =~= cues);
    }
}

fn plan_cues(t: usize, cues: &Vec<SrtCue>) -> (r: Result<Vec<PlannedClip>, MultitrackError>)
    requires
        forall|i: int| 0 <= i < cues.len() ==> (#[trigger] cues@[i]).start_ms <= cues@[i].end_ms,
    ensures
        match r {
            Ok(v) => spec_plan_cues(t, cues@) == Ok::<Seq<PlannedClip>, MultitrackError>(v@),
            Err(e) => spec_plan_cues(t, cues@) == Err::<Seq<PlannedClip>, MultitrackError>(e),
        },
{
    let mut out: Vec<PlannedClip> = Vec::new();
    let mut i: usize = 0;
    assert(cues@.take(0) =~= Seq::<SrtCue>::empty());
    while i < cues.len()
        invariant
            i <= cues.len(),
            forall|q: int| 0 <= q < cues.len() ==> (#[trigger] cues@[q]).start_ms <= cues@[q].end_ms,
            spec_plan_cues(t, cues@.take(i as int)) == Ok::<Seq<PlannedClip>, MultitrackError>(out@),
        decreases cues.len() - i,
    {
        assert(cues@.take(i + 1).drop_last() =~= cues@.take(i as int));
        assert(cues@.take(i + 1).last() == cues@[i as int]);
        let cue = &cues[i];
        assert(cue.start_ms <= cue.end_ms);
        if cue.start_ms > 18_446_744_073_709_551u128 || cue.end_ms > 18_446_744_073_709_551u128 {
            proof {
                lemma_plan_cues_err_extends(t, cues@, i + 1);
            }
            return Err(MultitrackError::TimeOverflow(t, i));
        }
        let start = (cue.start_ms * 1000) as u64;
        let end = (cue.end_ms * 1000) as u64;
        out.push(PlannedClip { target: TimeRange { start, duration: end - start }, source: None });
        i += 1;
    }
    assert(cues@.take(i as int) =~= cues@);
    Ok(out)
}

/// The cues of a subtitle file, when it could be read.
pub open spec fn cues_view(c: Option<Vec<SrtCue>>) -> Option<Seq<SrtCue>> {
    match c {
        Some(v) => Some(v@),
        None => None,
    }
}

/// Every parsed cue ends no earlier than it starts.
pub open spec fn cues_ordered(c: Option<Vec<SrtCue>>) -> bool {
    c matches Some(v) ==> forall|i: int| 0 <= i < v@.len() ==> (#[trigger] v@[i]).start_ms <= v@[i].end_ms
}

fn plan_track(t: usize, tr: &PipelineTrackSpec, media: &Vec<Option<MaterialSummary>>, cues: &Option<Vec<SrtCue>>) -> (r: Result<Vec<PlannedClip>, MultitrackError>)
    requires
        tr.kind != PipelineTrackKind::Text ==> media.len() == tr.clips.len(),
        cues_ordered(*cues),
    ensures
        match r {
            Ok(v) => spec_plan_track(t, *tr, media@, cues_view(*cues)) == Ok::<Seq<PlannedClip>, MultitrackError>(v@),
            Err(e) => spec_plan_track(t, *tr, media@, cues_view(*cues)) == Err::<Seq<PlannedClip>, MultitrackError>(e),
        },
{
    match tr.kind {
        PipelineTrackKind::Text => {
            if tr.subtitle_file.is_none() {
                return Err(MultitrackError::TextSubtitleRequired(t));
            }
            match cues {
                None => Err(MultitrackError::SubtitleUnavailable(t)),
                Some(cs) => plan_cues(t, cs),
            }
        },
        _ => plan_clips(tr.kind, t, &tr.clips, media),
    }
}

/// The parsed cues, if any, end no earlier than they start.
pub open spec fn cues_seq_ordered(c: Option<Seq<SrtCue>>) -> bool {
    c matches Some(v) ==> forall|i: int| 0 <= i < v.len() ==> (#[trigger] v[i]).start_ms <= v[i].end_ms
}

/// Every track's parsed cues are ordered.
pub open spec fn all_ordered(c: Seq<Option<Seq<SrtCue>>>) -> bool {
    forall|t: int| 0 <= t < c.len() ==> cues_seq_ordered(#[trigger] c[t])
}

/// The views of the clip lists of a plan.
pub open spec fn plan_views(v: Seq<Vec<PlannedClip>>) -> Seq<Seq<PlannedClip>> {
    v.map_values(|x: Vec<PlannedClip>| x@)
}

/// The media and subtitles handed to the placement fit the track list: one
/// media entry per clip of a video or audio track, one subtitle entry per
/// track, and parsed cues that end no earlier than they start.
pub open spec fn inputs_fit(tracks: Seq<PipelineTrackSpec>, media: Seq<Vec<Option<MaterialSummary>>>, cues: Seq<Option<Vec<SrtCue>>>) -> bool {
    &&& media.len() == tracks.len()
    &&& cues.len() == tracks.len()
    &&& forall|t: int| 0 <= t < tracks.len() && tracks[t].kind != PipelineTrackKind::Text
        ==> (#[trigger] media[t])@.len() == tracks[t].clips@.len()
    &&& forall|t: int| 0 <= t < tracks.len() ==> cues_ordered(#[trigger] cues[t])
}

/// The media of each track, viewed.
pub open spec fn media_views(m: Seq<Vec<Option<MaterialSummary>>>) -> Seq<Seq<Option<MaterialSummary>>> {
    m.map_values(|x: Vec<Option<MaterialSummary>>| x@)
}

/// The cues of each track, viewed.
pub open spec fn all_cues_views(c: Seq<Option<Vec<SrtCue>>>) -> Seq<Option<Seq<SrtCue>>> {
    c.map_values(|x: Option<Vec<SrtCue>>| cues_view(x))
}

proof fn lemma_plan_tracks_err_extends(tracks: Seq<PipelineTrackSpec>, media: Seq<Seq<Option<MaterialSummary>>>, cues: Seq<Option<Seq<SrtCue>>>, n: int, m: int)
    requires
        0 <= n <= m,
        spec_plan_tracks(tracks, media, cues, n) is Err,
    ensures
        spec_plan_tracks(tracks, media, cues, m) == spec_plan_tracks(tracks, media, cues, n),
    decreases m - n,
{
    if n < m {
        lemma_plan_tracks_err_extends(tracks, media, cues, n, m - 1);
    }
}

proof fn lemma_video_duration(tracks: Seq<PipelineTrackSpec>, plans: Seq<Seq<PlannedClip>>, d: int)
    requires
        d >= 0,
        video_ends_within(tracks, plans, d),
        d == 0 || video_end_is(tracks, plans, d),
    ensures
        video_duration(tracks, plans) == d,
{
    let c = video_duration(tracks, plans);
    assert(video_ends_within(tracks, plans, c) && (c == 0 || video_end_is(tracks, plans, c)) && c >= 0);
    if c != d {
        if d != 0 {
            let (t, i) = choose|t: int, i: int| 0 <= t < plans.len() && tracks[t].kind == PipelineTrackKind::Video && 0 <= i < plans[t].len()
                && clip_end(#[trigger] plans[t][i]) == d;
            assert(clip_end(plans[t][i]) <= c);
        }
        if c != 0 {
            let (t, i) = choose|t: int, i: int| 0 <= t < plans.len() && tracks[t].kind == PipelineTrackKind::Video && 0 <= i < plans[t].len()
                && clip_end(#[trigger] plans[t][i]) == c;
            assert(clip_end(plans[t][i]) <= d);
        }
    }
}

proof fn lemma_first_text_beyond_unique(tracks: Seq<PipelineTrackSpec>, plans: Seq<Seq<PlannedClip>>, d: int, t: int, i: int, t2: int, i2: int)
    requires
        first_text_beyond(tracks, plans, d, t, i),
        first_text_beyond(tracks, plans, d, t2, i2),
    ensures
        t == t2 && i == i2,
{
    assert(clip_end(plans[t2][i2]) > d);
    assert(clip_end(plans[t][i]) > d);
}

/// The placement of a track list.
#[derive(Debug, Clone, PartialEq, Eq)]
pub struct MultitrackPlan {
    /// The render-index offset of each track.
    pub render_offsets: Vec<i32>,
    /// The placed clips of each track.
    pub clips: Vec<Vec<PlannedClip>>,
}

/// Places the clips of a checked track list. `media[t]` holds, for each
/// clip of video or audio track `t`, its loaded material (`None` where
/// loading failed); `cues[t]` holds the parsed subtitles of text track `t`
/// (`None` where reading or parsing failed). Video clips play whole from
/// their start; audio clips play from their start until their end or their
/// material's, whichever comes first; subtitle cues play where they say.
/// Some video clip must exist, and no text clip may end after the last video
/// clip.
pub fn plan_multitrack(tracks: &Vec<PipelineTrackSpec>, media: &Vec<Vec<Option<MaterialSummary>>>, cues: &Vec<Option<Vec<SrtCue>>>) -> (r: Result<MultitrackPlan, MultitrackError>)
    requires
        tracks.len() <= i32::MAX,
        inputs_fit(tracks@, media@, cues@),
    ensures
        match r {
            Ok(p) => spec_plan_multitrack(tracks@, media_views(media@), all_cues_views(cues@)) == Ok::<Seq<Seq<PlannedClip>>, MultitrackError>(plan_views(p.clips@))
                && placements_hold(tracks@, media_views(media@), plan_views(p.clips@))
                && cue_placements_hold(tracks@, all_cues_views(cues@), plan_views(p.clips@))
                && p.render_offsets@.len() == tracks@.len()
                && forall|t: int| 0 <= t < tracks@.len() ==> #[trigger] p.render_offsets@[t] == kind_count(tracks@.take(t), tracks@[t].kind),
            Err(e) => spec_plan_multitrack(tracks@, media_views(media@), all_cues_views(cues@)) == Err::<Seq<Seq<PlannedClip>>, MultitrackError>(e),
        },
{
    let ghost mv = media_views(media@);
    let ghost cv = all_cues_views(cues@);
    proof {
        lemma_multitrack_placements(tracks@, mv, cv);
        lemma_multitrack_cue_placements(tracks@, mv, cv);
    }
    let mut plans: Vec<Vec<PlannedClip>> = Vec::new();
    let mut t: usize = 0;
    assert(plan_views(plans@) =~= Seq::<Seq<PlannedClip>>::empty());
    while t < tracks.len()
        invariant
            t <= tracks.len(),
            inputs_fit(tracks@, media@, cues@),
            mv == media_views(media@),
            cv == all_cues_views(cues@),
            spec_plan_tracks(tracks@, mv, cv, t as int) == Ok::<Seq<Seq<PlannedClip>>, MultitrackError>(plan_views(plans@)),
        decreases tracks.len() - t,
    {
        assert(media@[t as int]@ == mv[t as int]);
        assert(cues_view(cues@[t as int]) == cv[t as int]);
        assert(cues_ordered(cues@[t as int]));
        assert(tracks@[t as int].kind != PipelineTrackKind::Text ==> media@[t as int]@.len() == tracks@[t as int].clips@.len());
        match plan_track(t, &tracks[t], &media[t], &cues[t]) {
            Err(e) => {
                proof {
                    lemma_plan_tracks_err_extends(tracks@, mv, cv, t + 1, tracks@.len() as int);
                }
                return Err(e);
            },
            Ok(p) => {
                let ghost before = plan_views(plans@);
                plans.push(p);
                assert(plan_views(plans@) =~= before.push(p@));
            },
        }
        t += 1;
    }
    let ghost pv = plan_views(plans@);
    assert(all_ordered(cv)) by {
        assert forall|q: int| 0 <= q < cv.len() implies cues_seq_ordered(#[trigger] cv[q]) by {
            assert(cues_ordered(cues@[q]));
        }
    }
    assert(spec_plan_tracks(tracks@, mv, cv, tracks@.len() as int) == Ok::<Seq<Seq<PlannedClip>>, MultitrackError>(pv));
    assert(pv.len() == tracks@.len()) by {
        lemma_plan_tracks_len(tracks@, mv, cv, tracks@.len() as int);
    }
    // some video track holds a clip
    let mut found = false;
    let mut v: usize = 0;
    while v < tracks.len()
        invariant
            v <= tracks.len(),
            plans@.len() == tracks@.len(),
            pv == plan_views(plans@),
            pv.len() == tracks@.len(),
            spec_plan_tracks(tracks@, mv, cv, tracks@.len() as int) == Ok::<Seq<Seq<PlannedClip>>, MultitrackError>(pv),
            all_ordered(cv),
            cv.len() == tracks@.len(),
            found ==> exists|q: int| 0 <= q < tracks@.len() && tracks@[q].kind == PipelineTrackKind::Video && #[trigger] pv[q].len() > 0,
            !found ==> forall|q: int| 0 <= q < v ==> !(tracks@[q].kind == PipelineTrackKind::Video && #[trigger] pv[q].len() > 0),
        decreases tracks.len() - v,
    {
        if matches!(tracks[v].kind, PipelineTrackKind::Video) && plans[v].len() > 0 {
            assert(pv[v as int].len() > 0);
            found = true;
        }
        v += 1;
    }
    if !found {
        return Err(MultitrackError::NoVideoClip);
    }
    // the end of the last video clip
    let mut d: u64 = 0;
    let mut a: usize = 0;
    while a < plans.len()
        invariant
            a <= plans.len(),
            plans@.len() == tracks@.len(),
            pv == plan_views(plans@),
            pv.len() == tracks@.len(),
            spec_plan_tracks(tracks@, mv, cv, tracks@.len() as int) == Ok::<Seq<Seq<PlannedClip>>, MultitrackError>(pv),
            all_ordered(cv),
            cv.len() == tracks@.len(),
            forall|q: int, i: int| 0 <= q < a && tracks@[q].kind == PipelineTrackKind::Video && 0 <= i < pv[q].len()
                ==> clip_end(#[trigger] pv[q][i]) <= d,
            d == 0 || video_end_is(tracks@, pv, d as int),
            exists|q: int| 0 <= q < tracks@.len() && tracks@[q].kind == PipelineTrackKind::Video && #[trigger] pv[q].len() > 0,
        decreases plans.len() - a,
    {
        if matches!(tracks[a].kind, PipelineTrackKind::Video) {
            let mut i: usize = 0;
            while i < plans[a].len()
                invariant
                    a < plans.len(),
                    plans@.len() == tracks@.len(),
                    pv == plan_views(plans@),
                    pv.len() == tracks@.len(),
                    spec_plan_tracks(tracks@, mv, cv, tracks@.len() as int) == Ok::<Seq<Seq<PlannedClip>>, MultitrackError>(pv),
                    all_ordered(cv),
                    cv.len() == tracks@.len(),
                    tracks@[a as int].kind == PipelineTrackKind::Video,
                    i <= pv[a as int].len(),
                    forall|q: int, j: int| 0 <= q < a && tracks@[q].kind == PipelineTrackKind::Video && 0 <= j < pv[q].len()
                        ==> clip_end(#[trigger] pv[q][j]) <= d,
                    forall|j: int| 0 <= j < i ==> clip_end(#[trigger] pv[a as int][j]) <= d,
                    d == 0 || video_end_is(tracks@, pv, d as int),
                    exists|q: int| 0 <= q < tracks@.len() && tracks@[q].kind == PipelineTrackKind::Video && #[trigger] pv[q].len() > 0,
                decreases pv[a as int].len() - i,
            {
                let c = plans[a][i];
                assert(c == pv[a as int][i as int]);
                match c.target.start.checked_add(c.target.duration) {
                    Some(e) => {
                        if e > d {
                            d = e;
                            assert(clip_end(pv[a as int][i as int]) == d);
                        }
                    },
                    None => {
                        proof {
                            lemma_plan_ends_bounded(tracks@, mv, cv, tracks@.len() as int, a as int, i as int);
                        }
                    },
                }
                i += 1;
            }
        }
        a += 1;
    }
    proof {
        lemma_video_duration(tracks@, pv, d as int);
    }
    // the first text clip past the video
    let mut a2: usize = 0;
    while a2 < plans.len()
        invariant
            a2 <= plans.len(),
            mv == media_views(media@),
            cv == all_cues_views(cues@),
            plans@.len() == tracks@.len(),
            pv == plan_views(plans@),
            pv.len() == tracks@.len(),
            spec_plan_tracks(tracks@, mv, cv, tracks@.len() as int) == Ok::<Seq<Seq<PlannedClip>>, MultitrackError>(pv),
            all_ordered(cv),
            cv.len() == tracks@.len(),
            forall|q: int, i: int| 0 <= q < a2 && tracks@[q].kind == PipelineTrackKind::Text && 0 <= i < pv[q].len()
                ==> clip_end(#[trigger] pv[q][i]) <= d,
            exists|q: int| 0 <= q < tracks@.len() && tracks@[q].kind == PipelineTrackKind::Video && #[trigger] pv[q].len() > 0,
            video_duration(tracks@, pv) == d,
        decreases plans.len() - a2,
    {
        if matches!(tracks[a2].kind, PipelineTrackKind::Text) {
            let mut i: usize = 0;
            while i < plans[a2].len()
                invariant
                    a2 < plans.len(),
                    mv == media_views(media@),
                    cv == all_cues_views(cues@),
                    plans@.len() == tracks@.len(),
                    pv == plan_views(plans@),
                    pv.len() == tracks@.len(),
                    spec_plan_tracks(tracks@, mv, cv, tracks@.len() as int) == Ok::<Seq<Seq<PlannedClip>>, MultitrackError>(pv),
                    all_ordered(cv),
                    cv.len() == tracks@.len(),
                    tracks@[a2 as int].kind == PipelineTrackKind::Text,
                    i <= pv[a2 as int].len(),
                    forall|q: int, j: int| 0 <= q < a2 && tracks@[q].kind == PipelineTrackKind::Text && 0 <= j < pv[q].len()
                        ==> clip_end(#[trigger] pv[q][j]) <= d,
                    forall|j: int| 0 <= j < i ==> clip_end(#[trigger] pv[a2 as int][j]) <= d,
                    exists|q: int| 0 <= q < tracks@.len() && tracks@[q].kind == PipelineTrackKind::Video && #[trigger] pv[q].len() > 0,
                    video_duration(tracks@, pv) == d,
                decreases pv[a2 as int].len() - i,
            {
                let c = plans[a2][i];
                assert(c == pv[a2 as int][i as int]);
                let beyond = match c.target.start.checked_add(c.target.duration) {
                    Some(e) => e > d,
                    None => true,
                };
                if beyond {
                    assert(clip_end(pv[a2 as int][i as int]) > d);
                    proof {
                        let vd = video_duration(tracks@, pv);
                        assert(vd == d);
                        let w: (int, int) = (a2 as int, i as int);
                        assert(first_text_beyond(tracks@, pv, vd, w.0, w.1));
                        assert(exists|p: (int, int)| first_text_beyond(tracks@, pv, vd, p.0, p.1));
                        let p = choose|p: (int, int)| first_text_beyond(tracks@, pv, vd, p.0, p.1);
                        lemma_first_text_beyond_unique(tracks@, pv, vd, a2 as int, i as int, p.0, p.1);
                        assert(has_text_beyond(tracks@, pv, vd));
                        assert(has_video_clip(tracks@, pv));
                        assert(spec_plan_tracks(tracks@, media_views(media@), all_cues_views(cues@), tracks@.len() as int) == Ok::<Seq<Seq<PlannedClip>>, MultitrackError>(pv));
                        assert(spec_plan_multitrack(tracks@, media_views(media@), all_cues_views(cues@))
                            == Err::<Seq<Seq<PlannedClip>>, MultitrackError>(MultitrackError::TextBeyondVideo(a2, i)));
                    }
                    return Err(MultitrackError::TextBeyondVideo(a2, i));
                }
                i += 1;
            }
        }
        a2 += 1;
    }
    assert(!exists|q: int, i: int| #[trigger] first_text_beyond(tracks@, pv, video_duration(tracks@, pv), q, i)) by {
        assert(video_duration(tracks@, pv) == d);
        assert forall|q: int, i: int| !#[trigger] first_text_beyond(tracks@, pv, video_duration(tracks@, pv), q, i) by {
            if first_text_beyond(tracks@, pv, video_duration(tracks@, pv), q, i) {
                assert(clip_end(pv[q][i]) <= d);
            }
        }
    }
    assert(mv == media_views(media@) && cv == all_cues_views(cues@));
    assert(spec_plan_tracks(tracks@, media_views(media@), all_cues_views(cues@), tracks@.len() as int) == Ok::<Seq<Seq<PlannedClip>>, MultitrackError>(pv));
    assert(video_duration(tracks@, pv) == d);
    assert(spec_plan_multitrack(tracks@, media_views(media@), all_cues_views(cues@)) == Ok::<Seq<Seq<PlannedClip>>, MultitrackError>(pv));
    let offsets = render_offsets(tracks);
    Ok(MultitrackPlan { render_offsets: offsets, clips: plans })
}

proof fn lemma_plan_tracks_len(tracks: Seq<PipelineTrackSpec>, media: Seq<Seq<Option<MaterialSummary>>>, cues: Seq<Option<Seq<SrtCue>>>, n: int)
    requires
        n >= 0,
    ensures
        spec_plan_tracks(tracks, media, cues, n) matches Ok(p) ==> p.len() == n,
    decreases n,
{
    if n > 0 {
        lemma_plan_tracks_len(tracks, media, cues, n - 1);
    }
}

proof fn lemma_plan_clips_bounded(kind: PipelineTrackKind, t: usize, clips: Seq<PipelineClipSpec>, media: Seq<Option<MaterialSummary>>)
    ensures
        spec_plan_clips(kind, t, clips, media) matches Ok(p) ==> forall|i: int| 0 <= i < p.len() ==> clip_end(#[trigger] p[i]) <= u64::MAX,
    decreases clips.len(),
{
    if clips.len() > 0 {
        lemma_plan_clips_bounded(kind, t, clips.drop_last(), media);
        if let Ok(p) = spec_plan_clips(kind, t, clips, media) {
            let p0 = spec_plan_clips(kind, t, clips.drop_last(), media)->Ok_0;
            assert forall|i: int| 0 <= i < p.len() implies clip_end(#[trigger] p[i]) <= u64::MAX by {
                if i < p0.len() {
                    assert(p[i] == p0[i]);
                }
            }
        }
    }
}

proof fn lemma_plan_cues_bounded(t: usize, cues: Seq<SrtCue>)
    requires
        forall|i: int| 0 <= i < cues.len() ==> (#[trigger] cues[i]).start_ms <= cues[i].end_ms,
    ensures
        spec_plan_cues(t, cues) matches Ok(p) ==> forall|i: int| 0 <= i < p.len() ==> clip_end(#[trigger] p[i]) <= u64::MAX,
    decreases cues.len(),
{
    if cues.len() > 0 {
        assert forall|i: int| 0 <= i < cues.drop_last().len() implies (#[trigger] cues.drop_last()[i]).start_ms <= cues.drop_last()[i].end_ms by {
            assert(cues.drop_last()[i] == cues[i]);
        }
        lemma_plan_cues_bounded(t, cues.drop_last());
        assert(cues.last() == cues[cues.len() - 1]);
        if let Ok(p) = spec_plan_cues(t, cues) {
            let p0 = spec_plan_cues(t, cues.drop_last())->Ok_0;
            assert forall|i: int| 0 <= i < p.len() implies clip_end(#[trigger] p[i]) <= u64::MAX by {
                if i < p0.len() {
                    assert(p[i] == p0[i]);
                }
            }
        }
    }
}

proof fn lemma_plan_ends_bounded(tracks: Seq<PipelineTrackSpec>, media: Seq<Seq<Option<MaterialSummary>>>, cues: Seq<Option<Seq<SrtCue>>>, n: int, a: int, i: int)
    requires
        0 <= a < n,
        all_ordered(cues),
        n <= cues.len(),
        spec_plan_tracks(tracks, media, cues, n) matches Ok(p) && 0 <= i < p[a].len(),
    ensures
        spec_plan_tracks(tracks, media, cues, n) matches Ok(p) && clip_end(p[a][i]) <= u64::MAX,
    decreases n,
{
    let p = spec_plan_tracks(tracks, media, cues, n)->Ok_0;
    let p0 = spec_plan_tracks(tracks, media, cues, n - 1)->Ok_0;
    lemma_plan_tracks_len(tracks, media, cues, n - 1);
    if a < n - 1 {
        assert(p[a] == p0[a]);
        lemma_plan_ends_bounded(tracks, media, cues, n - 1, a, i);
    } else {
        let tr = tracks[n - 1];
        lemma_plan_clips_bounded(tr.kind, (n - 1) as usize, tr.clips@, media[n - 1]);
        if let Some(cs) = cues[n - 1] {
            assert(cues_seq_ordered(cues[n - 1]));
            lemma_plan_cues_bounded((n - 1) as usize, cs);
        }
    }
}


/// Where a video or audio clip is placed, given its material `m`: it starts
/// where the manifest says. A video clip plays its whole material. An audio
/// clip plays its material from the material's own beginning, for as long
/// as the clip lasts or the material does, whichever is shorter.
pub open spec fn placement_law(kind: PipelineTrackKind, clip: PipelineClipSpec, m: Option<MaterialSummary>, p: PlannedClip) -> bool {
    &&& clip.start is NonNegative
    &&& p.target.start == clip.start->NonNegative_0
    &&& m is Some
    &&& if kind == PipelineTrackKind::Audio {
        &&& p.source == Some(TimeRange { start: 0, duration: p.target.duration })
        &&& clip.end matches Some(e) && e is NonNegative
        &&& p.target.duration > 0
        &&& p.target.duration <= m->Some_0.duration
        &&& p.target.start + p.target.duration <= (clip.end->Some_0)->NonNegative_0
        &&& (p.target.duration == m->Some_0.duration || p.target.start + p.target.duration == (clip.end->Some_0)->NonNegative_0)
    } else {
        &&& p.source is None
        &&& p.target.duration == m->Some_0.duration
        &&& m->Some_0.kind == MaterialKind::Video
    }
}

/// Every clip of the video and audio tracks of a plan is placed by
/// [`placement_law`].
pub open spec fn placements_hold(tracks: Seq<PipelineTrackSpec>, media: Seq<Seq<Option<MaterialSummary>>>, plans: Seq<Seq<PlannedClip>>) -> bool {
    forall|t: int, i: int| 0 <= t < plans.len() && tracks[t].kind != PipelineTrackKind::Text && 0 <= i < plans[t].len()
        ==> #[trigger] clip_placed(tracks, media, plans, t, i)
}

/// Clip `i` of track `t` has a manifest entry and is placed by
/// [`placement_law`].
pub open spec fn clip_placed(tracks: Seq<PipelineTrackSpec>, media: Seq<Seq<Option<MaterialSummary>>>, plans: Seq<Seq<PlannedClip>>, t: int, i: int) -> bool {
    i < tracks[t].clips@.len() && placement_law(tracks[t].kind, tracks[t].clips@[i], media[t][i], plans[t][i])
}

proof fn lemma_plan_clip_law(kind: PipelineTrackKind, t: usize, c: usize, clip: PipelineClipSpec, m: Option<MaterialSummary>)
    requires
        kind != PipelineTrackKind::Text,
    ensures
        spec_plan_clip(kind, t, c, clip, m) matches Ok(p) ==> placement_law(kind, clip, m, p),
{
}

proof fn lemma_plan_clips_law(kind: PipelineTrackKind, t: usize, clips: Seq<PipelineClipSpec>, media: Seq<Option<MaterialSummary>>)
    requires
        kind != PipelineTrackKind::Text,
    ensures
        spec_plan_clips(kind, t, clips, media) matches Ok(ps) ==> ps.len() == clips.len()
            && forall|i: int| 0 <= i < ps.len() ==> placement_law(kind, clips[i], media[i], #[trigger] ps[i]),
    decreases clips.len(),
{
    if clips.len() > 0 {
        lemma_plan_clips_law(kind, t, clips.drop_last(), media);
        lemma_plan_clip_law(kind, t, (clips.len() - 1) as usize, clips.last(), media[clips.len() - 1]);
        if let Ok(ps) = spec_plan_clips(kind, t, clips, media) {
            let done = spec_plan_clips(kind, t, clips.drop_last(), media)->Ok_0;
            assert forall|i: int| 0 <= i < ps.len() implies placement_law(kind, clips[i], media[i], #[trigger] ps[i]) by {
                if i < done.len() {
                    assert(ps[i] == done[i]);
                    assert(clips[i] == clips.drop_last()[i]);
                }
            }
        }
    }
}

proof fn lemma_plan_tracks_law(tracks: Seq<PipelineTrackSpec>, media: Seq<Seq<Option<MaterialSummary>>>, cues: Seq<Option<Seq<SrtCue>>>, n: int)
    requires
        n <= tracks.len(),
    ensures
        spec_plan_tracks(tracks, media, cues, n) matches Ok(plans) ==> plans.len() == (if n > 0 { n } else { 0 })
            && placements_hold(tracks, media, plans),
    decreases n,
{
    if n > 0 {
        lemma_plan_tracks_law(tracks, media, cues, n - 1);
        let k = n - 1;
        if tracks[k].kind != PipelineTrackKind::Text {
            lemma_plan_clips_law(tracks[k].kind, k as usize, tracks[k].clips@, media[k]);
        }
        if let Ok(plans) = spec_plan_tracks(tracks, media, cues, n) {
            let done = spec_plan_tracks(tracks, media, cues, n - 1)->Ok_0;
            let last = spec_plan_track(k as usize, tracks[k], media[k], cues[k])->Ok_0;
            assert(plans == done.push(last));
            assert forall|t: int, i: int| 0 <= t < plans.len() && tracks[t].kind != PipelineTrackKind::Text && 0 <= i < plans[t].len()
                implies #[trigger] clip_placed(tracks, media, plans, t, i) by {
                if t < done.len() {
                    assert(plans[t] == done[t]);
                    assert(clip_placed(tracks, media, done, t, i));
                } else {
                    assert(t == k);
                    assert(plans[t] == last);
                    assert(last == spec_plan_clips(tracks[k].kind, k as usize, tracks[k].clips@, media[k])->Ok_0);
                    assert(plans[t][i] == last[i]);
                }
            }
            assert(plans.len() == n);
            assert(placements_hold(tracks, media, plans));
        }
    }
}

/// Cue `i` of a subtitle track plays exactly when the subtitle file says:
/// from its start to its end, in microseconds.
pub open spec fn cue_placed(cues: Option<Seq<SrtCue>>, p: PlannedClip, i: int) -> bool {
    &&& cues is Some
    &&& 0 <= i < cues->Some_0.len()
    &&& p.target.start == cues->Some_0[i].start_ms * 1000
    &&& p.target.start + p.target.duration == cues->Some_0[i].end_ms * 1000
    &&& p.source is None
}

/// Every cue of every subtitle track of a plan is placed by [`cue_placed`].
pub open spec fn cue_placements_hold(tracks: Seq<PipelineTrackSpec>, cues: Seq<Option<Seq<SrtCue>>>, plans: Seq<Seq<PlannedClip>>) -> bool {
    forall|t: int, i: int| 0 <= t < plans.len() && tracks[t].kind == PipelineTrackKind::Text && 0 <= i < plans[t].len()
        ==> #[trigger] cue_placed(cues[t], plans[t][i], i)
}

proof fn lemma_plan_cues_law(t: usize, cues: Seq<SrtCue>)
    requires
        forall|i: int| 0 <= i < cues.len() ==> (#[trigger] cues[i]).start_ms <= cues[i].end_ms,
    ensures
        spec_plan_cues(t, cues) matches Ok(ps) ==> ps.len() == cues.len()
            && forall|i: int| 0 <= i < ps.len() ==> #[trigger] cue_placed(Some(cues), ps[i], i),
    decreases cues.len(),
{
    if cues.len() > 0 {
        assert forall|i: int| 0 <= i < cues.drop_last().len() implies (#[trigger] cues.drop_last()[i]).start_ms <= cues.drop_last()[i].end_ms by {
            assert(cues.drop_last()[i] == cues[i]);
            assert(cues[i].start_ms <= cues[i].end_ms);
        }
        lemma_plan_cues_law(t, cues.drop_last());
        if let Ok(ps) = spec_plan_cues(t, cues) {
            let done = spec_plan_cues(t, cues.drop_last())->Ok_0;
            let last = spec_plan_cue(t, (cues.len() - 1) as usize, cues.last())->Ok_0;
            assert(ps == done.push(last));
            assert(cues[cues.len() - 1].start_ms <= cues[cues.len() - 1].end_ms);
            assert forall|i: int| 0 <= i < ps.len() implies #[trigger] cue_placed(Some(cues), ps[i], i) by {
                if i < done.len() {
                    assert(cue_placed(Some(cues.drop_last()), done[i], i));
                    assert(ps[i] == done[i]);
                    assert(cues[i] == cues.drop_last()[i]);
                } else {
                    assert(ps[i] == last);
                    assert(cues[i] == cues.last());
                }
            }
        }
    }
}

proof fn lemma_plan_tracks_cue_law(tracks: Seq<PipelineTrackSpec>, media: Seq<Seq<Option<MaterialSummary>>>, cues: Seq<Option<Seq<SrtCue>>>, n: int)
    requires
        n <= tracks.len(),
        n <= cues.len(),
        all_ordered(cues),
    ensures
        spec_plan_tracks(tracks, media, cues, n) matches Ok(plans) ==> plans.len() == (if n > 0 { n } else { 0 })
            && cue_placements_hold(tracks, cues, plans),
    decreases n,
{
    if n > 0 {
        lemma_plan_tracks_cue_law(tracks, media, cues, n - 1);
        let k = n - 1;
        if tracks[k].kind == PipelineTrackKind::Text && cues[k] is Some {
            assert(cues_seq_ordered(cues[k]));
            let cs = cues[k]->Some_0;
            assert forall|i: int| 0 <= i < cs.len() implies (#[trigger] cs[i]).start_ms <= cs[i].end_ms by {
                assert(cues_seq_ordered(cues[k]));
            }
            lemma_plan_cues_law(k as usize, cs);
        }
        if let Ok(plans) = spec_plan_tracks(tracks, media, cues, n) {
            let done = spec_plan_tracks(tracks, media, cues, n - 1)->Ok_0;
            let last = spec_plan_track(k as usize, tracks[k], media[k], cues[k])->Ok_0;
            assert(plans == done.push(last));
            assert forall|t: int, i: int| 0 <= t < plans.len() && tracks[t].kind == PipelineTrackKind::Text && 0 <= i < plans[t].len()
                implies #[trigger] cue_placed(cues[t], plans[t][i], i) by {
                if t < done.len() {
                    assert(plans[t] == done[t]);
                    assert(cue_placed(cues[t], done[t][i], i));
                } else {
                    assert(t == k);
                    assert(plans[t] == last);
                    assert(plans[t][i] == last[i]);
                }
            }
        }
    }
}

/// In a multitrack plan every subtitle cue plays from its start to its end
/// as the subtitle file gives them (cues end no earlier than they start, as
/// the subtitle parser guarantees).
pub proof fn lemma_multitrack_cue_placements(tracks: Seq<PipelineTrackSpec>, media: Seq<Seq<Option<MaterialSummary>>>, cues: Seq<Option<Seq<SrtCue>>>)
    requires
        cues.len() == tracks.len(),
        all_ordered(cues),
    ensures
        spec_plan_multitrack(tracks, media, cues) matches Ok(plans) ==> cue_placements_hold(tracks, cues, plans),
{
    lemma_plan_tracks_cue_law(tracks, media, cues, tracks.len() as int);
}

/// In a multitrack plan every video clip plays its whole material from
/// where the manifest starts it, and every audio clip starts where the
/// manifest says and plays its material from the material's own beginning,
/// for the shorter of the clip's span and the material.
pub proof fn lemma_multitrack_placements(tracks: Seq<PipelineTrackSpec>, media: Seq<Seq<Option<MaterialSummary>>>, cues: Seq<Option<Seq<SrtCue>>>)
    ensures
        spec_plan_multitrack(tracks, media, cues) matches Ok(plans) ==> placements_hold(tracks, media, plans),
{
    lemma_plan_tracks_law(tracks, media, cues, tracks.len() as int);
}

} // verus!
