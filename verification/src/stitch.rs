//! Placing the clips of the bundles that stitch videos end to end: the
//! `simple_timeline_package` and the fixed layout of a `pipeline_package`.
//!
//! The materials are probed first; the placement takes what the probes
//! found (`None` where a material could not be loaded) and reports the first
//! problem in the order the clips are placed.

use vstd::prelude::*;
use crate::model::{MaterialKind, TimeRange};
use crate::pipeline::{Real, SimpleSubtitleStyle, spec_check_style, validate_simple_subtitle_style, PipelineErrorView};
use crate::srt::SrtCue;

verus! {

/// A loaded material as placement needs it.
#[derive(Debug, Clone, Copy, PartialEq, Eq)]
pub struct MaterialSummary {
    pub kind: MaterialKind,
    /// Duration in microseconds.
    pub duration: u64,
}

/// Why videos could not be stitched. Video numbers count from 0.
#[derive(Debug, Clone, Copy, PartialEq, Eq)]
pub enum StitchError {
    /// The video could not be loaded as a video material.
    LoadFailed(usize),
    /// The material is an image, not a video.
    NotVideo(usize),
    /// The video lasts no time.
    ZeroDuration(usize),
    /// The stitched video would outlast what 64 bits of microseconds hold.
    Overflow,
}

/// `seg` places a loaded video material for as long as it lasts.
pub open spec fn seg_of(seg: TimeRange, m: Option<MaterialSummary>) -> bool {
    m matches Some(v) && seg.duration == v.duration && v.kind == MaterialKind::Video && v.duration > 0
}

/// Where the next stitched video starts: after the last one placed.
pub open spec fn stitched_end(segs: Seq<TimeRange>) -> int {
    if segs.len() == 0 { 0 } else { segs.last().start + segs.last().duration }
}

/// The videos placed end to end from 0, in order; the first problem found
/// in that order otherwise.
pub open spec fn spec_stitch(m: Seq<Option<MaterialSummary>>) -> Result<Seq<TimeRange>, StitchError>
    decreases m.len(),
{
    if m.len() == 0 {
        Ok(Seq::empty())
    } else {
        match spec_stitch(m.drop_last()) {
            Err(e) => Err(e),
            Ok(segs) => {
                let i = (m.len() - 1) as usize;
                match m.last() {
                    None => Err(StitchError::LoadFailed(i)),
                    Some(v) => if v.kind != MaterialKind::Video {
                        Err(StitchError::NotVideo(i))
                    } else if v.duration == 0 {
                        Err(StitchError::ZeroDuration(i))
                    } else if stitched_end(segs) + v.duration > u64::MAX {
                        Err(StitchError::Overflow)
                    } else {
                        Ok(segs.push(TimeRange { start: stitched_end(segs) as u64, duration: v.duration }))
                    },
                }
            },
        }
    }
}

proof fn lemma_stitch_err_extends(m: Seq<Option<MaterialSummary>>, n: int)
    requires
        0 <= n <= m.len(),
        spec_stitch(m.take(n)) is Err,
    ensures
        spec_stitch(m) == spec_stitch(m.take(n)),
    decreases m.len() - n,
{
    if n < m.len() {
        assert(m.take(n + 1).drop_last() =~= m.take(n));
        lemma_stitch_err_extends(m, n + 1);
    } else {
        assert(m.take(n) =~= m);
    }
}

/// Places videos end to end from 0, in order: each must have loaded, be a
/// video (not an image) and last some time, and the total must fit in 64
/// bits of microseconds. Returns each video's place.
pub fn stitch_videos(materials: &Vec<Option<MaterialSummary>>) -> (r: Result<Vec<TimeRange>, StitchError>)
    ensures
        match r {
            Ok(v) => spec_stitch(materials@) == Ok::<Seq<TimeRange>, StitchError>(v@),
            Err(e) => spec_stitch(materials@) == Err::<Seq<TimeRange>, StitchError>(e),
        },
        r matches Ok(v) ==> {
            &&& v@.len() == materials@.len()
            &&& v@.len() > 0 ==> v@[0].start == 0
            &&& forall|i: int| 0 <= i < v@.len() ==> seg_of(#[trigger] v@[i], materials@[i])
            &&& forall|i: int| 0 < i < v@.len() ==> (#[trigger] v@[i]).start == v@[i - 1].start + v@[i - 1].duration
        },
{
    let mut segs: Vec<TimeRange> = Vec::new();
    let mut cursor: u64 = 0;
    let mut i: usize = 0;
    assert(materials@.take(0) =~= Seq::<Option<MaterialSummary>>::empty());
    while i < materials.len()
        invariant
            i <= materials.len(),
            spec_stitch(materials@.take(i as int)) == Ok::<Seq<TimeRange>, StitchError>(segs@),
            cursor == stitched_end(segs@),
            segs@.len() == i,
            segs@.len() > 0 ==> segs@[0].start == 0,
            forall|q: int| 0 <= q < segs@.len() ==> seg_of(#[trigger] segs@[q], materials@[q]),
            forall|q: int| 0 < q < segs@.len() ==> (#[trigger] segs@[q]).start == segs@[q - 1].start + segs@[q - 1].duration,
        decreases materials.len() - i,
    {
        assert(materials@.take(i + 1).drop_last() =~= materials@.take(i as int));
        assert(materials@.take(i + 1).last() == materials@[i as int]);
        let err = match materials[i] {
            None => Some(StitchError::LoadFailed(i)),
            Some(v) => if !matches!(v.kind, MaterialKind::Video) {
                Some(StitchError::NotVideo(i))
            } else if v.duration == 0 {
                Some(StitchError::ZeroDuration(i))
            } else {
                match cursor.checked_add(v.duration) {
                    None => Some(StitchError::Overflow),
                    Some(end) => {
                        let ghost before = segs@;
                        segs.push(TimeRange { start: cursor, duration: v.duration });
                        assert(seg_of(segs@[i as int], materials@[i as int]));
                        assert(forall|q: int| 0 <= q < before.len() ==> segs@[q] == before[q]);
                        cursor = end;
                        None
                    },
                }
            },
        };
        if let Some(e) = err {
            proof {
                lemma_stitch_err_extends(materials@, i + 1);
            }
            return Err(e);
        }
        i += 1;
    }
    assert(materials@.take(i as int) =~= materials@);
    Ok(segs)
}

/// Why the fixed layout of a pipeline bundle could not place its narration.
/// Cue numbers count from 0.
#[derive(Debug, Clone, Copy, PartialEq, Eq)]
pub enum NarrationError {
    /// The cue's start, in microseconds, does not fit in 64 bits.
    StartTooLarge(usize),
    /// The cue's end, in microseconds, does not fit in 64 bits.
    EndTooLarge(usize),
    /// The cue ends after the stitched video.
    CueBeyondVideo(usize),
    /// The cue's narration could not be loaded as an audio material.
    NarrationUnavailable(usize),
    /// The cue's narration lasts no time.
    NarrationZero(usize),
}

/// A subtitle cue with its narration: the narration plays from the cue's
/// start for as long as both last; the text shows for the whole cue.
#[derive(Debug, Clone, Copy, PartialEq, Eq)]
pub struct NarratedCue {
    pub audio: TimeRange,
    pub text: TimeRange,
}

/// The placement of cue `i` and its narration.
pub open spec fn spec_narrate_cue(i: usize, cue: SrtCue, narration: Option<u64>, total: u64) -> Result<NarratedCue, NarrationError> {
    let start = cue.start_ms * 1000;
    let end = cue.end_ms * 1000;
    if start > u64::MAX {
        Err(NarrationError::StartTooLarge(i))
    } else if end > u64::MAX {
        Err(NarrationError::EndTooLarge(i))
    } else if end > total {
        Err(NarrationError::CueBeyondVideo(i))
    } else {
        match narration {
            None => Err(NarrationError::NarrationUnavailable(i)),
            Some(d) => {
                let len = end - start;
                let audio = if d < len { d as int } else { len };
                if audio == 0 {
                    Err(NarrationError::NarrationZero(i))
                } else {
                    Ok(NarratedCue {
                        audio: TimeRange { start: start as u64, duration: audio as u64 },
                        text: TimeRange { start: start as u64, duration: len as u64 },
                    })
                }
            },
        }
    }
}

/// The placements of the cues, in order; the first problem otherwise.
pub open spec fn spec_narrate(cues: Seq<SrtCue>, narrations: Seq<Option<u64>>, total: u64) -> Result<Seq<NarratedCue>, NarrationError>
    decreases cues.len(),
{
    if cues.len() == 0 {
        Ok(Seq::empty())
    } else {
        match spec_narrate(cues.drop_last(), narrations, total) {
            Err(e) => Err(e),
            Ok(done) => match spec_narrate_cue((cues.len() - 1) as usize, cues.last(), narrations[cues.len() - 1], total) {
                Err(e) => Err(e),
                Ok(n) => Ok(done.push(n)),
            },
        }
    }
}

proof fn lemma_narrate_err_extends(cues: Seq<SrtCue>, narrations: Seq<Option<u64>>, total: u64, n: int)
    requires
        0 <= n <= cues.len(),
        spec_narrate(cues.take(n), narrations, total) is Err,
    ensures
        spec_narrate(cues, narrations, total) == spec_narrate(cues.take(n), narrations, total),
    decreases cues.len() - n,
{
    if n < cues.len() {
        assert(cues.take(n + 1).drop_last() =~= cues.take(n));
        lemma_narrate_err_extends(cues, narrations, total, n + 1);
    } else {
        assert(cues.take(n) =~= cues);
    }
}

/// Places each subtitle cue of the fixed pipeline layout with its narration
/// (`narrations[i]` is the duration of the narration of cue `i`, `None` when
/// it could not be loaded) over a stitched video of `total` microseconds:
/// every cue must end within the video, and the narration plays from the
/// cue's start for as long as both the narration and the cue last.
pub fn narrate_cues(cues: &Vec<SrtCue>, narrations: &Vec<Option<u64>>, total: u64) -> (r: Result<Vec<NarratedCue>, NarrationError>)
    requires
        narrations.len() == cues.len(),
        forall|i: int| 0 <= i < cues.len() ==> (#[trigger] cues@[i]).start_ms < cues@[i].end_ms,
    ensures
        match r {
            Ok(v) => spec_narrate(cues@, narrations@, total) == Ok::<Seq<NarratedCue>, NarrationError>(v@),
            Err(e) => spec_narrate(cues@, narrations@, total) == Err::<Seq<NarratedCue>, NarrationError>(e),
        },
        r matches Ok(v) ==> {
            &&& v@.len() == cues@.len()
            &&& forall|i: int| 0 <= i < v@.len() ==> {
                &&& (#[trigger] v@[i]).audio.start == v@[i].text.start
                &&& v@[i].text.start == cues@[i].start_ms * 1000
                &&& v@[i].text.start + v@[i].text.duration == cues@[i].end_ms * 1000
                &&& 0 < v@[i].audio.duration <= v@[i].text.duration
                &&& (narrations@[i] matches Some(d) && v@[i].audio.duration <= d)
                &&& v@[i].text.start + v@[i].text.duration <= total
            }
        },
{
    let mut out: Vec<NarratedCue> = Vec::new();
    let mut i: usize = 0;
    assert(cues@.take(0) =~= Seq::<SrtCue>::empty());
    while i < cues.len()
        invariant
            i <= cues.len(),
            narrations.len() == cues.len(),
            forall|q: int| 0 <= q < cues.len() ==> (#[trigger] cues@[q]).start_ms < cues@[q].end_ms,
            spec_narrate(cues@.take(i as int), narrations@, total) == Ok::<Seq<NarratedCue>, NarrationError>(out@),
            out@.len() == i,
            forall|q: int| 0 <= q < out@.len() ==> {
                &&& (#[trigger] out@[q]).audio.start == out@[q].text.start
                &&& out@[q].text.start == cues@[q].start_ms * 1000
                &&& out@[q].text.start + out@[q].text.duration == cues@[q].end_ms * 1000
                &&& 0 < out@[q].audio.duration <= out@[q].text.duration
                &&& (narrations@[q] matches Some(d) && out@[q].audio.duration <= d)
                &&& out@[q].text.start + out@[q].text.duration <= total
            },
        decreases cues.len() - i,
    {
        assert(cues@.take(i + 1).drop_last() =~= cues@.take(i as int));
        assert(cues@.take(i + 1).last() == cues@[i as int]);
        let cue = &cues[i];
        assert(cue.start_ms < cue.end_ms);
        let step: Result<NarratedCue, NarrationError> = if cue.start_ms > 18_446_744_073_709_551u128 {
            Err(NarrationError::StartTooLarge(i))
        } else if cue.end_ms > 18_446_744_073_709_551u128 {
            Err(NarrationError::EndTooLarge(i))
        } else {
            let start = (cue.start_ms * 1000) as u64;
            let end = (cue.end_ms * 1000) as u64;
            if end > total {
                Err(NarrationError::CueBeyondVideo(i))
            } else {
                match narrations[i] {
                    None => Err(NarrationError::NarrationUnavailable(i)),
                    Some(d) => {
                        let len = end - start;
                        let audio = if d < len { d } else { len };
                        if audio == 0 {
                            Err(NarrationError::NarrationZero(i))
                        } else {
                            Ok(NarratedCue {
                                audio: TimeRange { start, duration: audio },
                                text: TimeRange { start, duration: len },
                            })
                        }
                    },
                }
            }
        };
        match step {
            Err(e) => {
                proof {
                    lemma_narrate_err_extends(cues@, narrations@, total, i + 1);
                }
                return Err(e);
            },
            Ok(n) => {
                out.push(n);
            },
        }
        i += 1;
    }
    assert(cues@.take(i as int) =~= cues@);
    Ok(out)
}

/// A subtitle cue of a simple timeline bundle, in seconds.
#[derive(Debug, Clone, Copy, PartialEq, Eq)]
pub struct SimpleCue {
    pub start: Real,
    pub end: Real,
}

/// Why a simple timeline bundle was refused. Numbers count from 0.
#[derive(Debug, Clone, Copy, PartialEq, Eq)]
pub enum SimpleTimelineError {
    /// The bundle lists no video.
    NoVideos,
    /// The subtitle style is out of range.
    Style(StyleError),
    /// The cue's start is negative or not finite.
    CueStart(usize),
    /// The cue's end is negative or not finite.
    CueEnd(usize),
    /// The cue does not end after it starts.
    CueEndNotAfterStart(usize),
    /// The cue ends after the stitched video.
    CueBeyondVideo(usize),
    /// The videos could not be stitched.
    Stitch(StitchError),
}

/// Which part of a subtitle style is out of range.
#[derive(Debug, Clone, Copy, PartialEq, Eq)]
pub enum StyleError {
    FontSize,
    PositionX,
    PositionY,
}

/// The style check's failure as a style error.
pub open spec fn style_error(e: PipelineErrorView) -> StyleError {
    match e {
        PipelineErrorView::FontSize => StyleError::FontSize,
        PipelineErrorView::PositionX => StyleError::PositionX,
        _ => StyleError::PositionY,
    }
}

/// The check of one cue: both ends finite and not negative, the end after
/// the start.
pub open spec fn spec_check_cue(i: usize, c: SimpleCue) -> Result<(), SimpleTimelineError> {
    match (c.start, c.end) {
        (Real::NonNegative(s), Real::NonNegative(e)) => if e <= s {
            Err(SimpleTimelineError::CueEndNotAfterStart(i))
        } else {
            Ok(())
        },
        (Real::NonNegative(_), _) => Err(SimpleTimelineError::CueEnd(i)),
        _ => Err(SimpleTimelineError::CueStart(i)),
    }
}

/// The first cue, in order, that fails its check.
pub open spec fn spec_check_cues(cues: Seq<SimpleCue>) -> Result<(), SimpleTimelineError>
    decreases cues.len(),
{
    if cues.len() == 0 {
        Ok(())
    } else {
        match spec_check_cues(cues.drop_last()) {
            Err(e) => Err(e),
            Ok(_) => spec_check_cue((cues.len() - 1) as usize, cues.last()),
        }
    }
}

/// The check of a simple timeline before anything is loaded: at least one
/// video, a valid subtitle style, and valid cues.
pub open spec fn spec_check_simple_timeline(video_count: nat, style: SimpleSubtitleStyle, cues: Seq<SimpleCue>) -> Result<(), SimpleTimelineError> {
    if video_count == 0 {
        Err(SimpleTimelineError::NoVideos)
    } else {
        match spec_check_style(style) {
            Err(e) => Err(SimpleTimelineError::Style(style_error(e))),
            Ok(_) => spec_check_cues(cues),
        }
    }
}

proof fn lemma_check_cues_err_extends(cues: Seq<SimpleCue>, n: int)
    requires
        0 <= n <= cues.len(),
        spec_check_cues(cues.take(n)) is Err,
    ensures
        spec_check_cues(cues) == spec_check_cues(cues.take(n)),
    decreases cues.len() - n,
{
    if n < cues.len() {
        assert(cues.take(n + 1).drop_last() =~= cues.take(n));
        lemma_check_cues_err_extends(cues, n + 1);
    } else {
        assert(cues.take(n) =~= cues);
    }
}

fn check_cue(i: usize, c: SimpleCue) -> (r: Result<(), SimpleTimelineError>)
    ensures
        r == spec_check_cue(i, c),
{
    match (c.start, c.end) {
        (Real::NonNegative(s), Real::NonNegative(e)) => if e <= s {
            Err(SimpleTimelineError::CueEndNotAfterStart(i))
        } else {
            Ok(())
        },
        (Real::NonNegative(_), _) => Err(SimpleTimelineError::CueEnd(i)),
        _ => Err(SimpleTimelineError::CueStart(i)),
    }
}

/// Checks a simple timeline before its videos are loaded: it must list at
/// least one video, its subtitle style must be in range, and every cue must
/// have a finite, non-negative start and an end after it.
pub fn validate_simple_timeline(video_count: usize, style: &SimpleSubtitleStyle, cues: &Vec<SimpleCue>) -> (r: Result<(), SimpleTimelineError>)
    ensures
        r == spec_check_simple_timeline(video_count as nat, *style, cues@),
{
    if video_count == 0 {
        return Err(SimpleTimelineError::NoVideos);
    }
    match validate_simple_subtitle_style(style) {
        Err(crate::pipeline::PipelineError::FontSize) => return Err(SimpleTimelineError::Style(StyleError::FontSize)),
        Err(crate::pipeline::PipelineError::PositionX) => return Err(SimpleTimelineError::Style(StyleError::PositionX)),
        Err(_) => return Err(SimpleTimelineError::Style(StyleError::PositionY)),
        Ok(()) => {},
    }
    let mut i: usize = 0;
    assert(cues@.take(0) =~= Seq::<SimpleCue>::empty());
    while i < cues.len()
        invariant
            i <= cues.len(),
            video_count > 0,
            spec_check_style(*style) is Ok,
            spec_check_cues(cues@.take(i as int)) == Ok::<(), SimpleTimelineError>(()),
        decreases cues.len() - i,
    {
        assert(cues@.take(i + 1).drop_last() =~= cues@.take(i as int));
        assert(cues@.take(i + 1).last() == cues@[i as int]);
        let r = check_cue(i, cues[i]);
        if r.is_err() {
            proof {
                lemma_check_cues_err_extends(cues@, i + 1);
            }
            return r;
        }
        i += 1;
    }
    assert(cues@.take(i as int) =~= cues@);
    Ok(())
}

/// The places of the videos and subtitles of a simple timeline.
#[derive(Debug, Clone, PartialEq, Eq)]
pub struct SimplePlan {
    pub videos: Vec<TimeRange>,
    pub subtitles: Vec<TimeRange>,
}

/// The place of cue `i` over a stitched video of `total` microseconds.
pub open spec fn spec_place_cue(i: usize, c: SimpleCue, total: int) -> Result<TimeRange, SimpleTimelineError> {
    match spec_check_cue(i, c) {
        Err(e) => Err(e),
        Ok(_) => {
            let s = c.start->NonNegative_0;
            let e = c.end->NonNegative_0;
            if e > total {
                Err(SimpleTimelineError::CueBeyondVideo(i))
            } else {
                Ok(TimeRange { start: s, duration: (e - s) as u64 })
            }
        },
    }
}

/// The places of the cues, in order; the first problem otherwise.
pub open spec fn spec_place_cues(cues: Seq<SimpleCue>, total: int) -> Result<Seq<TimeRange>, SimpleTimelineError>
    decreases cues.len(),
{
    if cues.len() == 0 {
        Ok(Seq::empty())
    } else {
        match spec_place_cues(cues.drop_last(), total) {
            Err(e) => Err(e),
            Ok(done) => match spec_place_cue((cues.len() - 1) as usize, cues.last(), total) {
                Err(e) => Err(e),
                Ok(p) => Ok(done.push(p)),
            },
        }
    }
}

/// The simple timeline's plan: the videos stitched end to end, then each
/// cue placed where it says, within the stitched video.
pub open spec fn spec_plan_simple(videos: Seq<Option<MaterialSummary>>, cues: Seq<SimpleCue>) -> Result<(Seq<TimeRange>, Seq<TimeRange>), SimpleTimelineError> {
    match spec_stitch(videos) {
        Err(e) => Err(SimpleTimelineError::Stitch(e)),
        Ok(segs) => match spec_place_cues(cues, stitched_end(segs)) {
            Err(e) => Err(e),
            Ok(subs) => Ok((segs, subs)),
        },
    }
}

/// Subtitle `i` plays exactly from its cue's start to its cue's end, and
/// ends within the video.
pub open spec fn subtitle_at_cue(c: SimpleCue, r: TimeRange, total: int) -> bool {
    &&& c.start is NonNegative
    &&& c.end is NonNegative
    &&& r.start == c.start->NonNegative_0
    &&& r.start + r.duration == c.end->NonNegative_0
    &&& r.duration > 0
    &&& r.start + r.duration <= total
}

proof fn lemma_place_cues_law(cues: Seq<SimpleCue>, total: int)
    ensures
        spec_place_cues(cues, total) matches Ok(subs) ==> subs.len() == cues.len()
            && forall|i: int| 0 <= i < subs.len() ==> #[trigger] subtitle_at_cue(cues[i], subs[i], total),
    decreases cues.len(),
{
    if cues.len() > 0 {
        lemma_place_cues_law(cues.drop_last(), total);
        if let Ok(subs) = spec_place_cues(cues, total) {
            let done = spec_place_cues(cues.drop_last(), total)->Ok_0;
            let last = spec_place_cue((cues.len() - 1) as usize, cues.last(), total)->Ok_0;
            assert(subs == done.push(last));
            assert forall|i: int| 0 <= i < subs.len() implies #[trigger] subtitle_at_cue(cues[i], subs[i], total) by {
                if i < done.len() {
                    assert(subtitle_at_cue(cues.drop_last()[i], done[i], total));
                    assert(cues[i] == cues.drop_last()[i]);
                    assert(subs[i] == done[i]);
                } else {
                    assert(subs[i] == last);
                    assert(cues[i] == cues.last());
                }
            }
        }
    }
}

/// In a simple timeline plan each subtitle plays exactly from its cue's
/// start to its cue's end, inside the stitched video.
pub proof fn lemma_simple_subtitles_at_cues(videos: Seq<Option<MaterialSummary>>, cues: Seq<SimpleCue>)
    ensures
        spec_plan_simple(videos, cues) matches Ok(plan) ==> plan.1.len() == cues.len()
            && forall|i: int| 0 <= i < cues.len() ==> #[trigger] subtitle_at_cue(cues[i], plan.1[i], stitched_end(plan.0)),
{
    if let Ok(segs) = spec_stitch(videos) {
        lemma_place_cues_law(cues, stitched_end(segs));
    }
}

proof fn lemma_place_cues_err_extends(cues: Seq<SimpleCue>, total: int, n: int)
    requires
        0 <= n <= cues.len(),
        spec_place_cues(cues.take(n), total) is Err,
    ensures
        spec_place_cues(cues, total) == spec_place_cues(cues.take(n), total),
    decreases cues.len() - n,
{
    if n < cues.len() {
        assert(cues.take(n + 1).drop_last() =~= cues.take(n));
        lemma_place_cues_err_extends(cues, total, n + 1);
    } else {
        assert(cues.take(n) =~= cues);
    }
}

/// Places a simple timeline: its videos (`None` where one could not be
/// loaded) end to end from 0, then each subtitle cue where it says, which
/// must lie within the stitched video.
pub fn plan_simple_timeline(videos: &Vec<Option<MaterialSummary>>, cues: &Vec<SimpleCue>) -> (r: Result<SimplePlan, SimpleTimelineError>)
    ensures
        match r {
            Ok(p) => spec_plan_simple(videos@, cues@) == Ok::<(Seq<TimeRange>, Seq<TimeRange>), SimpleTimelineError>((p.videos@, p.subtitles@))
                && p.subtitles@.len() == cues@.len()
                && forall|i: int| 0 <= i < cues@.len() ==> #[trigger] subtitle_at_cue(cues@[i], p.subtitles@[i], stitched_end(p.videos@)),
            Err(e) => spec_plan_simple(videos@, cues@) == Err::<(Seq<TimeRange>, Seq<TimeRange>), SimpleTimelineError>(e),
        },
{
    let segs = match stitch_videos(videos) {
        Err(e) => return Err(SimpleTimelineError::Stitch(e)),
        Ok(s) => s,
    };
    let total: u64 = if segs.len() == 0 {
        0
    } else {
        let last = segs[segs.len() - 1];
        proof {
            lemma_stitch_bounded(videos@);
        }
        last.start + last.duration
    };
    assert(total == stitched_end(segs@));
    let mut subs: Vec<TimeRange> = Vec::new();
    let mut i: usize = 0;
    assert(cues@.take(0) =~= Seq::<SimpleCue>::empty());
    while i < cues.len()
        invariant
            i <= cues.len(),
            spec_stitch(videos@) == Ok::<Seq<TimeRange>, StitchError>(segs@),
            total == stitched_end(segs@),
            spec_place_cues(cues@.take(i as int), total as int) == Ok::<Seq<TimeRange>, SimpleTimelineError>(subs@),
        decreases cues.len() - i,
    {
        assert(cues@.take(i + 1).drop_last() =~= cues@.take(i as int));
        assert(cues@.take(i + 1).last() == cues@[i as int]);
        let c = cues[i];
        let step: Result<TimeRange, SimpleTimelineError> = match check_cue(i, c) {
            Err(e) => Err(e),
            Ok(()) => {
                let s = match c.start {
                    Real::NonNegative(v) => v,
                    _ => 0,
                };
                let e = match c.end {
                    Real::NonNegative(v) => v,
                    _ => 0,
                };
                if e > total {
                    Err(SimpleTimelineError::CueBeyondVideo(i))
                } else {
                    Ok(TimeRange { start: s, duration: e - s })
                }
            },
        };
        match step {
            Err(e) => {
                proof {
                    lemma_place_cues_err_extends(cues@, total as int, i + 1);
                }
                return Err(e);
            },
            Ok(p) => {
                subs.push(p);
            },
        }
        i += 1;
    }
    assert(cues@.take(i as int) =~= cues@);
    proof {
        lemma_simple_subtitles_at_cues(videos@, cues@);
        let plan = spec_plan_simple(videos@, cues@)->Ok_0;
        assert(plan.0 == segs@ && plan.1 == subs@);
    }
    Ok(SimplePlan { videos: segs, subtitles: subs })
}

/// The stitched video ends within 64 bits of microseconds.
pub proof fn lemma_stitch_bounded(m: Seq<Option<MaterialSummary>>)
    ensures
        spec_stitch(m) matches Ok(segs) ==> stitched_end(segs) <= u64::MAX,
    decreases m.len(),
{
    if m.len() > 0 {
        lemma_stitch_bounded(m.drop_last());
    }
}

} // verus!
