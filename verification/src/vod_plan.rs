//! Planning a VOD timeline as a draft: where every clip goes, on which lane
//! of its track, and how long the draft runs.
//!
//! The media behind the clips is resolved first (downloads, probes); the
//! plan takes the resolved material durations and decides the rest.

use vstd::prelude::*;
use crate::vod::{
    assign_timeline_lane, fits, is_global_image, lane_disjoint, spec_clip_end, spec_clip_start,
    spec_overlap, PositionedClip, VodAudioClipDef, VodProject, VodSubtitleClip, VodVisualClip,
};

verus! {

/// What places one clip on its track: its requested in and out points and
/// the duration of its material.
#[derive(Debug, Clone, Copy, PartialEq, Eq)]
pub struct ClipTiming {
    pub timeline_in: Option<u64>,
    pub timeline_out: Option<u64>,
    pub default_duration: u64,
}

/// The places of the clips of one track, each starting where the previous
/// one ended when it names no start of its own; `None` when an end does not
/// fit in 64 bits.
pub open spec fn track_positions(t: Seq<ClipTiming>) -> Option<Seq<PositionedClip>>
    decreases t.len(),
{
    if t.len() == 0 {
        Some(Seq::empty())
    } else {
        match track_positions(t.drop_last()) {
            None => None,
            Some(prev) => {
                let cursor: u64 = if prev.len() == 0 { 0 } else { prev.last().end };
                let c = t.last();
                let start = spec_clip_start(c.timeline_in, cursor);
                let end = spec_clip_end(c.timeline_in, c.timeline_out, c.default_duration, cursor);
                if end > u64::MAX {
                    None
                } else {
                    Some(prev.push(PositionedClip { start: start as u64, end: end as u64 }))
                }
            },
        }
    }
}

proof fn lemma_positions_none_sticky(t: Seq<ClipTiming>, i: int)
    requires
        0 <= i <= t.len(),
        track_positions(t.take(i)) is None,
    ensures
        track_positions(t) is None,
    decreases t.len() - i,
{
    if i < t.len() {
        assert(t.take(i + 1).drop_last() =~= t.take(i));
        lemma_positions_none_sticky(t, i + 1);
    } else {
        assert(t.take(i) =~= t);
    }
}

/// Places the clips of one track one after another.
pub fn place_track(timings: &Vec<ClipTiming>) -> (r: Option<Vec<PositionedClip>>)
    ensures
        match r {
            Some(v) => track_positions(timings@) == Some(v@),
            None => track_positions(timings@) is None,
        },
{
    let mut out: Vec<PositionedClip> = Vec::new();
    let mut cursor: u64 = 0;
    let mut i: usize = 0;
    assert(timings@.take(0) =~= Seq::<ClipTiming>::empty());
    while i < timings.len()
        invariant
            i <= timings.len(),
            track_positions(timings@.take(i as int)) == Some(out@),
            cursor == (if out@.len() == 0 { 0 } else { out@.last().end }),
        decreases timings.len() - i,
    {
        let c = timings[i];
        assert(timings@.take(i + 1).drop_last() =~= timings@.take(i as int));
        assert(timings@.take(i + 1).last() == c);
        let start = match c.timeline_in {
            Some(t) => t,
            None => cursor,
        };
        let end = match c.timeline_out {
            Some(t) if t > start => t,
            _ => match start.checked_add(c.default_duration) {
                Some(e) => e,
                None => {
                    proof {
                        lemma_positions_none_sticky(timings@, i + 1);
                    }
                    return None;
                },
            },
        };
        out.push(PositionedClip { start, end });
        cursor = end;
        i += 1;
    }
    assert(timings@.take(i as int) =~= timings@);
    Some(out)
}

/// The first lane, from `k` on, that `c` fits in; the lane count when none.
pub open spec fn first_fit_from(lanes: Seq<Seq<PositionedClip>>, c: PositionedClip, k: int) -> int
    decreases lanes.len() - k,
{
    if k >= lanes.len() {
        lanes.len() as int
    } else if fits(lanes[k], c) {
        k
    } else {
        first_fit_from(lanes, c, k + 1)
    }
}

/// The lanes after `c` joins lane `k`, or a new lane when `k` is past the last.
pub open spec fn insert_at(lanes: Seq<Seq<PositionedClip>>, k: int, c: PositionedClip) -> Seq<Seq<PositionedClip>> {
    if k < lanes.len() {
        lanes.update(k, lanes[k].push(c))
    } else {
        lanes.push(seq![c])
    }
}

/// The lanes a track's clips fill when each, in turn, joins the first lane
/// it overlaps nothing in.
pub open spec fn lane_layout(placed: Seq<PositionedClip>) -> Seq<Seq<PositionedClip>>
    decreases placed.len(),
{
    if placed.len() == 0 {
        Seq::empty()
    } else {
        let ls = lane_layout(placed.drop_last());
        insert_at(ls, first_fit_from(ls, placed.last(), 0), placed.last())
    }
}

/// The lane each clip of a track joins.
pub open spec fn lane_indices(placed: Seq<PositionedClip>) -> Seq<int>
    decreases placed.len(),
{
    if placed.len() == 0 {
        Seq::empty()
    } else {
        lane_indices(placed.drop_last()).push(first_fit_from(lane_layout(placed.drop_last()), placed.last(), 0))
    }
}

/// The clips of each lane.
pub open spec fn lane_views(lanes: Seq<Vec<PositionedClip>>) -> Seq<Seq<PositionedClip>> {
    lanes.map_values(|v: Vec<PositionedClip>| v@)
}

proof fn lemma_first_fit_from(lanes: Seq<Seq<PositionedClip>>, c: PositionedClip, r: int, j: int)
    requires
        0 <= j <= r <= lanes.len(),
        forall|k: int| 0 <= k < r ==> !fits(#[trigger] lanes[k], c),
        r < lanes.len() ==> fits(lanes[r], c),
    ensures
        first_fit_from(lanes, c, j) == r,
    decreases r - j,
{
    if j < r {
        lemma_first_fit_from(lanes, c, r, j + 1);
    }
}

proof fn lemma_first_fit_bound(lanes: Seq<Seq<PositionedClip>>, c: PositionedClip, j: int)
    requires
        0 <= j <= lanes.len(),
    ensures
        j <= first_fit_from(lanes, c, j) <= lanes.len(),
        first_fit_from(lanes, c, j) < lanes.len() ==> fits(lanes[first_fit_from(lanes, c, j)], c),
        forall|k: int| j <= k < first_fit_from(lanes, c, j) ==> !fits(#[trigger] lanes[k], c),
    decreases lanes.len() - j,
{
    if j < lanes.len() && !fits(lanes[j], c) {
        lemma_first_fit_bound(lanes, c, j + 1);
    }
}

/// Assigns each clip of a track, in order, to the first lane it overlaps
/// nothing in; returns each clip's lane and the number of lanes filled.
pub fn assign_lanes(placed: &Vec<PositionedClip>) -> (r: (Vec<usize>, usize))
    ensures
        r.0@.map_values(|k: usize| k as int) == lane_indices(placed@),
        r.1 == lane_layout(placed@).len(),
{
    let mut lanes: Vec<Vec<PositionedClip>> = Vec::new();
    let mut idx: Vec<usize> = Vec::new();
    let mut i: usize = 0;
    assert(placed@.take(0) =~= Seq::<PositionedClip>::empty());
    assert(lane_views(lanes@) =~= Seq::<Seq<PositionedClip>>::empty());
    while i < placed.len()
        invariant
            i <= placed.len(),
            lane_views(lanes@) == lane_layout(placed@.take(i as int)),
            idx@.map_values(|k: usize| k as int) == lane_indices(placed@.take(i as int)),
            lanes@.len() <= i,
        decreases placed.len() - i,
    {
        let c = placed[i];
        let ghost before = lanes@;
        let ghost lv = lane_views(before);
        assert(placed@.take(i + 1).drop_last() =~= placed@.take(i as int));
        assert(placed@.take(i + 1).last() == c);
        let k = assign_timeline_lane(&mut lanes, c);
        proof {
            assert forall|q: int| 0 <= q < k implies !fits(#[trigger] lv[q], c) by {
                assert(lv[q] == before[q]@);
            }
            if k < before.len() {
                assert(lv[k as int] == before[k as int]@);
            }
            lemma_first_fit_from(lv, c, k as int, 0);
            assert(lane_views(lanes@) =~= insert_at(lv, k as int, c));
        }
        let ghost prev_idx = idx@;
        idx.push(k);
        assert(idx@.map_values(|k: usize| k as int) =~= prev_idx.map_values(|k: usize| k as int).push(k as int));
        i += 1;
    }
    assert(placed@.take(i as int) =~= placed@);
    assert(lane_views(lanes@).len() == lanes@.len());
    (idx, lanes.len())
}

/// Every lane of a layout is free of overlaps, and every clip sits on the
/// first lane it fits: the layout a draft can hold, with a lane opened only
/// when no earlier one has room.
pub proof fn lemma_lane_layout_disjoint(placed: Seq<PositionedClip>)
    ensures
        forall|k: int| 0 <= k < lane_layout(placed).len() ==> lane_disjoint(#[trigger] lane_layout(placed)[k]),
        lane_layout(placed).len() <= placed.len(),
        lane_indices(placed).len() == placed.len(),
        forall|i: int| 0 <= i < placed.len() ==> 0 <= #[trigger] lane_indices(placed)[i] < lane_layout(placed).len(),
    decreases placed.len(),
{
    if placed.len() > 0 {
        let d = placed.drop_last();
        let c = placed.last();
        lemma_lane_layout_disjoint(d);
        let ls = lane_layout(d);
        lemma_first_fit_bound(ls, c, 0);
        let k = first_fit_from(ls, c, 0);
        let nl = lane_layout(placed);
        assert forall|q: int| 0 <= q < nl.len() implies lane_disjoint(#[trigger] nl[q]) by {
            if q == k {
                if k < ls.len() {
                    let l = nl[q];
                    assert(l == ls[k].push(c));
                    assert forall|a: int, b: int| 0 <= a < l.len() && 0 <= b < l.len() && a != b implies !spec_overlap(#[trigger] l[a], #[trigger] l[b]) by {
                        assert(lane_disjoint(ls[k]));
                        if a < l.len() - 1 && b < l.len() - 1 {
                            assert(l[a] == ls[k][a] && l[b] == ls[k][b]);
                        } else if a == l.len() - 1 {
                            assert(l[b] == ls[k][b]);
                            assert(!spec_overlap(ls[k][b], c));
                        } else {
                            assert(l[a] == ls[k][a]);
                            assert(!spec_overlap(ls[k][a], c));
                        }
                    }
                } else {
                    assert(nl[q] == seq![c]);
                }
            } else {
                assert(nl[q] == ls[q]);
            }
        }
    }
}

/// Clips that overlap nowhere all share the first lane.
pub proof fn lemma_disjoint_clips_share_one_lane(placed: Seq<PositionedClip>)
    requires
        lane_disjoint(placed),
    ensures
        placed.len() > 0 ==> lane_layout(placed) == seq![placed],
        forall|i: int| 0 <= i < placed.len() ==> #[trigger] lane_indices(placed)[i] == 0,
    decreases placed.len(),
{
    if placed.len() > 0 {
        let d = placed.drop_last();
        let c = placed.last();
        assert(lane_disjoint(d)) by {
            assert forall|i: int, j: int| 0 <= i < d.len() && 0 <= j < d.len() && i != j implies !spec_overlap(#[trigger] d[i], #[trigger] d[j]) by {
                assert(d[i] == placed[i] && d[j] == placed[j]);
            }
        }
        lemma_disjoint_clips_share_one_lane(d);
        if d.len() > 0 {
            let ls = lane_layout(d);
            assert(ls[0] == d);
            assert(fits(ls[0], c)) by {
                assert forall|i: int| 0 <= i < ls[0].len() implies !spec_overlap(#[trigger] ls[0][i], c) by {
                    assert(ls[0][i] == placed[i]);
                    assert(c == placed[placed.len() - 1]);
                }
            }
            assert(first_fit_from(ls, c, 0) == 0);
            assert(lane_layout(placed) =~= seq![placed]) by {
                assert(d.push(c) =~= placed);
            }
        } else {
            assert(lane_layout(d) =~= Seq::<Seq<PositionedClip>>::empty());
            assert(first_fit_from(lane_layout(d), c, 0) == 0);
            assert(lane_layout(placed) =~= seq![placed]) by {
                assert(seq![c] =~= placed);
            }
        }
        lemma_lane_layout_disjoint(d);
        assert(first_fit_from(lane_layout(d), c, 0) == 0);
        assert forall|i: int| 0 <= i < placed.len() implies #[trigger] lane_indices(placed)[i] == 0 by {
            if i < d.len() {
                assert(lane_indices(placed)[i] == lane_indices(d)[i]);
            }
        }
    }
}

/// A placed clip never ends before it starts.
pub proof fn lemma_positions_ordered(t: Seq<ClipTiming>)
    ensures
        track_positions(t) matches Some(p) ==> p.len() == t.len()
            && forall|j: int| 0 <= j < p.len() ==> (#[trigger] p[j]).start <= p[j].end,
    decreases t.len(),
{
    if t.len() > 0 {
        lemma_positions_ordered(t.drop_last());
    }
}

/// Clip `j` of a track sits where its timing puts it: it starts at its own
/// in-point, or where the clip before it ends (the first at 0); it ends at
/// its out-point when that lies after its start, else after its default
/// duration.
pub open spec fn placed_by_timing(t: Seq<ClipTiming>, p: Seq<PositionedClip>, j: int) -> bool {
    let prev_end: int = if j == 0 { 0 } else { p[j - 1].end as int };
    &&& p[j].start == match t[j].timeline_in { Some(s) => s as int, None => prev_end }
    &&& p[j].end == match t[j].timeline_out {
        Some(e) if e > p[j].start => e as int,
        _ => p[j].start + t[j].default_duration,
    }
}

/// The places of a track's clips follow from their timings, clip by clip:
/// see [`placed_by_timing`].
pub proof fn lemma_positions_follow_timings(t: Seq<ClipTiming>)
    ensures
        track_positions(t) matches Some(p) ==> p.len() == t.len()
            && forall|j: int| 0 <= j < p.len() ==> #[trigger] placed_by_timing(t, p, j),
    decreases t.len(),
{
    if t.len() > 0 {
        lemma_positions_follow_timings(t.drop_last());
        if let Some(p) = track_positions(t) {
            let prev = track_positions(t.drop_last())->Some_0;
            assert(p.drop_last() =~= prev);
            assert forall|j: int| 0 <= j < p.len() implies #[trigger] placed_by_timing(t, p, j) by {
                if j < prev.len() {
                    assert(placed_by_timing(t.drop_last(), prev, j));
                    assert(p[j] == prev[j]);
                    assert(t[j] == t.drop_last()[j]);
                    if j > 0 {
                        assert(p[j - 1] == prev[j - 1]);
                    }
                } else if j > 0 {
                    assert(p[j - 1] == prev.last());
                }
            }
        }
    }
}

/// Indices of the clips of a video track that are converted: all but the
/// global images.
pub open spec fn converted_indices(clips: Seq<VodVisualClip>) -> Seq<int>
    decreases clips.len(),
{
    if clips.len() == 0 {
        Seq::empty()
    } else if is_global_image(clips.last().clip_type) {
        converted_indices(clips.drop_last())
    } else {
        converted_indices(clips.drop_last()).push(clips.len() - 1)
    }
}

proof fn lemma_converted_bounds(clips: Seq<VodVisualClip>)
    ensures
        converted_indices(clips).len() <= clips.len(),
        forall|j: int| 0 <= j < converted_indices(clips).len() ==> 0 <= #[trigger] converted_indices(clips)[j] < clips.len(),
    decreases clips.len(),
{
    if clips.len() > 0 {
        lemma_converted_bounds(clips.drop_last());
    }
}

proof fn lemma_converted_len_mono(clips: Seq<VodVisualClip>, i: int)
    requires
        0 <= i <= clips.len(),
    ensures
        converted_indices(clips.take(i)).len() <= converted_indices(clips).len(),
    decreases clips.len() - i,
{
    if i < clips.len() {
        assert(clips.take(i + 1).drop_last() =~= clips.take(i));
        lemma_converted_len_mono(clips, i + 1);
    } else {
        assert(clips.take(i) =~= clips);
    }
}

/// The timings of the converted clips of a video track, each with the
/// duration of its material.
pub open spec fn visual_timings(clips: Seq<VodVisualClip>, durations: Seq<u64>) -> Seq<ClipTiming> {
    let ci = converted_indices(clips);
    Seq::new(ci.len(), |j: int| ClipTiming {
        timeline_in: clips[ci[j]].timeline_in,
        timeline_out: clips[ci[j]].timeline_out,
        default_duration: durations[j],
    })
}

/// The timings of the clips of an audio track, each with the duration of
/// its material.
pub open spec fn audio_timings(clips: Seq<VodAudioClipDef>, durations: Seq<u64>) -> Seq<ClipTiming> {
    Seq::new(clips.len(), |j: int| ClipTiming {
        timeline_in: clips[j].timeline_in,
        timeline_out: clips[j].timeline_out,
        default_duration: durations[j],
    })
}

/// Subtitle cues stay where they are given.
pub open spec fn subtitle_positions(clips: Seq<VodSubtitleClip>) -> Seq<PositionedClip> {
    Seq::new(clips.len(), |j: int| PositionedClip { start: clips[j].timeline_in, end: clips[j].timeline_out })
}

/// How much of each material plays: the clip's length, at most the material's.
pub open spec fn source_lengths(placed: Seq<PositionedClip>, durations: Seq<u64>) -> Seq<int> {
    Seq::new(placed.len(), |j: int| {
        let len = placed[j].end - placed[j].start;
        if len < durations[j] { len } else { durations[j] as int }
    })
}

/// The draft layout of one VOD track.
#[derive(Debug, Clone, PartialEq, Eq)]
pub struct VodTrackPlan {
    /// For each placed clip, its index among the clips of the VOD track.
    pub clip_indices: Vec<usize>,
    /// Where each clip goes on the timeline.
    pub placed: Vec<PositionedClip>,
    /// The lane each clip goes on.
    pub lanes: Vec<usize>,
    /// How many draft tracks the VOD track becomes; at least one.
    pub lane_count: usize,
    /// How much of each clip's material plays (video and audio tracks; empty
    /// for subtitle tracks).
    pub source_durations: Vec<u64>,
}

/// `plan` spreads the clips placed at `placed` over lanes.
pub open spec fn lays_out(plan: VodTrackPlan, placed: Seq<PositionedClip>) -> bool {
    &&& plan.placed@ == placed
    &&& plan.lanes@.map_values(|k: usize| k as int) == lane_indices(placed)
    &&& plan.lane_count == (if lane_layout(placed).len() > 1 { lane_layout(placed).len() } else { 1 })
}

/// `plan` is the layout of a video track with these clips and material durations.
pub open spec fn plans_video_track(plan: VodTrackPlan, clips: Seq<VodVisualClip>, durations: Seq<u64>) -> bool {
    &&& track_positions(visual_timings(clips, durations)) matches Some(placed)
    &&& lays_out(plan, placed)
    &&& plan.clip_indices@.map_values(|k: usize| k as int) == converted_indices(clips)
    &&& plan.source_durations@.map_values(|k: u64| k as int) == source_lengths(placed, durations)
}

/// `plan` is the layout of an audio track with these clips and material durations.
pub open spec fn plans_audio_track(plan: VodTrackPlan, clips: Seq<VodAudioClipDef>, durations: Seq<u64>) -> bool {
    &&& track_positions(audio_timings(clips, durations)) matches Some(placed)
    &&& lays_out(plan, placed)
    &&& plan.clip_indices@.map_values(|k: usize| k as int) == Seq::new(clips.len(), |j: int| j)
    &&& plan.source_durations@.map_values(|k: u64| k as int) == source_lengths(placed, durations)
}

/// `plan` is the layout of a subtitle track with these cues.
pub open spec fn plans_subtitle_track(plan: VodTrackPlan, clips: Seq<VodSubtitleClip>) -> bool {
    &&& lays_out(plan, subtitle_positions(clips))
    &&& plan.clip_indices@.map_values(|k: usize| k as int) == Seq::new(clips.len(), |j: int| j)
    &&& plan.source_durations@.len() == 0
}

fn lay_out(placed: Vec<PositionedClip>) -> (r: VodTrackPlan)
    ensures
        lays_out(r, placed@),
        r.clip_indices@.len() == 0,
        r.source_durations@.len() == 0,
{
    let (lanes, count) = assign_lanes(&placed);
    let lane_count = if count > 1 { count } else { 1 };
    VodTrackPlan { clip_indices: Vec::new(), placed, lanes, lane_count, source_durations: Vec::new() }
}

fn source_durations_of(placed: &Vec<PositionedClip>, durations: &Vec<u64>) -> (r: Vec<u64>)
    requires
        placed.len() == durations.len(),
        forall|j: int| 0 <= j < placed.len() ==> (#[trigger] placed@[j]).start <= placed@[j].end,
    ensures
        r@.map_values(|k: u64| k as int) == source_lengths(placed@, durations@),
{
    let mut out: Vec<u64> = Vec::new();
    let mut j: usize = 0;
    while j < placed.len()
        invariant
            j <= placed.len(),
            placed.len() == durations.len(),
            forall|q: int| 0 <= q < placed.len() ==> (#[trigger] placed@[q]).start <= placed@[q].end,
            out@.map_values(|k: u64| k as int) == source_lengths(placed@, durations@).take(j as int),
        decreases placed.len() - j,
    {
        let p = placed[j];
        assert(p.start <= p.end);
        let len = p.end - p.start;
        let s = if len < durations[j] { len } else { durations[j] };
        let ghost prev = out@.map_values(|k: u64| k as int);
        out.push(s);
        assert(out@.map_values(|k: u64| k as int) =~= prev.push(s as int));
        assert(source_lengths(placed@, durations@).take(j + 1) =~= source_lengths(placed@, durations@).take(j as int).push(s as int));
        j += 1;
    }
    assert(source_lengths(placed@, durations@).take(j as int) =~= source_lengths(placed@, durations@));
    out
}

fn counting(n: usize) -> (r: Vec<usize>)
    ensures
        r@.map_values(|k: usize| k as int) == Seq::new(n as nat, |j: int| j),
{
    let mut out: Vec<usize> = Vec::new();
    let mut j: usize = 0;
    while j < n
        invariant
            j <= n,
            out@.map_values(|k: usize| k as int) == Seq::new(j as nat, |q: int| q),
        decreases n - j,
    {
        let ghost prev = out@.map_values(|k: usize| k as int);
        out.push(j);
        assert(out@.map_values(|k: usize| k as int) =~= prev.push(j as int));
        assert(prev.push(j as int) =~= Seq::new((j + 1) as nat, |q: int| q));
        j += 1;
    }
    out
}

/// Lays out one VOD video track; `None` when a clip end does not fit in 64 bits.
pub fn plan_video_track(clips: &Vec<VodVisualClip>, durations: &Vec<u64>) -> (r: Option<VodTrackPlan>)
    requires
        durations.len() == converted_indices(clips@).len(),
    ensures
        match r {
            Some(p) => plans_video_track(p, clips@, durations@),
            None => track_positions(visual_timings(clips@, durations@)) is None,
        },
{
    let mut idx: Vec<usize> = Vec::new();
    let mut timings: Vec<ClipTiming> = Vec::new();
    let mut i: usize = 0;
    assert(clips@.take(0) =~= Seq::<VodVisualClip>::empty());
    while i < clips.len()
        invariant
            i <= clips.len(),
            durations.len() == converted_indices(clips@).len(),
            idx@.map_values(|k: usize| k as int) == converted_indices(clips@.take(i as int)),
            timings@.len() == idx@.len(),
            forall|j: int| 0 <= j < idx@.len() ==> #[trigger] timings@[j] == (ClipTiming {
                timeline_in: clips@[idx@[j] as int].timeline_in,
                timeline_out: clips@[idx@[j] as int].timeline_out,
                default_duration: durations@[j],
            }),
        decreases clips.len() - i,
    {
        assert(clips@.take(i + 1).drop_last() =~= clips@.take(i as int));
        assert(clips@.take(i + 1).last() == clips@[i as int]);
        proof {
            lemma_converted_len_mono(clips@, i + 1);
        }
        let global = match &clips[i].clip_type {
            Some(t) => {
                let tv = crate::text::chars_of(t.as_str());
                let g = crate::text::chars_of("GlobalImage");
                crate::chars::vec_eq_ignore_ascii_case(&tv, &g)
            },
            None => false,
        };
        if !global {
            let ghost prev = idx@.map_values(|k: usize| k as int);
            let n = idx.len();
            timings.push(ClipTiming {
                timeline_in: clips[i].timeline_in,
                timeline_out: clips[i].timeline_out,
                default_duration: durations[n],
            });
            idx.push(i);
            assert(idx@.map_values(|k: usize| k as int) =~= prev.push(i as int));
        }
        i += 1;
    }
    assert(clips@.take(i as int) =~= clips@);
    proof {
        lemma_converted_bounds(clips@);
    }
    assert(timings@ =~= visual_timings(clips@, durations@));
    match place_track(&timings) {
        None => None,
        Some(placed) => {
            proof {
                lemma_positions_ordered(timings@);
            }
            let sources = source_durations_of(&placed, durations);
            let mut plan = lay_out(placed);
            plan.clip_indices = idx;
            plan.source_durations = sources;
            Some(plan)
        },
    }
}

/// Lays out one VOD audio track; `None` when a clip end does not fit in 64 bits.
pub fn plan_audio_track(clips: &Vec<VodAudioClipDef>, durations: &Vec<u64>) -> (r: Option<VodTrackPlan>)
    requires
        durations.len() == clips.len(),
    ensures
        match r {
            Some(p) => plans_audio_track(p, clips@, durations@),
            None => track_positions(audio_timings(clips@, durations@)) is None,
        },
{
    let mut timings: Vec<ClipTiming> = Vec::new();
    let mut i: usize = 0;
    while i < clips.len()
        invariant
            i <= clips.len(),
            durations.len() == clips.len(),
            timings@ == audio_timings(clips@, durations@).take(i as int),
        decreases clips.len() - i,
    {
        timings.push(ClipTiming {
            timeline_in: clips[i].timeline_in,
            timeline_out: clips[i].timeline_out,
            default_duration: durations[i],
        });
        assert(audio_timings(clips@, durations@).take(i + 1) =~= audio_timings(clips@, durations@).take(i as int).push(timings@[i as int]));
        i += 1;
    }
    assert(audio_timings(clips@, durations@).take(i as int) =~= audio_timings(clips@, durations@));
    match place_track(&timings) {
        None => None,
        Some(placed) => {
            proof {
                lemma_positions_ordered(timings@);
            }
            let sources = source_durations_of(&placed, durations);
            let mut plan = lay_out(placed);
            plan.clip_indices = counting(clips.len());
            plan.source_durations = sources;
            Some(plan)
        },
    }
}

/// Lays out one VOD subtitle track.
pub fn plan_subtitle_track(clips: &Vec<VodSubtitleClip>) -> (r: VodTrackPlan)
    ensures
        plans_subtitle_track(r, clips@),
{
    let mut placed: Vec<PositionedClip> = Vec::new();
    let mut i: usize = 0;
    while i < clips.len()
        invariant
            i <= clips.len(),
            placed@ == subtitle_positions(clips@).take(i as int),
        decreases clips.len() - i,
    {
        placed.push(PositionedClip { start: clips[i].timeline_in, end: clips[i].timeline_out });
        assert(subtitle_positions(clips@).take(i + 1) =~= subtitle_positions(clips@).take(i as int).push(placed@[i as int]));
        i += 1;
    }
    assert(subtitle_positions(clips@).take(i as int) =~= subtitle_positions(clips@));
    let mut plan = lay_out(placed);
    plan.clip_indices = counting(clips.len());
    plan
}

/// The draft layout of a whole VOD timeline: one layout per VOD track, and
/// the draft's length.
#[derive(Debug, Clone, PartialEq, Eq)]
pub struct VodPlan {
    /// Where the last clip of any track ends, in microseconds.
    pub duration: u64,
    pub video: Vec<VodTrackPlan>,
    pub audio: Vec<VodTrackPlan>,
    pub subtitles: Vec<VodTrackPlan>,
}

/// No placed clip of `plans` ends after `d`.
pub open spec fn ends_within(plans: Seq<VodTrackPlan>, d: int) -> bool {
    forall|t: int, j: int| 0 <= t < plans.len() && 0 <= j < plans[t].placed@.len() ==> #[trigger] plans[t].placed@[j].end <= d
}

/// Some placed clip of `plans` ends at `d`.
pub open spec fn some_end_is(plans: Seq<VodTrackPlan>, d: int) -> bool {
    exists|t: int, j: int| 0 <= t < plans.len() && 0 <= j < plans[t].placed@.len() && #[trigger] plans[t].placed@[j].end == d
}

/// Every video and audio track can be placed with ends that fit in 64 bits.
pub open spec fn vod_durations_fit(project: VodProject, video: Seq<Vec<u64>>, audio: Seq<Vec<u64>>) -> bool {
    &&& forall|t: int| 0 <= t < project.video_tracks@.len()
        ==> track_positions(visual_timings(#[trigger] project.video_tracks@[t].clips@, video[t]@)) is Some
    &&& forall|t: int| 0 <= t < project.audio_tracks@.len()
        ==> track_positions(audio_timings(#[trigger] project.audio_tracks@[t].clips@, audio[t]@)) is Some
}

/// `p` lays out every track of `project`, the video and audio clips placed
/// with the given material durations, and runs until the last clip ends.
pub open spec fn vod_plan_holds(p: VodPlan, project: VodProject, video: Seq<Vec<u64>>, audio: Seq<Vec<u64>>) -> bool {
    &&& p.video@.len() == project.video_tracks@.len()
    &&& forall|t: int| 0 <= t < p.video@.len()
        ==> plans_video_track(#[trigger] p.video@[t], project.video_tracks@[t].clips@, video[t]@)
    &&& p.audio@.len() == project.audio_tracks@.len()
    &&& forall|t: int| 0 <= t < p.audio@.len()
        ==> plans_audio_track(#[trigger] p.audio@[t], project.audio_tracks@[t].clips@, audio[t]@)
    &&& p.subtitles@.len() == project.subtitle_tracks@.len()
    &&& forall|t: int| 0 <= t < p.subtitles@.len()
        ==> plans_subtitle_track(#[trigger] p.subtitles@[t], project.subtitle_tracks@[t].clips@)
    &&& ends_within(p.video@, p.duration as int)
    &&& ends_within(p.audio@, p.duration as int)
    &&& ends_within(p.subtitles@, p.duration as int)
    &&& (p.duration == 0 || some_end_is(p.video@, p.duration as int) || some_end_is(p.audio@, p.duration as int)
        || some_end_is(p.subtitles@, p.duration as int))
}

/// How much of a material a video or audio clip plays: never more than the
/// material holds, never more than the clip's length on the timeline, and
/// exactly the smaller of the two.
pub open spec fn plays_within(plan: VodTrackPlan, durations: Seq<u64>) -> bool {
    &&& plan.source_durations@.len() == plan.placed@.len()
    &&& forall|j: int| 0 <= j < plan.source_durations@.len() ==> {
        let len = plan.placed@[j].end - plan.placed@[j].start;
        let sd = #[trigger] plan.source_durations@[j];
        &&& sd <= durations[j]
        &&& sd <= len
        &&& (sd == durations[j] || sd == len)
    }
}

/// A video track's clips play at most what their materials hold and at
/// most their own length, exactly the smaller of the two.
pub proof fn lemma_video_plays_within(plan: VodTrackPlan, clips: Seq<VodVisualClip>, durations: Seq<u64>)
    requires
        plans_video_track(plan, clips, durations),
    ensures
        plays_within(plan, durations),
{
    let placed = track_positions(visual_timings(clips, durations))->Some_0;
    let m = plan.source_durations@.map_values(|k: u64| k as int);
    assert(m.len() == source_lengths(placed, durations).len());
    assert(plan.placed@ == placed);
    assert(plan.source_durations@.len() == plan.placed@.len());
    assert forall|j: int| 0 <= j < plan.source_durations@.len() implies {
        let len = plan.placed@[j].end - plan.placed@[j].start;
        let sd = #[trigger] plan.source_durations@[j];
        &&& sd <= durations[j]
        &&& sd <= len
        &&& (sd == durations[j] || sd == len)
    } by {
        assert(m[j] == source_lengths(placed, durations)[j]);
        assert(m[j] == plan.source_durations@[j] as int);
    }
}

/// An audio track's clips play at most what their materials hold and at
/// most their own length, exactly the smaller of the two.
pub proof fn lemma_audio_plays_within(plan: VodTrackPlan, clips: Seq<VodAudioClipDef>, durations: Seq<u64>)
    requires
        plans_audio_track(plan, clips, durations),
    ensures
        plays_within(plan, durations),
{
    let placed = track_positions(audio_timings(clips, durations))->Some_0;
    let m = plan.source_durations@.map_values(|k: u64| k as int);
    assert(m.len() == source_lengths(placed, durations).len());
    assert(plan.placed@ == placed);
    assert(plan.source_durations@.len() == plan.placed@.len());
    assert forall|j: int| 0 <= j < plan.source_durations@.len() implies {
        let len = plan.placed@[j].end - plan.placed@[j].start;
        let sd = #[trigger] plan.source_durations@[j];
        &&& sd <= durations[j]
        &&& sd <= len
        &&& (sd == durations[j] || sd == len)
    } by {
        assert(m[j] == source_lengths(placed, durations)[j]);
        assert(m[j] == plan.source_durations@[j] as int);
    }
}

/// In a VOD plan, every video and audio clip sits where its timing puts it
/// (see [`placed_by_timing`]).
pub proof fn lemma_vod_plan_positions(p: VodPlan, project: VodProject, video: Seq<Vec<u64>>, audio: Seq<Vec<u64>>)
    requires
        vod_plan_holds(p, project, video, audio),
    ensures
        forall|t: int, j: int| 0 <= t < p.video@.len() && 0 <= j < p.video@[t].placed@.len()
            ==> #[trigger] placed_by_timing(visual_timings(project.video_tracks@[t].clips@, video[t]@), p.video@[t].placed@, j),
        forall|t: int, j: int| 0 <= t < p.audio@.len() && 0 <= j < p.audio@[t].placed@.len()
            ==> #[trigger] placed_by_timing(audio_timings(project.audio_tracks@[t].clips@, audio[t]@), p.audio@[t].placed@, j),
{
    assert forall|t: int, j: int| 0 <= t < p.video@.len() && 0 <= j < p.video@[t].placed@.len()
        implies #[trigger] placed_by_timing(visual_timings(project.video_tracks@[t].clips@, video[t]@), p.video@[t].placed@, j) by {
        assert(plans_video_track(p.video@[t], project.video_tracks@[t].clips@, video[t]@));
        lemma_positions_follow_timings(visual_timings(project.video_tracks@[t].clips@, video[t]@));
    }
    assert forall|t: int, j: int| 0 <= t < p.audio@.len() && 0 <= j < p.audio@[t].placed@.len()
        implies #[trigger] placed_by_timing(audio_timings(project.audio_tracks@[t].clips@, audio[t]@), p.audio@[t].placed@, j) by {
        assert(plans_audio_track(p.audio@[t], project.audio_tracks@[t].clips@, audio[t]@));
        lemma_positions_follow_timings(audio_timings(project.audio_tracks@[t].clips@, audio[t]@));
    }
}

/// In a VOD plan, every video and audio clip plays at most what its
/// material holds and at most its own length, exactly the smaller of the two.
pub proof fn lemma_vod_plan_plays_within(p: VodPlan, project: VodProject, video: Seq<Vec<u64>>, audio: Seq<Vec<u64>>)
    requires
        vod_plan_holds(p, project, video, audio),
    ensures
        forall|t: int| 0 <= t < p.video@.len() ==> plays_within(#[trigger] p.video@[t], video[t]@),
        forall|t: int| 0 <= t < p.audio@.len() ==> plays_within(#[trigger] p.audio@[t], audio[t]@),
{
    assert forall|t: int| 0 <= t < p.video@.len() implies plays_within(#[trigger] p.video@[t], video[t]@) by {
        lemma_video_plays_within(p.video@[t], project.video_tracks@[t].clips@, video[t]@);
    }
    assert forall|t: int| 0 <= t < p.audio@.len() implies plays_within(#[trigger] p.audio@[t], audio[t]@) by {
        lemma_audio_plays_within(p.audio@[t], project.audio_tracks@[t].clips@, audio[t]@);
    }
}

fn max_end(plans: &Vec<VodTrackPlan>, init: u64) -> (d: u64)
    ensures
        d >= init,
        ends_within(plans@, d as int),
        d == init || some_end_is(plans@, d as int),
{
    let mut d = init;
    let mut i: usize = 0;
    while i < plans.len()
        invariant
            i <= plans.len(),
            d >= init,
            forall|t: int, j: int| 0 <= t < i && 0 <= j < plans@[t].placed@.len() ==> #[trigger] plans@[t].placed@[j].end <= d,
            d == init || some_end_is(plans@, d as int),
        decreases plans.len() - i,
    {
        let mut k: usize = 0;
        while k < plans[i].placed.len()
            invariant
                i < plans.len(),
                k <= plans@[i as int].placed@.len(),
                d >= init,
                forall|t: int, j: int| 0 <= t < i && 0 <= j < plans@[t].placed@.len() ==> #[trigger] plans@[t].placed@[j].end <= d,
                forall|j: int| 0 <= j < k ==> #[trigger] plans@[i as int].placed@[j].end <= d,
                d == init || some_end_is(plans@, d as int),
            decreases plans@[i as int].placed@.len() - k,
        {
            let e = plans[i].placed[k].end;
            if e > d {
                d = e;
                assert(plans@[i as int].placed@[k as int].end == d);
            }
            k += 1;
        }
        i += 1;
    }
    d
}

/// Lays out a whole VOD timeline for a draft. `video_durations[t]` holds the
/// material durations of the converted clips of video track `t` (global
/// images aside), `audio_durations[t]` those of the clips of audio track `t`.
/// Each track is placed on its own and its overlapping clips spread over
/// extra lanes; the draft runs until the last clip of any track ends.
/// `None` when a clip end does not fit in 64 bits.
pub fn plan_vod_timeline(project: &VodProject, video_durations: &Vec<Vec<u64>>, audio_durations: &Vec<Vec<u64>>) -> (r: Option<VodPlan>)
    requires
        video_durations.len() == project.video_tracks.len(),
        forall|t: int| 0 <= t < video_durations.len()
            ==> (#[trigger] video_durations@[t])@.len() == converted_indices(project.video_tracks@[t].clips@).len(),
        audio_durations.len() == project.audio_tracks.len(),
        forall|t: int| 0 <= t < audio_durations.len()
            ==> (#[trigger] audio_durations@[t])@.len() == project.audio_tracks@[t].clips@.len(),
    ensures
        r is Some <==> vod_durations_fit(*project, video_durations@, audio_durations@),
        r matches Some(p) ==> vod_plan_holds(p, *project, video_durations@, audio_durations@),
        r matches Some(p) ==> forall|t: int| 0 <= t < p.video@.len() ==> plays_within(#[trigger] p.video@[t], video_durations@[t]@),
        r matches Some(p) ==> forall|t: int| 0 <= t < p.audio@.len() ==> plays_within(#[trigger] p.audio@[t], audio_durations@[t]@),
        r matches Some(p) ==> forall|t: int, j: int| 0 <= t < p.video@.len() && 0 <= j < p.video@[t].placed@.len()
            ==> #[trigger] placed_by_timing(visual_timings(project.video_tracks@[t].clips@, video_durations@[t]@), p.video@[t].placed@, j),
        r matches Some(p) ==> forall|t: int, j: int| 0 <= t < p.audio@.len() && 0 <= j < p.audio@[t].placed@.len()
            ==> #[trigger] placed_by_timing(audio_timings(project.audio_tracks@[t].clips@, audio_durations@[t]@), p.audio@[t].placed@, j),
{
    let mut video: Vec<VodTrackPlan> = Vec::new();
    let mut t: usize = 0;
    while t < project.video_tracks.len()
        invariant
            t <= project.video_tracks.len(),
            video_durations.len() == project.video_tracks.len(),
            forall|q: int| 0 <= q < video_durations.len()
                ==> (#[trigger] video_durations@[q])@.len() == converted_indices(project.video_tracks@[q].clips@).len(),
            video@.len() == t,
            forall|q: int| 0 <= q < t ==> plans_video_track(#[trigger] video@[q], project.video_tracks@[q].clips@, video_durations@[q]@),
        decreases project.video_tracks.len() - t,
    {
        assert(video_durations@[t as int]@.len() == converted_indices(project.video_tracks@[t as int].clips@).len());
        match plan_video_track(&project.video_tracks[t].clips, &video_durations[t]) {
            None => {
                assert(!vod_durations_fit(*project, video_durations@, audio_durations@)) by {
                    assert(track_positions(visual_timings(project.video_tracks@[t as int].clips@, video_durations@[t as int]@)) is None);
                }
                return None;
            },
            Some(p) => {
                video.push(p);
            },
        }
        t += 1;
    }
    let mut audio: Vec<VodTrackPlan> = Vec::new();
    let mut a: usize = 0;
    while a < project.audio_tracks.len()
        invariant
            a <= project.audio_tracks.len(),
            audio_durations.len() == project.audio_tracks.len(),
            forall|q: int| 0 <= q < audio_durations.len()
                ==> (#[trigger] audio_durations@[q])@.len() == project.audio_tracks@[q].clips@.len(),
            audio@.len() == a,
            forall|q: int| 0 <= q < a ==> plans_audio_track(#[trigger] audio@[q], project.audio_tracks@[q].clips@, audio_durations@[q]@),
        decreases project.audio_tracks.len() - a,
    {
        assert(audio_durations@[a as int]@.len() == project.audio_tracks@[a as int].clips@.len());
        match plan_audio_track(&project.audio_tracks[a].clips, &audio_durations[a]) {
            None => {
                assert(!vod_durations_fit(*project, video_durations@, audio_durations@)) by {
                    assert(track_positions(audio_timings(project.audio_tracks@[a as int].clips@, audio_durations@[a as int]@)) is None);
                }
                return None;
            },
            Some(p) => {
                audio.push(p);
            },
        }
        a += 1;
    }
    let mut subtitles: Vec<VodTrackPlan> = Vec::new();
    let mut s: usize = 0;
    while s < project.subtitle_tracks.len()
        invariant
            s <= project.subtitle_tracks.len(),
            subtitles@.len() == s,
            forall|q: int| 0 <= q < s ==> plans_subtitle_track(#[trigger] subtitles@[q], project.subtitle_tracks@[q].clips@),
        decreases project.subtitle_tracks.len() - s,
    {
        let p = plan_subtitle_track(&project.subtitle_tracks[s].clips);
        subtitles.push(p);
        s += 1;
    }
    assert(vod_durations_fit(*project, video_durations@, audio_durations@)) by {
        assert forall|q: int| 0 <= q < project.video_tracks@.len() implies
            track_positions(visual_timings(#[trigger] project.video_tracks@[q].clips@, video_durations@[q]@)) is Some by {
            assert(plans_video_track(video@[q], project.video_tracks@[q].clips@, video_durations@[q]@));
        }
        assert forall|q: int| 0 <= q < project.audio_tracks@.len() implies
            track_positions(audio_timings(#[trigger] project.audio_tracks@[q].clips@, audio_durations@[q]@)) is Some by {
            assert(plans_audio_track(audio@[q], project.audio_tracks@[q].clips@, audio_durations@[q]@));
        }
    }
    let d1 = max_end(&subtitles, 0);
    let d2 = max_end(&video, d1);
    let d3 = max_end(&audio, d2);
    let plan = VodPlan { duration: d3, video, audio, subtitles };
    assert(ends_within(plan.subtitles@, d3 as int)) by {
        assert forall|t: int, j: int| 0 <= t < plan.subtitles@.len() && 0 <= j < plan.subtitles@[t].placed@.len()
            implies #[trigger] plan.subtitles@[t].placed@[j].end <= d3 by {
            assert(plan.subtitles@[t].placed@[j].end <= d1);
        }
    }
    assert(ends_within(plan.video@, d3 as int)) by {
        assert forall|t: int, j: int| 0 <= t < plan.video@.len() && 0 <= j < plan.video@[t].placed@.len()
            implies #[trigger] plan.video@[t].placed@[j].end <= d3 by {
            assert(plan.video@[t].placed@[j].end <= d2);
        }
    }
    proof {
        lemma_vod_plan_plays_within(plan, *project, video_durations@, audio_durations@);
        lemma_vod_plan_positions(plan, *project, video_durations@, audio_durations@);
    }
    Some(plan)
}

} // verus!
