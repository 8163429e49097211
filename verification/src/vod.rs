//! Placement of Alibaba Cloud VOD timeline clips on draft tracks.
//!
//! Times are microseconds. A VOD track may hold overlapping clips while a
//! draft track may not, so overlapping clips are spread over extra lanes.

use vstd::prelude::*;
use std::collections::HashMap;
use crate::chars::{
    ascii_lower, decimal, decimal_vec, eq_ignore_ascii_case, starts_with, vec_eq_ignore_ascii_case,
};
use crate::model::Canvas;
use crate::text::{chars_of, push_str, string_from_chars};

verus! {

broadcast use vstd::std_specs::hash::group_hash_axioms;

/// A clip's place on the timeline, `[start, end)` in microseconds.
#[derive(Debug, Clone, Copy, PartialEq, Eq)]
pub struct PositionedClip {
    pub start: u64,
    pub end: u64,
}

/// The two clips share some instant.
pub open spec fn spec_overlap(l: PositionedClip, r: PositionedClip) -> bool {
    !(l.end <= r.start || r.end <= l.start)
}

/// Whether two placed clips overlap.
pub fn positioned_clips_overlap(left: PositionedClip, right: PositionedClip) -> (r: bool)
    ensures
        r == spec_overlap(left, right),
{
    !(left.end <= right.start || right.end <= left.start)
}

/// Where a clip starts: at `timeline_in`, or at the cursor when absent.
pub open spec fn spec_clip_start(timeline_in: Option<u64>, cursor: u64) -> int {
    match timeline_in {
        Some(t) => t as int,
        None => cursor as int,
    }
}

/// Where a clip ends: at `timeline_out` when it lies after the start, else
/// after the material's own duration.
pub open spec fn spec_clip_end(timeline_in: Option<u64>, timeline_out: Option<u64>, default_duration: u64, cursor: u64) -> int {
    let start = spec_clip_start(timeline_in, cursor);
    match timeline_out {
        Some(t) if t > start => t as int,
        _ => start + default_duration,
    }
}

/// Places a clip: it starts at `timeline_in`, or right after the previous
/// clip of its track (`cursor`) when absent, and ends at `timeline_out`, or
/// after `default_duration` when that is absent or not after the start. The
/// cursor moves to the clip's end.
pub fn position_clip(
    timeline_in: &Option<u64>,
    timeline_out: &Option<u64>,
    default_duration: u64,
    cursor: &mut u64,
) -> (r: PositionedClip)
    requires
        spec_clip_end(*timeline_in, *timeline_out, default_duration, *old(cursor)) <= u64::MAX,
    ensures
        r.start == spec_clip_start(*timeline_in, *old(cursor)),
        r.end == spec_clip_end(*timeline_in, *timeline_out, default_duration, *old(cursor)),
        *final(cursor) == r.end,
{
    let start = match timeline_in {
        Some(t) => *t,
        None => *cursor,
    };
    let end = match timeline_out {
        Some(t) if *t > start => *t,
        _ => start + default_duration,
    };
    *cursor = end;
    PositionedClip { start, end }
}

/// No two clips of one lane overlap.
pub open spec fn lane_disjoint(lane: Seq<PositionedClip>) -> bool {
    forall|i: int, j: int| 0 <= i < lane.len() && 0 <= j < lane.len() && i != j ==> !spec_overlap(#[trigger] lane[i], #[trigger] lane[j])
}

/// No lane holds two overlapping clips.
pub open spec fn lanes_disjoint(lanes: Seq<Vec<PositionedClip>>) -> bool {
    forall|k: int| 0 <= k < lanes.len() ==> lane_disjoint(#[trigger] lanes[k]@)
}

/// `clip` overlaps no clip of `lane`.
pub open spec fn fits(lane: Seq<PositionedClip>, clip: PositionedClip) -> bool {
    forall|i: int| 0 <= i < lane.len() ==> !spec_overlap(#[trigger] lane[i], clip)
}

/// Puts `clip` on the first lane where it overlaps nothing, opening a new
/// lane when there is none, and returns that lane's index.
pub fn assign_timeline_lane(lanes: &mut Vec<Vec<PositionedClip>>, clip: PositionedClip) -> (r: usize)
    ensures
        r <= old(lanes).len(),
        forall|k: int| 0 <= k < r ==> !fits(#[trigger] old(lanes)@[k]@, clip),
        r < old(lanes).len() ==> fits(old(lanes)@[r as int]@, clip)
            && final(lanes)@ == old(lanes)@.update(r as int, final(lanes)@[r as int])
            && final(lanes)@[r as int]@ == old(lanes)@[r as int]@.push(clip),
        r == old(lanes).len() ==> final(lanes)@.len() == old(lanes)@.len() + 1
            && final(lanes)@.take(r as int) == old(lanes)@
            && final(lanes)@[r as int]@ == seq![clip],
        lanes_disjoint(old(lanes)@) ==> lanes_disjoint(final(lanes)@),
{
    let ghost start = lanes@;
    let mut k: usize = 0;
    while k < lanes.len()
        invariant
            k <= lanes.len(),
            lanes@ == start,
            start == old(lanes)@,
            forall|j: int| 0 <= j < k ==> !fits(#[trigger] start[j]@, clip),
        decreases lanes.len() - k,
    {
        let mut all = true;
        let mut i: usize = 0;
        while i < lanes[k].len()
            invariant
                k < lanes.len(),
                lanes@ == start,
                i <= lanes@[k as int].len(),
                all == forall|m: int| 0 <= m < i ==> !spec_overlap(#[trigger] lanes@[k as int]@[m], clip),
            decreases lanes@[k as int].len() - i,
        {
            if positioned_clips_overlap(lanes[k][i], clip) {
                all = false;
            }
            i += 1;
        }
        if all {
            let mut lane: Vec<PositionedClip> = Vec::new();
            let mut m: usize = 0;
            while m < lanes[k].len()
                invariant
                    k < lanes.len(),
                    lanes@ == start,
                    m <= lanes@[k as int].len(),
                    lane@ == lanes@[k as int]@.take(m as int),
                decreases lanes@[k as int].len() - m,
            {
                lane.push(lanes[k][m]);
                assert(lanes@[k as int]@.take(m + 1) =~= lanes@[k as int]@.take(m as int).push(lanes@[k as int]@[m as int]));
                m += 1;
            }
            assert(lanes@[k as int]@.take(m as int) =~= lanes@[k as int]@);
            lane.push(clip);
            lanes.set(k, lane);
            proof {
                assert(lanes@ =~= start.update(k as int, lanes@[k as int]));
                if lanes_disjoint(start) {
                    assert forall|q: int| 0 <= q < lanes@.len() implies lane_disjoint(#[trigger] lanes@[q]@) by {
                        if q == k {
                            let l = lanes@[q]@;
                            assert forall|a: int, b: int| 0 <= a < l.len() && 0 <= b < l.len() && a != b implies !spec_overlap(#[trigger] l[a], #[trigger] l[b]) by {
                                if a < l.len() - 1 && b < l.len() - 1 {
                                    assert(lane_disjoint(start[q]@));
                                    assert(l[a] == start[q]@[a] && l[b] == start[q]@[b]);
                                } else if a == l.len() - 1 {
                                    assert(l[b] == start[q]@[b]);
                                    assert(!spec_overlap(start[q]@[b], clip));
                                } else {
                                    assert(l[a] == start[q]@[a]);
                                    assert(!spec_overlap(start[q]@[a], clip));
                                }
                            }
                        } else {
                            assert(lanes@[q] == start[q]);
                        }
                    }
                }
            }
            return k;
        }
        k += 1;
    }
    let mut fresh = Vec::new();
    fresh.push(clip);
    lanes.push(fresh);
    proof {
        assert(lanes@.take(k as int) =~= start);
        if lanes_disjoint(start) {
            assert forall|q: int| 0 <= q < lanes@.len() implies lane_disjoint(#[trigger] lanes@[q]@) by {
                if q < k {
                    assert(lanes@[q] == start[q]);
                }
            }
        }
    }
    k
}

/// Number of lanes a track needs: the lanes it filled, and at least one.
pub fn lane_count_for_track(lanes_by_track: &HashMap<usize, Vec<Vec<PositionedClip>>>, track_idx: usize) -> (r: usize)
    ensures
        r == if lanes_by_track@.contains_key(track_idx) && lanes_by_track@[track_idx]@.len() > 1 {
            lanes_by_track@[track_idx]@.len()
        } else {
            1
        },
{
    match lanes_by_track.get(&track_idx) {
        Some(lanes) => if lanes.len() > 1 { lanes.len() } else { 1 },
        None => 1,
    }
}

/// The name of lane `lane_idx` of VOD track `track_idx`.
pub open spec fn spec_vod_track_name(prefix: Seq<char>, track_idx: nat, lane_idx: nat) -> Seq<char> {
    if lane_idx == 0 {
        prefix + "_"@ + decimal(track_idx)
    } else {
        prefix + "_"@ + decimal(track_idx) + "_overlap_"@ + decimal(lane_idx)
    }
}

/// Name of the draft track that holds lane `lane_idx` of VOD track
/// `track_idx`: `<prefix>_<track>` for the first lane,
/// `<prefix>_<track>_overlap_<lane>` for the others.
pub fn vod_track_name(prefix: &str, track_idx: usize, lane_idx: usize) -> (r: String)
    ensures
        r@ == spec_vod_track_name(prefix@, track_idx as nat, lane_idx as nat),
{
    let mut v = chars_of(prefix);
    push_str(&mut v, "_");
    let mut t = decimal_vec(track_idx as u128);
    v.append(&mut t);
    if lane_idx != 0 {
        push_str(&mut v, "_overlap_");
        let mut l = decimal_vec(lane_idx as u128);
        v.append(&mut l);
    }
    string_from_chars(&v)
}

/// The render-index offset of lane `lane_idx` of track `track_idx`: lanes
/// beyond the first are stacked above all the base tracks of their kind.
pub open spec fn spec_render_index_offset(track_idx: nat, lane_idx: nat, base_track_count: nat, base_offset: int) -> int {
    base_offset + track_idx + lane_idx * (if base_track_count > 1 { base_track_count } else { 1 })
}

/// Render-index offset of a lane: `base_offset + track_idx + lane_idx * max(base_track_count, 1)`.
/// The stacked part and the sum must each fit in an `i32`.
pub fn render_index_offset(track_idx: usize, lane_idx: usize, base_track_count: usize, base_offset: i32) -> (r: i32)
    requires
        track_idx + lane_idx * (if base_track_count > 1 { base_track_count as int } else { 1 }) <= i32::MAX,
        i32::MIN <= spec_render_index_offset(track_idx as nat, lane_idx as nat, base_track_count as nat, base_offset as int) <= i32::MAX,
    ensures
        r == spec_render_index_offset(track_idx as nat, lane_idx as nat, base_track_count as nat, base_offset as int),
{
    let count: usize = if base_track_count > 1 { base_track_count } else { 1 };
    assert(lane_idx * count <= i32::MAX) by (nonlinear_arith)
        requires
            track_idx + lane_idx * count <= i32::MAX,
            track_idx >= 0;
    let stacked = lane_idx as u64 * count as u64;
    let offset = track_idx as u64 + stacked;
    base_offset + offset as i32
}

/// Lanes never collide: two different (track, lane) pairs of tracks among
/// the `base_track_count` base tracks get different render-index offsets.
pub proof fn lemma_render_offsets_distinct(t1: nat, l1: nat, t2: nat, l2: nat, base_track_count: nat, base_offset: int)
    requires
        t1 < base_track_count,
        t2 < base_track_count,
        t1 != t2 || l1 != l2,
    ensures
        spec_render_index_offset(t1, l1, base_track_count, base_offset)
            != spec_render_index_offset(t2, l2, base_track_count, base_offset),
{
    let c: int = if base_track_count > 1 { base_track_count as int } else { 1 };
    assert(t1 < c && t2 < c);
    if l1 < l2 {
        assert(l1 * c + c <= l2 * c) by (nonlinear_arith) requires l1 < l2, c > 0;
    } else if l2 < l1 {
        assert(l2 * c + c <= l1 * c) by (nonlinear_arith) requires l2 < l1, c > 0;
    }
}

/// A clip of a VOD video track.
#[derive(Debug, Clone, PartialEq, Eq)]
pub struct VodVisualClip {
    /// `GlobalImage` marks a watermark overlay, left to the editor.
    pub clip_type: Option<String>,
    pub media_url: String,
    /// Start on the timeline, in microseconds.
    pub timeline_in: Option<u64>,
    /// End on the timeline, in microseconds.
    pub timeline_out: Option<u64>,
    pub adapt_mode: Option<String>,
}

/// A clip of a VOD audio track.
#[derive(Debug, Clone, PartialEq, Eq)]
pub struct VodAudioClipDef {
    pub media_url: String,
    /// Start on the timeline, in microseconds.
    pub timeline_in: Option<u64>,
    /// End on the timeline, in microseconds.
    pub timeline_out: Option<u64>,
}

/// A VOD video track.
#[derive(Debug, Clone, PartialEq, Eq)]
pub struct VodVideoTrack {
    pub clips: Vec<VodVisualClip>,
}

/// A VOD audio track.
#[derive(Debug, Clone, PartialEq, Eq)]
pub struct VodAudioTrack {
    pub clips: Vec<VodAudioClipDef>,
}

/// A subtitle cue of a VOD subtitle track, with the values the placement
/// reads; its look (sizes, offsets, colours) is converted elsewhere.
#[derive(Debug, Clone, PartialEq, Eq)]
pub struct VodSubtitleClip {
    pub content: String,
    /// Start on the timeline, in microseconds.
    pub timeline_in: u64,
    /// End on the timeline, in microseconds.
    pub timeline_out: u64,
    pub adapt_mode: Option<String>,
}

/// A VOD subtitle track.
#[derive(Debug, Clone, PartialEq, Eq)]
pub struct VodSubtitleTrack {
    pub clips: Vec<VodSubtitleClip>,
}

/// A canvas or output size of a VOD project.
#[derive(Debug, Clone, Copy, PartialEq, Eq)]
pub struct VodSize {
    pub width: u32,
    pub height: u32,
}

/// An Alibaba Cloud VOD timeline.
#[derive(Debug, Clone, PartialEq, Eq)]
pub struct VodProject {
    pub fe_canvas: Option<VodSize>,
    pub output_media_config: Option<VodSize>,
    pub subtitle_tracks: Vec<VodSubtitleTrack>,
    pub video_tracks: Vec<VodVideoTrack>,
    pub audio_tracks: Vec<VodAudioTrack>,
}

/// The draft canvas for a VOD project: its editor canvas, else its output
/// size, at 30 frames per second; the default canvas when it has neither.
pub open spec fn spec_resolve_canvas(p: VodProject) -> Canvas {
    match p.fe_canvas {
        Some(c) => Canvas { width: c.width, height: c.height, fps: 30 },
        None => match p.output_media_config {
            Some(o) => Canvas { width: o.width, height: o.height, fps: 30 },
            None => Canvas::spec_default(),
        },
    }
}

/// The draft canvas for a VOD project.
pub fn resolve_canvas(project: &VodProject) -> (c: Canvas)
    ensures
        c == spec_resolve_canvas(*project),
{
    if let Some(canvas) = &project.fe_canvas {
        Canvas::new(canvas.width, canvas.height, 30)
    } else if let Some(output) = &project.output_media_config {
        Canvas::new(output.width, output.height, 30)
    } else {
        Canvas::default()
    }
}

/// Whether a VOD subtitle adapt mode asks for automatic line wrapping.
pub open spec fn spec_is_auto_wrapping(adapt_mode: Option<Seq<char>>) -> bool {
    adapt_mode == Some("AutoWrap"@) || adapt_mode == Some("AutoWrapAtSpaces"@)
}

/// Whether the adapt mode `AutoWrap` or `AutoWrapAtSpaces` is given.
pub fn is_auto_wrapping_adapt_mode(adapt_mode: Option<&str>) -> (r: bool)
    ensures
        r == spec_is_auto_wrapping(match adapt_mode { Some(m) => Some(m@), None => None }),
{
    match adapt_mode {
        Some(m) => crate::text::str_eq(m, "AutoWrap") || crate::text::str_eq(m, "AutoWrapAtSpaces"),
        None => false,
    }
}

/// The address points at an HTTP or HTTPS resource.
pub open spec fn is_remote(url: Seq<char>) -> bool {
    starts_with(url, "http://"@) || starts_with(url, "https://"@)
}

/// The clip is a global image (a watermark), which is not converted.
pub open spec fn is_global_image(clip_type: Option<String>) -> bool {
    match clip_type {
        Some(t) => eq_ignore_ascii_case(t@, "GlobalImage"@),
        None => false,
    }
}

/// Media addresses of the converted clips of a list of visual clips.
pub open spec fn visual_urls(clips: Seq<VodVisualClip>) -> Seq<Seq<char>>
    decreases clips.len(),
{
    if clips.len() == 0 {
        Seq::empty()
    } else if is_global_image(clips.last().clip_type) {
        visual_urls(clips.drop_last())
    } else {
        visual_urls(clips.drop_last()).push(clips.last().media_url@)
    }
}

/// Media addresses of the converted clips of the video tracks, in order.
pub open spec fn video_track_urls(tracks: Seq<VodVideoTrack>) -> Seq<Seq<char>>
    decreases tracks.len(),
{
    if tracks.len() == 0 {
        Seq::empty()
    } else {
        video_track_urls(tracks.drop_last()) + visual_urls(tracks.last().clips@)
    }
}

/// Media addresses of a list of audio clips.
pub open spec fn audio_urls(clips: Seq<VodAudioClipDef>) -> Seq<Seq<char>> {
    clips.map_values(|c: VodAudioClipDef| c.media_url@)
}

/// Media addresses of the clips of the audio tracks, in order.
pub open spec fn audio_track_urls(tracks: Seq<VodAudioTrack>) -> Seq<Seq<char>>
    decreases tracks.len(),
{
    if tracks.len() == 0 {
        Seq::empty()
    } else {
        audio_track_urls(tracks.drop_last()) + audio_urls(tracks.last().clips@)
    }
}

/// The remote addresses of `urls`, each kept at its first occurrence only.
pub open spec fn unique_remote(urls: Seq<Seq<char>>) -> Seq<Seq<char>>
    decreases urls.len(),
{
    if urls.len() == 0 {
        Seq::empty()
    } else {
        let r = unique_remote(urls.drop_last());
        if is_remote(urls.last()) && !r.contains(urls.last()) {
            r.push(urls.last())
        } else {
            r
        }
    }
}

/// The remote media a VOD project needs, each listed once, in the order the
/// video tracks and then the audio tracks first name them.
pub open spec fn spec_remote_sources(p: VodProject) -> Seq<Seq<char>> {
    unique_remote(video_track_urls(p.video_tracks@) + audio_track_urls(p.audio_tracks@))
}

/// Whether `v` holds `s`.
fn contains_string(v: &Vec<Vec<char>>, s: &Vec<char>) -> (r: bool)
    ensures
        r == crate::chars::views(v@).contains(s@),
{
    let mut i: usize = 0;
    while i < v.len()
        invariant
            i <= v.len(),
            forall|j: int| 0 <= j < i ==> crate::chars::views(v@)[j] != s@,
        decreases v.len() - i,
    {
        if crate::text::seq_eq(&v[i], s) {
            assert(crate::chars::views(v@)[i as int] == s@);
            return true;
        }
        i += 1;
    }
    false
}

/// Adds `url` to the remote addresses found so far.
fn note_remote(found: &mut Vec<Vec<char>>, url: &String, Ghost(seen): Ghost<Seq<Seq<char>>>)
    requires
        crate::chars::views(old(found)@) == unique_remote(seen),
    ensures
        crate::chars::views(final(found)@) == unique_remote(seen.push(url@)),
{
    let u = chars_of(url.as_str());
    let http = chars_of("http://");
    let https = chars_of("https://");
    assert(seen.push(url@).drop_last() =~= seen);
    if crate::chars::occurs_at(&u, &http, 0) || crate::chars::occurs_at(&u, &https, 0) {
        assert(u@.skip(0) =~= u@);
        if !contains_string(found, &u) {
            let ghost prev = crate::chars::views(found@);
            found.push(u);
            assert(crate::chars::views(found@) =~= prev.push(url@));
        }
    } else {
        assert(u@.skip(0) =~= u@);
    }
}

/// Whether a clip type marks a global image.
fn clip_is_global_image(clip_type: &Option<String>) -> (r: bool)
    ensures
        r == is_global_image(*clip_type),
{
    match clip_type {
        Some(t) => {
            let tv = chars_of(t.as_str());
            let g = chars_of("GlobalImage");
            vec_eq_ignore_ascii_case(&tv, &g)
        },
        None => false,
    }
}

/// The remote media addresses of a VOD project, each once, in the order the
/// video tracks (global images aside) and then the audio tracks first name them.
pub fn collect_remote_sources(project: &VodProject) -> (r: Vec<String>)
    ensures
        r@.map_values(|s: String| s@) == spec_remote_sources(*project),
{
    let mut found: Vec<Vec<char>> = Vec::new();
    let ghost mut seen: Seq<Seq<char>> = Seq::empty();
    let mut t: usize = 0;
    assert(project.video_tracks@.take(0) =~= Seq::<VodVideoTrack>::empty());
    while t < project.video_tracks.len()
        invariant
            t <= project.video_tracks.len(),
            seen == video_track_urls(project.video_tracks@.take(t as int)),
            crate::chars::views(found@) == unique_remote(seen),
        decreases project.video_tracks.len() - t,
    {
        let clips = &project.video_tracks[t].clips;
        let ghost base = seen;
        let mut c: usize = 0;
        assert(clips@.take(0) =~= Seq::<VodVisualClip>::empty());
        assert(base + visual_urls(clips@.take(0)) =~= base);
        while c < clips.len()
            invariant
                c <= clips.len(),
                seen == base + visual_urls(clips@.take(c as int)),
                crate::chars::views(found@) == unique_remote(seen),
            decreases clips.len() - c,
        {
            assert(clips@.take(c + 1).drop_last() =~= clips@.take(c as int));
            if !clip_is_global_image(&clips[c].clip_type) {
                note_remote(&mut found, &clips[c].media_url, Ghost(seen));
                proof {
                    seen = seen.push(clips[c as int].media_url@);
                }
                assert(seen =~= base + visual_urls(clips@.take(c + 1)));
            } else {
                assert(seen =~= base + visual_urls(clips@.take(c + 1)));
            }
            c += 1;
        }
        assert(clips@.take(c as int) =~= clips@);
        assert(project.video_tracks@.take(t + 1).drop_last() =~= project.video_tracks@.take(t as int));
        t += 1;
    }
    assert(project.video_tracks@.take(t as int) =~= project.video_tracks@);
    let ghost vurls = seen;
    let mut a: usize = 0;
    assert(project.audio_tracks@.take(0) =~= Seq::<VodAudioTrack>::empty());
    assert(vurls + audio_track_urls(project.audio_tracks@.take(0)) =~= vurls);
    while a < project.audio_tracks.len()
        invariant
            a <= project.audio_tracks.len(),
            seen == vurls + audio_track_urls(project.audio_tracks@.take(a as int)),
            crate::chars::views(found@) == unique_remote(seen),
        decreases project.audio_tracks.len() - a,
    {
        let clips = &project.audio_tracks[a].clips;
        let ghost base = seen;
        let mut c: usize = 0;
        assert(audio_urls(clips@.take(0)) =~= Seq::<Seq<char>>::empty());
        assert(base + audio_urls(clips@.take(0)) =~= base);
        while c < clips.len()
            invariant
                c <= clips.len(),
                seen == base + audio_urls(clips@.take(c as int)),
                crate::chars::views(found@) == unique_remote(seen),
            decreases clips.len() - c,
        {
            note_remote(&mut found, &clips[c].media_url, Ghost(seen));
            proof {
                seen = seen.push(clips[c as int].media_url@);
            }
            assert(audio_urls(clips@.take(c + 1)) =~= audio_urls(clips@.take(c as int)).push(clips[c as int].media_url@));
            assert(seen =~= base + audio_urls(clips@.take(c + 1)));
            c += 1;
        }
        assert(clips@.take(c as int) =~= clips@);
        assert(project.audio_tracks@.take(a + 1).drop_last() =~= project.audio_tracks@.take(a as int));
        assert(seen =~= vurls + audio_track_urls(project.audio_tracks@.take(a + 1)));
        a += 1;
    }
    assert(project.audio_tracks@.take(a as int) =~= project.audio_tracks@);
    let mut out: Vec<String> = Vec::new();
    let mut i: usize = 0;
    while i < found.len()
        invariant
            i <= found.len(),
            out@.map_values(|s: String| s@) == crate::chars::views(found@).take(i as int),
        decreases found.len() - i,
    {
        let s = string_from_chars(&found[i]);
        let ghost prev = out@.map_values(|s: String| s@);
        out.push(s);
        assert(out@.map_values(|s: String| s@) =~= prev.push(found@[i as int]@));
        assert(crate::chars::views(found@).take(i + 1) =~= crate::chars::views(found@).take(i as int).push(found@[i as int]@));
        i += 1;
    }
    assert(crate::chars::views(found@).take(i as int) =~= crate::chars::views(found@));
    out
}

/// The addresses `unique_remote` keeps are remote, distinct, and include
/// every remote address of its input.
pub proof fn lemma_unique_remote(urls: Seq<Seq<char>>)
    ensures
        forall|i: int| 0 <= i < unique_remote(urls).len() ==> is_remote(#[trigger] unique_remote(urls)[i]) && urls.contains(unique_remote(urls)[i]),
        forall|i: int, j: int| 0 <= i < j < unique_remote(urls).len() ==> unique_remote(urls)[i] != unique_remote(urls)[j],
        forall|u: Seq<char>| #[trigger] urls.contains(u) && is_remote(u) ==> unique_remote(urls).contains(u),
    decreases urls.len(),
{
    if urls.len() > 0 {
        let d = urls.drop_last();
        lemma_unique_remote(d);
        let r = unique_remote(d);
        assert forall|i: int| 0 <= i < r.len() implies urls.contains(#[trigger] r[i]) by {
            let k = choose|k: int| 0 <= k < d.len() && d[k] == r[i];
            assert(urls[k] == r[i]);
        }
        assert forall|u: Seq<char>| #[trigger] urls.contains(u) && is_remote(u) implies unique_remote(urls).contains(u) by {
            let k = choose|k: int| 0 <= k < urls.len() && urls[k] == u;
            if k < urls.len() - 1 {
                assert(d[k] == u);
                assert(d.contains(u));
                let q = choose|q: int| 0 <= q < r.len() && r[q] == u;
                if unique_remote(urls) != r {
                    assert(unique_remote(urls)[q] == u);
                }
            } else {
                if r.contains(u) {
                    let q = choose|q: int| 0 <= q < r.len() && r[q] == u;
                    if unique_remote(urls) != r {
                        assert(unique_remote(urls)[q] == u);
                    }
                } else {
                    assert(unique_remote(urls).last() == u);
                }
            }
        }
        assert(urls.contains(urls.last())) by { assert(urls[urls.len() - 1] == urls.last()); }
    }
}

/// Whether a media address names an HTTP or HTTPS resource to download.
pub fn is_remote_source(source: &str) -> (r: bool)
    ensures
        r == is_remote(source@),
{
    let u = chars_of(source);
    let http = chars_of("http://");
    let https = chars_of("https://");
    assert(u@.skip(0) =~= u@);
    crate::chars::occurs_at(&u, &http, 0) || crate::chars::occurs_at(&u, &https, 0)
}

/// The bytes between two progress reports of a download: a twentieth of
/// its size (at least one byte) when the size is known, else 2 MiB.
pub open spec fn spec_report_step(total: Option<u64>) -> int {
    match total {
        Some(t) => if t / 20 > 1 { (t / 20) as int } else { 1int },
        None => 2097152int,
    }
}

/// The byte count at which a download first reports progress.
pub fn first_report_at(total: Option<u64>) -> (r: u64)
    ensures
        r == spec_report_step(total),
{
    match total {
        Some(t) => if t / 20 > 1 { t / 20 } else { 1 },
        None => 2 * 1024 * 1024,
    }
}

/// The byte count at which a download reports progress next, after a
/// report due at `current`: one step further, but not past the size.
pub fn next_report_at(total: Option<u64>, current: u64) -> (r: u64)
    requires
        current + spec_report_step(total) <= u64::MAX,
    ensures
        r == match total {
            Some(t) => if current + spec_report_step(total) < t { current + spec_report_step(total) } else { t as int },
            None => current + spec_report_step(total),
        },
{
    let step = first_report_at(total);
    let next = current + step;
    match total {
        Some(t) => if next < t { next } else { t },
        None => next,
    }
}

} // verus!
