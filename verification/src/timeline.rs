//! The clips of a `timeline_package`: their time ranges and the assets they
//! play.
//!
//! Times are microseconds; the timeline file may write them as integers,
//! seconds or time strings, which are read before they reach here.

use vstd::prelude::*;
use crate::model::TimeRange;
use crate::text::str_eq;

verus! {

/// The type of a timeline clip.
#[derive(Debug, Clone, Copy, PartialEq, Eq)]
pub enum ImportClipType {
    Video,
    Audio,
    Image,
    Text,
}

/// What a timeline asset was loaded as.
#[derive(Debug, Clone, Copy, PartialEq, Eq)]
pub enum LoadedAsset {
    /// A video or image material.
    Visual,
    Audio,
}

/// A clip of a timeline track.
#[derive(Debug, Clone, PartialEq, Eq)]
pub struct TimelineClipSpec {
    pub clip_type: ImportClipType,
    pub asset_id: Option<String>,
    pub timeline_in: u64,
    pub timeline_out: u64,
    pub source_in: Option<u64>,
    pub source_out: Option<u64>,
    pub text: Option<String>,
}

/// Why a timeline clip could not be built.
#[derive(Debug, Clone, PartialEq, Eq)]
pub enum TimelineClipError {
    /// The clip does not end after it starts on the timeline.
    TargetNotAfterStart,
    /// The clip's source part does not end after it starts.
    SourceNotAfterStart,
    /// Only one of the source's start and end is given.
    SourceUnpaired,
    /// The clip names no asset.
    MissingAssetId,
    /// The video or image clip names an audio asset.
    AssetIsAudio(String),
    /// The audio clip names a video or image asset.
    AssetIsVisual(String),
    /// No asset has the clip's asset id.
    AssetNotFound(String),
    /// The text clip has no text.
    MissingText,
}

/// The span from `start` to `end`, when it ends after it starts.
pub open spec fn spec_time_range(start: u64, end: u64) -> Option<TimeRange> {
    if end <= start { None } else { Some(TimeRange { start, duration: (end - start) as u64 }) }
}

/// The span from `start` to `end`; `None` when it does not end after it starts.
pub fn build_time_range(start: u64, end: u64) -> (r: Option<TimeRange>)
    ensures
        r == spec_time_range(start, end),
{
    if end <= start {
        None
    } else {
        Some(TimeRange { start, duration: end - start })
    }
}

/// The index of the last asset carrying `id`: a later asset with the same
/// id replaces an earlier one.
pub open spec fn last_with_id(ids: Seq<Seq<char>>, id: Seq<char>) -> Option<int>
    decreases ids.len(),
{
    if ids.len() == 0 {
        None
    } else if ids.last() == id {
        Some(ids.len() - 1)
    } else {
        last_with_id(ids.drop_last(), id)
    }
}

/// What a clip is built from: where it plays, which part of its material
/// plays (if given), and the index of the asset it plays (none for text).
#[derive(Debug, Clone, Copy, PartialEq, Eq)]
pub struct ClipPlan {
    pub target: TimeRange,
    pub source: Option<TimeRange>,
    pub asset: Option<usize>,
}

/// The asset a clip of type `ty` plays, by id: video and image clips need a
/// visual asset, audio clips an audio one.
pub open spec fn spec_lookup(ty: ImportClipType, asset_id: Option<Seq<char>>, ids: Seq<Seq<char>>, kinds: Seq<LoadedAsset>) -> Result<int, TimelineClipError> {
    match asset_id {
        None => Err(TimelineClipError::MissingAssetId),
        Some(id) => match last_with_id(ids, id) {
            None => Err(TimelineClipError::AssetNotFound(id_string(id))),
            Some(i) => if ty == ImportClipType::Audio {
                if kinds[i] == LoadedAsset::Audio { Ok(i) } else { Err(TimelineClipError::AssetIsVisual(id_string(id))) }
            } else {
                if kinds[i] == LoadedAsset::Visual { Ok(i) } else { Err(TimelineClipError::AssetIsAudio(id_string(id))) }
            },
        },
    }
}

/// A string with the given characters.
pub open spec fn id_string(id: Seq<char>) -> String {
    choose|s: String| s@ == id
}

/// The plan of a clip: its timeline span must end after it starts; a source
/// part must be given whole and end after it starts; media clips need an
/// asset of their kind, text clips a text.
pub open spec fn spec_plan_clip(clip: TimelineClipSpec, ids: Seq<Seq<char>>, kinds: Seq<LoadedAsset>) -> Result<ClipPlan, TimelineClipError> {
    match spec_time_range(clip.timeline_in, clip.timeline_out) {
        None => Err(TimelineClipError::TargetNotAfterStart),
        Some(target) => {
            let source: Result<Option<TimeRange>, TimelineClipError> = match (clip.source_in, clip.source_out) {
                (Some(s), Some(e)) => match spec_time_range(s, e) {
                    None => Err(TimelineClipError::SourceNotAfterStart),
                    Some(r) => Ok(Some(r)),
                },
                (None, None) => Ok(None),
                _ => Err(TimelineClipError::SourceUnpaired),
            };
            match source {
                Err(e) => Err(e),
                Ok(src) => if clip.clip_type == ImportClipType::Text {
                    if clip.text is None {
                        Err(TimelineClipError::MissingText)
                    } else {
                        Ok(ClipPlan { target, source: src, asset: None })
                    }
                } else {
                    match spec_lookup(clip.clip_type, match clip.asset_id { Some(a) => Some(a@), None => None }, ids, kinds) {
                        Err(e) => Err(e),
                        Ok(i) => Ok(ClipPlan { target, source: src, asset: Some(i as usize) }),
                    }
                },
            }
        },
    }
}

/// The views of the asset ids.
pub open spec fn id_views(ids: Seq<String>) -> Seq<Seq<char>> {
    ids.map_values(|s: String| s@)
}

fn lookup(ty: ImportClipType, asset_id: &Option<String>, ids: &Vec<String>, kinds: &Vec<LoadedAsset>) -> (r: Result<usize, TimelineClipError>)
    requires
        ids.len() == kinds.len(),
    ensures
        match spec_lookup(ty, match asset_id { Some(a) => Some(a@), None => None }, id_views(ids@), kinds@) {
            Ok(i) => r == Ok::<usize, TimelineClipError>(i as usize),
            Err(TimelineClipError::MissingAssetId) => r == Err::<usize, TimelineClipError>(TimelineClipError::MissingAssetId),
            Err(TimelineClipError::AssetNotFound(s)) => r matches Err(TimelineClipError::AssetNotFound(t)) && t@ == s@,
            Err(TimelineClipError::AssetIsAudio(s)) => r matches Err(TimelineClipError::AssetIsAudio(t)) && t@ == s@,
            Err(TimelineClipError::AssetIsVisual(s)) => r matches Err(TimelineClipError::AssetIsVisual(t)) && t@ == s@,
            Err(_) => false,
        },
{
    let id = match asset_id {
        None => return Err(TimelineClipError::MissingAssetId),
        Some(a) => a,
    };
    let ghost iv = id_views(ids@);
    let mut k: usize = ids.len();
    assert(iv.take(k as int) =~= iv);
    while k > 0
        invariant
            k <= ids.len(),
            ids.len() == kinds.len(),
            *asset_id == Some(*id),
            iv == id_views(ids@),
            last_with_id(iv, id@) == last_with_id(iv.take(k as int), id@),
        decreases k,
    {
        assert(iv.take(k as int).drop_last() =~= iv.take(k - 1));
        assert(iv.take(k as int).last() == ids@[k - 1]@);
        if str_eq(ids[k - 1].as_str(), id.as_str()) {
            let i = k - 1;
            assert(iv.take(k as int).last() == id@);
            assert(last_with_id(iv, id@) == Some(i as int));
            let ghost s = id_string(id@);
            assert(exists|t: String| t@ == id@);
            assert(s@ == id@);
            let ok = match ty {
                ImportClipType::Audio => matches!(kinds[i], LoadedAsset::Audio),
                _ => matches!(kinds[i], LoadedAsset::Visual),
            };
            assert(ok == (if ty == ImportClipType::Audio { kinds@[i as int] == LoadedAsset::Audio } else { kinds@[i as int] == LoadedAsset::Visual }));
            if ok {
                assert(spec_lookup(ty, Some(id@), iv, kinds@) == Ok::<int, TimelineClipError>(i as int));
                return Ok(i);
            }
            return match ty {
                ImportClipType::Audio => Err(TimelineClipError::AssetIsVisual(id.clone())),
                _ => Err(TimelineClipError::AssetIsAudio(id.clone())),
            };
        }
        k -= 1;
    }
    assert(iv.take(0) =~= Seq::<Seq<char>>::empty());
    proof {
        let ghost s = id_string(id@);
        assert(exists|t: String| t@ == id@);
    }
    Err(TimelineClipError::AssetNotFound(id.clone()))
}

/// The views of a clip plan result, errors compared by their texts.
pub open spec fn plan_matches(r: Result<ClipPlan, TimelineClipError>, s: Result<ClipPlan, TimelineClipError>) -> bool {
    match s {
        Ok(p) => r == Ok::<ClipPlan, TimelineClipError>(p),
        Err(TimelineClipError::AssetNotFound(x)) => r matches Err(TimelineClipError::AssetNotFound(y)) && y@ == x@,
        Err(TimelineClipError::AssetIsAudio(x)) => r matches Err(TimelineClipError::AssetIsAudio(y)) && y@ == x@,
        Err(TimelineClipError::AssetIsVisual(x)) => r matches Err(TimelineClipError::AssetIsVisual(y)) && y@ == x@,
        Err(e) => r == Err::<ClipPlan, TimelineClipError>(e),
    }
}

/// A planned clip runs exactly from its timeline in-point to its out-point,
/// and plays its source from its source in-point to its out-point when it
/// names them.
pub proof fn lemma_clip_plan_spans(clip: TimelineClipSpec, ids: Seq<Seq<char>>, kinds: Seq<LoadedAsset>)
    ensures
        spec_plan_clip(clip, ids, kinds) matches Ok(p) ==> p.target.start == clip.timeline_in
            && p.target.start + p.target.duration == clip.timeline_out && clip.timeline_in < clip.timeline_out,
        spec_plan_clip(clip, ids, kinds) matches Ok(p) ==> (p.source matches Some(src) ==> clip.source_in == Some(src.start)
            && clip.source_out == Some((src.start + src.duration) as u64) && src.duration > 0),
        spec_plan_clip(clip, ids, kinds) matches Ok(p) ==> (p.source is None <==> clip.source_in is None),
{
}

/// Plans a clip of a timeline package against its loaded assets (`ids[i]`
/// loaded as `kinds[i]`; a later asset with an id replaces an earlier one):
/// see [`spec_plan_clip`].
pub fn plan_timeline_clip(clip: &TimelineClipSpec, ids: &Vec<String>, kinds: &Vec<LoadedAsset>) -> (r: Result<ClipPlan, TimelineClipError>)
    requires
        ids.len() == kinds.len(),
    ensures
        plan_matches(r, spec_plan_clip(*clip, id_views(ids@), kinds@)),
        r matches Ok(p) ==> p.target.start == clip.timeline_in && p.target.start + p.target.duration == clip.timeline_out,
        r matches Ok(p) ==> (p.source matches Some(src) ==> clip.source_in == Some(src.start)
            && clip.source_out == Some((src.start + src.duration) as u64)),
        r matches Ok(p) ==> (p.source is None <==> clip.source_in is None),
{
    proof {
        lemma_clip_plan_spans(*clip, id_views(ids@), kinds@);
    }
    let target = match build_time_range(clip.timeline_in, clip.timeline_out) {
        None => return Err(TimelineClipError::TargetNotAfterStart),
        Some(t) => t,
    };
    let source = match (clip.source_in, clip.source_out) {
        (Some(s), Some(e)) => match build_time_range(s, e) {
            None => return Err(TimelineClipError::SourceNotAfterStart),
            Some(r) => Some(r),
        },
        (None, None) => None,
        _ => return Err(TimelineClipError::SourceUnpaired),
    };
    if matches!(clip.clip_type, ImportClipType::Text) {
        if clip.text.is_none() {
            return Err(TimelineClipError::MissingText);
        }
        return Ok(ClipPlan { target, source, asset: None });
    }
    match lookup(clip.clip_type, &clip.asset_id, ids, kinds) {
        Err(e) => Err(e),
        Ok(i) => Ok(ClipPlan { target, source, asset: Some(i) }),
    }
}

/// The render-index offset of a timeline track: how far its given render
/// index lies above the default of its kind; none when it gives none.
pub fn track_render_index_offset(render_index: Option<i32>, default_render: i32) -> (r: i32)
    requires
        render_index matches Some(ri) ==> i32::MIN <= ri - default_render <= i32::MAX,
    ensures
        r == match render_index {
            Some(ri) => ri - default_render,
            None => 0,
        },
{
    match render_index {
        Some(ri) => ri - default_render,
        None => 0,
    }
}

} // verus!
