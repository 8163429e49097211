//! Bundles: their kinds, what importing one reports, and what inspecting
//! one reports.

use vstd::prelude::*;
use crate::pipeline::{PipelineTrackKind, PipelineTrackSpec};

verus! {

broadcast use vstd::string::group_string_axioms;

/// The layout of a bundle.
#[derive(Debug, Clone, Copy, PartialEq, Eq)]
pub enum BundleType {
    /// A timeline file with assets and tracks; the default.
    TimelinePackage,
    /// A ready draft whose material paths are rebound.
    DraftPackage,
    /// Videos stitched end to end with subtitles.
    SimpleTimelinePackage,
    /// The output of a production pipeline.
    PipelinePackage,
}

impl BundleType {
    /// The type's name in manifests and reports.
    pub fn as_str(&self) -> (r: &'static str)
        ensures
            r@ == match *self {
                BundleType::TimelinePackage => "timeline_package"@,
                BundleType::DraftPackage => "draft_package"@,
                BundleType::SimpleTimelinePackage => "simple_timeline_package"@,
                BundleType::PipelinePackage => "pipeline_package"@,
            },
    {
        match self {
            BundleType::TimelinePackage => "timeline_package",
            BundleType::DraftPackage => "draft_package",
            BundleType::SimpleTimelinePackage => "simple_timeline_package",
            BundleType::PipelinePackage => "pipeline_package",
        }
    }
}

impl Default for BundleType {
    fn default() -> (r: BundleType)
        ensures
            r == BundleType::TimelinePackage,
    {
        BundleType::TimelinePackage
    }
}

/// The kind of a bundle asset.
#[derive(Debug, Clone, Copy, PartialEq, Eq)]
pub enum AssetKind {
    Video,
    Audio,
    Image,
}

impl AssetKind {
    /// The kind's name in manifests and reports.
    pub fn as_str(&self) -> (r: &'static str)
        ensures
            r@ == match *self {
                AssetKind::Video => "video"@,
                AssetKind::Audio => "audio"@,
                AssetKind::Image => "image"@,
            },
    {
        match self {
            AssetKind::Video => "video",
            AssetKind::Audio => "audio",
            AssetKind::Image => "image",
        }
    }
}

/// What an import reports.
#[derive(Debug, Clone, PartialEq, Eq)]
pub struct ImportBundleSummary {
    pub source: String,
    pub bundle_root: String,
    pub bundle_type: String,
    pub timeline_file: Option<String>,
    pub source_draft_dir: Option<String>,
    pub draft_dir: String,
    pub project_id: String,
    pub name: String,
    /// Duration of the draft in microseconds.
    pub duration: u64,
    pub track_count: usize,
    pub asset_count: usize,
    pub video_material_count: usize,
    pub audio_material_count: usize,
}

/// What inspecting a bundle reports.
#[derive(Debug, Clone, PartialEq, Eq)]
pub struct BundleInspection {
    pub source: String,
    pub bundle_root: String,
    pub bundle_type: String,
    pub timeline_file: Option<String>,
    pub source_draft_dir: Option<String>,
    pub project_id: Option<String>,
    pub project_name: Option<String>,
    pub asset_count: usize,
    pub track_count: usize,
    /// The kind of each asset, in order.
    pub asset_kinds: Vec<String>,
}

/// The name a draft takes: the one asked for, else the project's, else the
/// bundle's, else `imported_bundle`.
pub open spec fn spec_project_name(asked: Option<Seq<char>>, project: Option<Seq<char>>, bundle: Option<Seq<char>>) -> Seq<char> {
    match asked {
        Some(n) => n,
        None => match project {
            Some(n) => n,
            None => match bundle {
                Some(n) => n,
                None => "imported_bundle"@,
            },
        },
    }
}

/// The view of an optional text.
pub open spec fn opt_view(s: Option<String>) -> Option<Seq<char>> {
    match s {
        Some(x) => Some(x@),
        None => None,
    }
}

/// The name a draft takes (see [`spec_project_name`]).
pub fn project_name(asked: Option<String>, project: Option<String>, bundle: Option<String>) -> (r: String)
    ensures
        r@ == spec_project_name(opt_view(asked), opt_view(project), opt_view(bundle)),
{
    match asked {
        Some(n) => n,
        None => match project {
            Some(n) => n,
            None => match bundle {
                Some(n) => n,
                None => "imported_bundle".to_string(),
            },
        },
    }
}

/// `n` copies of the text `kind`.
pub open spec fn repeated(kind: Seq<char>, n: nat) -> Seq<Seq<char>> {
    Seq::new(n, |i: int| kind)
}

/// The views of a list of texts.
pub open spec fn string_views(v: Seq<String>) -> Seq<Seq<char>> {
    v.map_values(|s: String| s@)
}

fn push_repeated(out: &mut Vec<String>, kind: &str, n: usize)
    ensures
        string_views(final(out)@) == string_views(old(out)@) + repeated(kind@, n as nat),
{
    let ghost start = string_views(out@);
    let mut i: usize = 0;
    assert(start + repeated(kind@, 0) =~= start);
    while i < n
        invariant
            i <= n,
            string_views(out@) == start + repeated(kind@, i as nat),
        decreases n - i,
    {
        let ghost prev = out@;
        out.push(kind.to_string());
        assert(string_views(out@) =~= string_views(prev).push(kind@));
        assert(start + repeated(kind@, (i + 1) as nat) =~= (start + repeated(kind@, i as nat)).push(kind@));
        i += 1;
    }
}

/// What inspecting a `pipeline_package` with the fixed layout reports: its
/// stitched videos and narrations as assets, on three tracks.
pub fn inspect_pipeline_legacy(
    source: &str,
    bundle_root: &str,
    project_id: Option<String>,
    project_name: Option<String>,
    video_count: usize,
    narration_count: usize,
) -> (r: BundleInspection)
    requires
        video_count + narration_count <= usize::MAX,
    ensures
        r.source@ == source@,
        r.bundle_root@ == bundle_root@,
        r.bundle_type@ == "pipeline_package"@,
        r.timeline_file is None,
        r.source_draft_dir is None,
        r.project_id == project_id,
        r.project_name == project_name,
        r.asset_count == video_count + narration_count,
        r.track_count == 3,
        string_views(r.asset_kinds@) == repeated("video"@, video_count as nat) + repeated("audio"@, narration_count as nat),
{
    let mut kinds: Vec<String> = Vec::new();
    assert(string_views(kinds@) =~= Seq::<Seq<char>>::empty());
    push_repeated(&mut kinds, "video", video_count);
    push_repeated(&mut kinds, "audio", narration_count);
    assert(Seq::<Seq<char>>::empty() + repeated("video"@, video_count as nat) =~= repeated("video"@, video_count as nat));
    BundleInspection {
        source: source.to_string(),
        bundle_root: bundle_root.to_string(),
        bundle_type: "pipeline_package".to_string(),
        timeline_file: None,
        source_draft_dir: None,
        project_id,
        project_name,
        asset_count: video_count + narration_count,
        track_count: 3,
        asset_kinds: kinds,
    }
}

/// The kinds of the assets of a track list: one per clip of each video or
/// audio track, in order; text tracks hold none.
pub open spec fn multitrack_asset_kinds(tracks: Seq<PipelineTrackSpec>) -> Seq<Seq<char>>
    decreases tracks.len(),
{
    if tracks.len() == 0 {
        Seq::empty()
    } else {
        let t = tracks.last();
        multitrack_asset_kinds(tracks.drop_last()) + match t.kind {
            PipelineTrackKind::Video => repeated("video"@, t.clips@.len()),
            PipelineTrackKind::Audio => repeated("audio"@, t.clips@.len()),
            PipelineTrackKind::Text => Seq::empty(),
        }
    }
}

/// What inspecting a `pipeline_package` with a track list reports: one
/// asset per clip of its video and audio tracks.
pub fn inspect_pipeline_multitrack(
    source: &str,
    bundle_root: &str,
    project_id: Option<String>,
    project_name: Option<String>,
    tracks: &Vec<PipelineTrackSpec>,
) -> (r: BundleInspection)
    ensures
        r.source@ == source@,
        r.bundle_root@ == bundle_root@,
        r.bundle_type@ == "pipeline_package"@,
        r.timeline_file is None,
        r.source_draft_dir is None,
        r.project_id == project_id,
        r.project_name == project_name,
        string_views(r.asset_kinds@) == multitrack_asset_kinds(tracks@),
        r.asset_count == r.asset_kinds@.len(),
        r.track_count == tracks@.len(),
{
    let mut kinds: Vec<String> = Vec::new();
    let mut t: usize = 0;
    assert(tracks@.take(0) =~= Seq::<PipelineTrackSpec>::empty());
    assert(string_views(kinds@) =~= Seq::<Seq<char>>::empty());
    while t < tracks.len()
        invariant
            t <= tracks.len(),
            string_views(kinds@) == multitrack_asset_kinds(tracks@.take(t as int)),
        decreases tracks.len() - t,
    {
        assert(tracks@.take(t + 1).drop_last() =~= tracks@.take(t as int));
        assert(tracks@.take(t + 1).last() == tracks@[t as int]);
        let tr = &tracks[t];
        match tr.kind {
            PipelineTrackKind::Video => push_repeated(&mut kinds, "video", tr.clips.len()),
            PipelineTrackKind::Audio => push_repeated(&mut kinds, "audio", tr.clips.len()),
            PipelineTrackKind::Text => {
                assert(string_views(kinds@) + Seq::<Seq<char>>::empty() =~= string_views(kinds@));
            },
        }
        t += 1;
    }
    assert(tracks@.take(t as int) =~= tracks@);
    let n = kinds.len();
    BundleInspection {
        source: source.to_string(),
        bundle_root: bundle_root.to_string(),
        bundle_type: "pipeline_package".to_string(),
        timeline_file: None,
        source_draft_dir: None,
        project_id,
        project_name,
        asset_count: n,
        track_count: tracks.len(),
        asset_kinds: kinds,
    }
}

/// What inspecting a `simple_timeline_package` reports: its videos as
/// assets, on two tracks; the timeline's project id and name win over the
/// bundle's.
pub fn inspect_simple_timeline(
    source: &str,
    bundle_root: &str,
    timeline_file: String,
    project_id: Option<String>,
    project_name: Option<String>,
    video_count: usize,
) -> (r: BundleInspection)
    ensures
        r.source@ == source@,
        r.bundle_root@ == bundle_root@,
        r.bundle_type@ == "simple_timeline_package"@,
        r.timeline_file == Some(timeline_file),
        r.source_draft_dir is None,
        r.project_id == project_id,
        r.project_name == project_name,
        r.asset_count == video_count,
        r.track_count == 2,
        string_views(r.asset_kinds@) == repeated("video"@, video_count as nat),
{
    let mut kinds: Vec<String> = Vec::new();
    assert(string_views(kinds@) =~= Seq::<Seq<char>>::empty());
    push_repeated(&mut kinds, "video", video_count);
    assert(Seq::<Seq<char>>::empty() + repeated("video"@, video_count as nat) =~= repeated("video"@, video_count as nat));
    BundleInspection {
        source: source.to_string(),
        bundle_root: bundle_root.to_string(),
        bundle_type: "simple_timeline_package".to_string(),
        timeline_file: Some(timeline_file),
        source_draft_dir: None,
        project_id,
        project_name,
        asset_count: video_count,
        track_count: 2,
        asset_kinds: kinds,
    }
}

/// The names of asset kinds.
pub open spec fn kind_names(kinds: Seq<AssetKind>) -> Seq<Seq<char>> {
    kinds.map_values(|k: AssetKind| match k {
        AssetKind::Video => "video"@,
        AssetKind::Audio => "audio"@,
        AssetKind::Image => "image"@,
    })
}

/// The names of the given asset kinds, in order.
pub fn asset_kind_names(kinds: &Vec<AssetKind>) -> (r: Vec<String>)
    ensures
        string_views(r@) == kind_names(kinds@),
{
    let mut out: Vec<String> = Vec::new();
    let mut i: usize = 0;
    while i < kinds.len()
        invariant
            i <= kinds.len(),
            string_views(out@) == kind_names(kinds@).take(i as int),
        decreases kinds.len() - i,
    {
        let ghost prev = out@;
        out.push(kinds[i].as_str().to_string());
        assert(string_views(out@) =~= string_views(prev).push(kind_names(kinds@)[i as int]));
        assert(kind_names(kinds@).take(i + 1) =~= kind_names(kinds@).take(i as int).push(kind_names(kinds@)[i as int]));
        i += 1;
    }
    assert(kind_names(kinds@).take(i as int) =~= kind_names(kinds@));
    out
}

} // verus!
