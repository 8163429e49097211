use yingdraft::bundle::{
    asset_kind_names, inspect_pipeline_legacy, inspect_pipeline_multitrack, inspect_simple_timeline, project_name,
    AssetKind, BundleType,
};
use yingdraft::draft::{
    check_draft_package, is_draft_snapshot_file, localized_asset_name, material_keys, matching_material_indices,
    DraftPackageError,
};
use yingdraft::pipeline::{PipelineClipSpec, PipelineTrackKind, PipelineTrackSpec, Real};

#[test]
fn bundle_types_and_kinds_have_names() {
    assert_eq!(BundleType::default(), BundleType::TimelinePackage);
    assert_eq!(BundleType::PipelinePackage.as_str(), "pipeline_package");
    assert_eq!(BundleType::SimpleTimelinePackage.as_str(), "simple_timeline_package");
    assert_eq!(BundleType::DraftPackage.as_str(), "draft_package");
    assert_eq!(asset_kind_names(&vec![AssetKind::Image, AssetKind::Audio, AssetKind::Video]), vec!["image", "audio", "video"]);
}

#[test]
fn draft_name_falls_back_in_order() {
    assert_eq!(project_name(Some("A".into()), Some("B".into()), Some("C".into())), "A");
    assert_eq!(project_name(None, Some("B".into()), Some("C".into())), "B");
    assert_eq!(project_name(None, None, Some("C".into())), "C");
    assert_eq!(project_name(None, None, None), "imported_bundle");
}

#[test]
fn inspections_report_assets_and_tracks() {
    let legacy = inspect_pipeline_legacy("src", "root", Some("p".into()), None, 2, 2);
    assert_eq!(legacy.asset_count, 4);
    assert_eq!(legacy.track_count, 3);
    assert_eq!(legacy.asset_kinds, vec!["video", "video", "audio", "audio"]);
    assert_eq!(legacy.bundle_type, "pipeline_package");

    let clip = PipelineClipSpec { path: "a".into(), start: Real::NonNegative(0), end: None, volume: None };
    let tracks = vec![
        PipelineTrackSpec { kind: PipelineTrackKind::Video, name: "v".into(), clips: vec![clip.clone(), clip.clone()], subtitle_file: None, style: None },
        PipelineTrackSpec { kind: PipelineTrackKind::Text, name: "t".into(), clips: vec![], subtitle_file: Some("s.srt".into()), style: None },
        PipelineTrackSpec { kind: PipelineTrackKind::Audio, name: "a".into(), clips: vec![clip], subtitle_file: None, style: None },
    ];
    let multi = inspect_pipeline_multitrack("src", "root", None, Some("n".into()), &tracks);
    assert_eq!(multi.asset_kinds, vec!["video", "video", "audio"]);
    assert_eq!((multi.asset_count, multi.track_count), (3, 3));

    let simple = inspect_simple_timeline("src", "root", "timeline.json".into(), None, None, 2);
    assert_eq!(simple.timeline_file.as_deref(), Some("timeline.json"));
    assert_eq!((simple.asset_count, simple.track_count), (2, 2));
}

#[test]
fn draft_packages_rebind_materials_by_name() {
    assert_eq!(check_draft_package(0), Err(DraftPackageError::NoAssets));
    assert_eq!(check_draft_package(1), Ok(()));
    assert_eq!(material_keys(AssetKind::Image), ("videos", "material_name"));
    assert_eq!(material_keys(AssetKind::Audio), ("audios", "name"));
    assert!(is_draft_snapshot_file(Some("draft_info.json.bak")));
    assert!(!is_draft_snapshot_file(Some("draft_meta_info.json")));
    assert!(!is_draft_snapshot_file(None));
    let names = vec![Some("old_video".to_string()), None, Some("other".to_string()), Some("old_video".to_string())];
    assert_eq!(matching_material_indices(&names, "old_video"), vec![0, 3]);
    assert_eq!(localized_asset_name(AssetKind::Video, 0, Some("video.mp4")), ("video".to_string(), "video_0000_video.mp4".to_string()));
    assert_eq!(localized_asset_name(AssetKind::Audio, 12345, None), ("audio".to_string(), "audio_12345_asset".to_string()));
}

use yingdraft::model::TimeRange;
use yingdraft::timeline::{
    build_time_range, plan_timeline_clip, track_render_index_offset, ClipPlan, ImportClipType, LoadedAsset,
    TimelineClipError, TimelineClipSpec,
};

fn timeline_clip(clip_type: ImportClipType, asset_id: Option<&str>) -> TimelineClipSpec {
    TimelineClipSpec {
        clip_type,
        asset_id: asset_id.map(|a| a.to_string()),
        timeline_in: 0,
        timeline_out: 2_000_000,
        source_in: None,
        source_out: None,
        text: None,
    }
}

#[test]
fn timeline_clips_find_their_assets() {
    let ids = vec!["poster".to_string(), "voice".to_string(), "poster".to_string()];
    let kinds = vec![LoadedAsset::Audio, LoadedAsset::Audio, LoadedAsset::Visual];
    assert_eq!(
        plan_timeline_clip(&timeline_clip(ImportClipType::Image, Some("poster")), &ids, &kinds),
        Ok(ClipPlan { target: TimeRange { start: 0, duration: 2_000_000 }, source: None, asset: Some(2) })
    );
    assert_eq!(
        plan_timeline_clip(&timeline_clip(ImportClipType::Video, Some("voice")), &ids, &kinds),
        Err(TimelineClipError::AssetIsAudio("voice".to_string()))
    );
    assert_eq!(
        plan_timeline_clip(&timeline_clip(ImportClipType::Audio, Some("poster")), &ids, &kinds),
        Err(TimelineClipError::AssetIsVisual("poster".to_string()))
    );
    assert_eq!(
        plan_timeline_clip(&timeline_clip(ImportClipType::Audio, Some("missing")), &ids, &kinds),
        Err(TimelineClipError::AssetNotFound("missing".to_string()))
    );
    assert_eq!(plan_timeline_clip(&timeline_clip(ImportClipType::Audio, None), &ids, &kinds), Err(TimelineClipError::MissingAssetId));
}

#[test]
fn timeline_clip_ranges_and_texts() {
    let ids: Vec<String> = vec![];
    let kinds: Vec<LoadedAsset> = vec![];
    let mut text = timeline_clip(ImportClipType::Text, None);
    assert_eq!(plan_timeline_clip(&text, &ids, &kinds), Err(TimelineClipError::MissingText));
    text.text = Some("bundle import works".to_string());
    text.source_in = Some(1);
    assert_eq!(plan_timeline_clip(&text, &ids, &kinds), Err(TimelineClipError::SourceUnpaired));
    text.source_out = Some(1);
    assert_eq!(plan_timeline_clip(&text, &ids, &kinds), Err(TimelineClipError::SourceNotAfterStart));
    text.source_out = Some(5);
    assert_eq!(
        plan_timeline_clip(&text, &ids, &kinds),
        Ok(ClipPlan {
            target: TimeRange { start: 0, duration: 2_000_000 },
            source: Some(TimeRange { start: 1, duration: 4 }),
            asset: None,
        })
    );
    text.timeline_out = 0;
    assert_eq!(plan_timeline_clip(&text, &ids, &kinds), Err(TimelineClipError::TargetNotAfterStart));
    assert_eq!(build_time_range(5, 5), None);
    assert_eq!(track_render_index_offset(Some(15000), 14000), 1000);
    assert_eq!(track_render_index_offset(None, 14000), 0);
}
