use yingdraft::model::Canvas;
use yingdraft::vod::{
    assign_timeline_lane, collect_remote_sources, first_report_at, is_auto_wrapping_adapt_mode, is_remote_source,
    lane_count_for_track, next_report_at, position_clip, positioned_clips_overlap, render_index_offset, resolve_canvas,
    vod_track_name, PositionedClip, VodAudioClipDef, VodAudioTrack, VodProject, VodSize, VodSubtitleClip,
    VodSubtitleTrack, VodVideoTrack, VodVisualClip,
};
use yingdraft::vod_plan::{assign_lanes, place_track, plan_subtitle_track, plan_vod_timeline, ClipTiming};
use std::collections::HashMap;

fn visual(url: &str, clip_type: Option<&str>, timeline_in: Option<u64>, timeline_out: Option<u64>) -> VodVisualClip {
    VodVisualClip {
        clip_type: clip_type.map(|t| t.to_string()),
        media_url: url.to_string(),
        timeline_in,
        timeline_out,
        adapt_mode: None,
    }
}

fn cue(content: &str, timeline_in: u64, timeline_out: u64) -> VodSubtitleClip {
    VodSubtitleClip { content: content.to_string(), timeline_in, timeline_out, adapt_mode: None }
}

fn empty_project() -> VodProject {
    VodProject { fe_canvas: None, output_media_config: None, subtitle_tracks: vec![], video_tracks: vec![], audio_tracks: vec![] }
}

#[test]
fn positions_clip_with_explicit_out_and_implicit_in() {
    let mut cursor = 5_000_000;
    let positioned = position_clip(&None, &Some(8_500_000), 2_000_000, &mut cursor);
    assert_eq!(positioned.start, 5_000_000);
    assert_eq!(positioned.end, 8_500_000);
    assert_eq!(cursor, 8_500_000);
}

#[test]
fn assigns_overlapping_ranges_to_extra_lanes() {
    let mut lanes = Vec::new();
    assert_eq!(assign_timeline_lane(&mut lanes, PositionedClip { start: 0, end: 5_000_000 }), 0);
    assert_eq!(assign_timeline_lane(&mut lanes, PositionedClip { start: 4_000_000, end: 6_000_000 }), 1);
    assert_eq!(assign_timeline_lane(&mut lanes, PositionedClip { start: 6_000_000, end: 8_000_000 }), 0);
}

#[test]
fn collects_unique_remote_sources() {
    let project = VodProject {
        fe_canvas: None,
        output_media_config: None,
        subtitle_tracks: vec![],
        video_tracks: vec![VodVideoTrack {
            clips: vec![
                visual("https://example.com/a.mp4", None, None, None),
                visual("https://example.com/a.mp4", None, None, None),
                visual("https://example.com/watermark.png", Some("GlobalImage"), None, None),
            ],
        }],
        audio_tracks: vec![VodAudioTrack {
            clips: vec![VodAudioClipDef { media_url: "https://example.com/b.wav".to_string(), timeline_in: None, timeline_out: None }],
        }],
    };
    assert_eq!(
        collect_remote_sources(&project),
        vec!["https://example.com/a.mp4".to_string(), "https://example.com/b.wav".to_string()]
    );
}

#[test]
fn local_media_is_not_collected_as_remote() {
    let mut project = empty_project();
    project.video_tracks.push(VodVideoTrack { clips: vec![visual("/data/local.mp4", None, None, None)] });
    project.audio_tracks.push(VodAudioTrack {
        clips: vec![VodAudioClipDef { media_url: "HTTP://upper.example/x.wav".to_string(), timeline_in: None, timeline_out: None }],
    });
    assert!(collect_remote_sources(&project).is_empty());
    assert!(is_remote_source("https://a/b"));
    assert!(is_remote_source("http://a/b"));
    assert!(!is_remote_source("ftp://a/b"));
}

#[test]
fn position_keeps_default_duration_when_out_is_not_after_start() {
    let mut cursor = 0;
    let p = position_clip(&Some(3_000_000), &Some(1_000_000), 2_000_000, &mut cursor);
    assert_eq!((p.start, p.end, cursor), (3_000_000, 5_000_000, 5_000_000));
    let q = position_clip(&None, &None, 1_000_000, &mut cursor);
    assert_eq!((q.start, q.end, cursor), (5_000_000, 6_000_000, 6_000_000));
}

#[test]
fn overlap_is_strict() {
    let a = PositionedClip { start: 0, end: 10 };
    assert!(!positioned_clips_overlap(a, PositionedClip { start: 10, end: 20 }));
    assert!(positioned_clips_overlap(a, PositionedClip { start: 9, end: 20 }));
}

#[test]
fn names_tracks_and_lanes() {
    assert_eq!(vod_track_name("video", 0, 0), "video_0");
    assert_eq!(vod_track_name("subtitle", 2, 3), "subtitle_2_overlap_3");
    assert_eq!(render_index_offset(1, 0, 3, 0), 1);
    assert_eq!(render_index_offset(1, 2, 3, 999), 1006);
    assert_eq!(render_index_offset(0, 1, 0, 0), 1);
}

#[test]
fn lane_count_is_at_least_one() {
    let mut map = HashMap::new();
    assert_eq!(lane_count_for_track(&map, 0), 1);
    map.insert(0usize, vec![vec![PositionedClip { start: 0, end: 1 }], vec![PositionedClip { start: 0, end: 1 }]]);
    assert_eq!(lane_count_for_track(&map, 0), 2);
}

#[test]
fn canvas_prefers_editor_canvas_then_output() {
    let mut project = empty_project();
    assert_eq!(resolve_canvas(&project), Canvas { width: 1920, height: 1080, fps: 30 });
    project.output_media_config = Some(VodSize { width: 1080, height: 1920 });
    assert_eq!(resolve_canvas(&project), Canvas { width: 1080, height: 1920, fps: 30 });
    project.fe_canvas = Some(VodSize { width: 720, height: 1280 });
    assert_eq!(resolve_canvas(&project), Canvas { width: 720, height: 1280, fps: 30 });
}

#[test]
fn auto_wrapping_adapt_modes() {
    assert!(is_auto_wrapping_adapt_mode(Some("AutoWrap")));
    assert!(is_auto_wrapping_adapt_mode(Some("AutoWrapAtSpaces")));
    assert!(!is_auto_wrapping_adapt_mode(Some("Contain")));
    assert!(!is_auto_wrapping_adapt_mode(None));
}

#[test]
fn places_clips_one_after_another() {
    let timings = vec![
        ClipTiming { timeline_in: None, timeline_out: None, default_duration: 2_000_000 },
        ClipTiming { timeline_in: None, timeline_out: Some(5_000_000), default_duration: 9 },
        ClipTiming { timeline_in: Some(1_000_000), timeline_out: None, default_duration: 500_000 },
    ];
    let placed = place_track(&timings).unwrap();
    assert_eq!(
        placed,
        vec![
            PositionedClip { start: 0, end: 2_000_000 },
            PositionedClip { start: 2_000_000, end: 5_000_000 },
            PositionedClip { start: 1_000_000, end: 1_500_000 },
        ]
    );
    let (lanes, count) = assign_lanes(&placed);
    assert_eq!(lanes, vec![0, 0, 1]);
    assert_eq!(count, 2);
    let overflow = vec![ClipTiming { timeline_in: Some(u64::MAX), timeline_out: None, default_duration: 1 }];
    assert!(place_track(&overflow).is_none());
}

#[test]
fn overlapping_subtitles_take_a_second_lane() {
    let track = vec![cue("第一条字幕", 213_112_000, 218_186_000), cue("重叠字幕", 217_000_000, 219_000_000)];
    let plan = plan_subtitle_track(&track);
    assert_eq!(plan.lanes, vec![0, 1]);
    assert_eq!(plan.lane_count, 2);
    assert_eq!(plan.clip_indices, vec![0, 1]);
    assert!(plan.source_durations.is_empty());
}

#[test]
fn plans_a_whole_vod_timeline() {
    let project = VodProject {
        fe_canvas: None,
        output_media_config: Some(VodSize { width: 1080, height: 1920 }),
        subtitle_tracks: vec![VodSubtitleTrack { clips: vec![cue("a", 0, 1_000_000), cue("b", 500_000, 9_000_000)] }],
        video_tracks: vec![VodVideoTrack {
            clips: vec![
                visual("https://x/a.mp4", None, None, Some(4_000_000)),
                visual("https://x/logo.png", Some("globalimage"), None, None),
                visual("https://x/b.mp4", None, Some(3_000_000), None),
            ],
        }],
        audio_tracks: vec![VodAudioTrack {
            clips: vec![VodAudioClipDef { media_url: "https://x/c.wav".to_string(), timeline_in: Some(1_000_000), timeline_out: None }],
        }],
    };
    let plan = plan_vod_timeline(&project, &vec![vec![6_000_000, 2_000_000]], &vec![vec![7_000_000]]).unwrap();
    let video = &plan.video[0];
    assert_eq!(video.clip_indices, vec![0, 2]);
    assert_eq!(
        video.placed,
        vec![PositionedClip { start: 0, end: 4_000_000 }, PositionedClip { start: 3_000_000, end: 5_000_000 }]
    );
    assert_eq!(video.lanes, vec![0, 1]);
    assert_eq!(video.lane_count, 2);
    assert_eq!(video.source_durations, vec![4_000_000, 2_000_000]);
    let audio = &plan.audio[0];
    assert_eq!(audio.placed, vec![PositionedClip { start: 1_000_000, end: 8_000_000 }]);
    assert_eq!(audio.lane_count, 1);
    assert_eq!(plan.subtitles[0].lanes, vec![0, 1]);
    assert_eq!(plan.duration, 9_000_000);
}

#[test]
fn vod_plan_fails_when_an_end_overflows() {
    let mut project = empty_project();
    project.audio_tracks.push(VodAudioTrack {
        clips: vec![VodAudioClipDef { media_url: "a.wav".to_string(), timeline_in: Some(u64::MAX - 1), timeline_out: None }],
    });
    assert!(plan_vod_timeline(&project, &vec![], &vec![vec![5]]).is_none());
    assert_eq!(plan_vod_timeline(&empty_project(), &vec![], &vec![]).unwrap().duration, 0);
}

#[test]
fn download_progress_is_reported_every_twentieth() {
    assert_eq!(first_report_at(Some(1000)), 50);
    assert_eq!(first_report_at(Some(10)), 1);
    assert_eq!(first_report_at(None), 2 * 1024 * 1024);
    assert_eq!(next_report_at(Some(1000), 50), 100);
    assert_eq!(next_report_at(Some(1000), 980), 1000);
    assert_eq!(next_report_at(None, 2 * 1024 * 1024), 4 * 1024 * 1024);
}
