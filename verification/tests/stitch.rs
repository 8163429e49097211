use yingdraft::model::{MaterialKind, TimeRange};
use yingdraft::multitrack::{plan_multitrack, render_offsets, MultitrackError, PlannedClip};
use yingdraft::pipeline::{PipelineClipSpec, PipelineTrackKind, PipelineTrackSpec, Real, SimpleSubtitleStyle};
use yingdraft::srt::SrtCue;
use yingdraft::stitch::{
    narrate_cues, plan_simple_timeline, stitch_videos, validate_simple_timeline, MaterialSummary, NarratedCue,
    NarrationError, SimpleCue, SimpleTimelineError, StitchError, StyleError,
};

fn video(duration: u64) -> Option<MaterialSummary> {
    Some(MaterialSummary { kind: MaterialKind::Video, duration })
}

fn srt(start_ms: u128, end_ms: u128, text: &str) -> SrtCue {
    SrtCue { start_ms, end_ms, text: text.to_string() }
}

fn secs(v: f64) -> Real {
    Real::NonNegative((v * 1_000_000.0).round() as u64)
}

#[test]
fn stitches_videos_end_to_end() {
    let segs = stitch_videos(&vec![video(3_000_000), video(2_000_000)]).unwrap();
    assert_eq!(segs, vec![TimeRange { start: 0, duration: 3_000_000 }, TimeRange { start: 3_000_000, duration: 2_000_000 }]);
}

#[test]
fn stitching_reports_the_first_bad_video() {
    assert_eq!(stitch_videos(&vec![video(1), None]), Err(StitchError::LoadFailed(1)));
    assert_eq!(
        stitch_videos(&vec![Some(MaterialSummary { kind: MaterialKind::Photo, duration: 5 }), None]),
        Err(StitchError::NotVideo(0))
    );
    assert_eq!(stitch_videos(&vec![video(1), video(0)]), Err(StitchError::ZeroDuration(1)));
    assert_eq!(stitch_videos(&vec![video(u64::MAX), video(1)]), Err(StitchError::Overflow));
}

#[test]
fn narration_follows_its_cue() {
    let cues = vec![srt(0, 400, "第一句"), srt(1000, 1400, "第二句")];
    let placed = narrate_cues(&cues, &vec![Some(1_000_000), Some(300_000)], 2_000_000).unwrap();
    assert_eq!(
        placed,
        vec![
            NarratedCue { audio: TimeRange { start: 0, duration: 400_000 }, text: TimeRange { start: 0, duration: 400_000 } },
            NarratedCue {
                audio: TimeRange { start: 1_000_000, duration: 300_000 },
                text: TimeRange { start: 1_000_000, duration: 400_000 },
            },
        ]
    );
}

#[test]
fn narration_refusals() {
    let cues = vec![srt(0, 400, "a"), srt(1000, 3000, "b")];
    assert_eq!(narrate_cues(&cues, &vec![Some(1), Some(1)], 2_000_000), Err(NarrationError::CueBeyondVideo(1)));
    assert_eq!(narrate_cues(&cues, &vec![None, Some(1)], 5_000_000), Err(NarrationError::NarrationUnavailable(0)));
    assert_eq!(narrate_cues(&cues, &vec![Some(0), Some(1)], 5_000_000), Err(NarrationError::NarrationZero(0)));
}

#[test]
fn simple_timeline_checks_before_loading() {
    let style = SimpleSubtitleStyle::default();
    assert_eq!(validate_simple_timeline(0, &style, &vec![]), Err(SimpleTimelineError::NoVideos));
    let mut bad = style;
    bad.font_size = Real::NonNegative(0);
    assert_eq!(validate_simple_timeline(1, &bad, &vec![]), Err(SimpleTimelineError::Style(StyleError::FontSize)));
    let cues = vec![SimpleCue { start: secs(1.0), end: secs(1.0) }];
    assert_eq!(validate_simple_timeline(1, &style, &cues), Err(SimpleTimelineError::CueEndNotAfterStart(0)));
    let cues = vec![SimpleCue { start: Real::Negative, end: secs(1.0) }];
    assert_eq!(validate_simple_timeline(1, &style, &cues), Err(SimpleTimelineError::CueStart(0)));
    let cues = vec![SimpleCue { start: secs(0.0), end: Real::NonFinite }];
    assert_eq!(validate_simple_timeline(1, &style, &cues), Err(SimpleTimelineError::CueEnd(0)));
}

#[test]
fn simple_timeline_places_videos_then_subtitles() {
    let cues = vec![SimpleCue { start: secs(0.0), end: secs(0.4) }, SimpleCue { start: secs(1.0), end: secs(1.4) }];
    let plan = plan_simple_timeline(&vec![video(1_000_000), video(1_000_000)], &cues).unwrap();
    assert_eq!(plan.videos[1], TimeRange { start: 1_000_000, duration: 1_000_000 });
    assert_eq!(plan.subtitles, vec![TimeRange { start: 0, duration: 400_000 }, TimeRange { start: 1_000_000, duration: 400_000 }]);
    let late = vec![SimpleCue { start: secs(1.0), end: secs(2.5) }];
    assert_eq!(plan_simple_timeline(&vec![video(2_000_000)], &late), Err(SimpleTimelineError::CueBeyondVideo(0)));
    assert_eq!(plan_simple_timeline(&vec![None], &late), Err(SimpleTimelineError::Stitch(StitchError::LoadFailed(0))));
}

fn clip(path: &str, start: f64, end: Option<f64>) -> PipelineClipSpec {
    PipelineClipSpec { path: path.to_string(), start: secs(start), end: end.map(secs), volume: None }
}

fn track(kind: PipelineTrackKind, name: &str, clips: Vec<PipelineClipSpec>, subtitle_file: Option<&str>) -> PipelineTrackSpec {
    PipelineTrackSpec { kind, name: name.to_string(), clips, subtitle_file: subtitle_file.map(|s| s.to_string()), style: None }
}

fn audio(duration: u64) -> Option<MaterialSummary> {
    Some(MaterialSummary { kind: MaterialKind::Audio, duration })
}

#[test]
fn plans_the_multitrack_example() {
    let tracks = vec![
        track(PipelineTrackKind::Video, "main_video", vec![clip("video/main.mp4", 0.0, None)], None),
        track(PipelineTrackKind::Video, "overlay_video", vec![clip("video/overlay.mp4", 0.2, None)], None),
        track(PipelineTrackKind::Audio, "narration", vec![clip("audio/narration.wav", 0.0, Some(0.4))], None),
        track(PipelineTrackKind::Audio, "bgm", vec![clip("audio/bgm.wav", 0.0, Some(0.8))], None),
        track(PipelineTrackKind::Text, "subtitle_cn", vec![], Some("subtitle/cn.srt")),
        track(PipelineTrackKind::Text, "subtitle_comment", vec![], Some("subtitle/comment.srt")),
    ];
    let media = vec![vec![video(1_000_000)], vec![video(1_000_000)], vec![audio(1_000_000)], vec![audio(500_000)], vec![], vec![]];
    let cues = vec![None, None, None, None, Some(vec![srt(0, 400, "主字幕")]), Some(vec![srt(200, 600, "评论字幕")])];
    let plan = plan_multitrack(&tracks, &media, &cues).unwrap();
    assert_eq!(plan.render_offsets, vec![0, 1, 0, 1, 0, 1]);
    assert_eq!(plan.clips[1], vec![PlannedClip { target: TimeRange { start: 200_000, duration: 1_000_000 }, source: None }]);
    assert_eq!(
        plan.clips[3],
        vec![PlannedClip {
            target: TimeRange { start: 0, duration: 500_000 },
            source: Some(TimeRange { start: 0, duration: 500_000 }),
        }]
    );
    assert_eq!(plan.clips[5], vec![PlannedClip { target: TimeRange { start: 200_000, duration: 400_000 }, source: None }]);
    assert_eq!(plan.clips.iter().map(|c| c.len()).sum::<usize>(), 6);
}

#[test]
fn multitrack_placement_refusals() {
    let v = track(PipelineTrackKind::Video, "v", vec![clip("a.mp4", 0.0, None)], None);
    let t = track(PipelineTrackKind::Text, "t", vec![], Some("a.srt"));
    let media = vec![vec![video(1_000_000)], vec![]];
    let late = vec![None, Some(vec![srt(500, 1500, "late")])];
    assert_eq!(plan_multitrack(&vec![v.clone(), t.clone()], &media, &late), Err(MultitrackError::TextBeyondVideo(1, 0)));
    let unreadable = vec![None, None];
    assert_eq!(plan_multitrack(&vec![v.clone(), t.clone()], &media, &unreadable), Err(MultitrackError::SubtitleUnavailable(1)));
    let photo = vec![vec![Some(MaterialSummary { kind: MaterialKind::Photo, duration: 5 })], vec![]];
    assert_eq!(plan_multitrack(&vec![v.clone(), t.clone()], &photo, &late), Err(MultitrackError::NotVideo(0, 0)));
    let only_text = vec![t.clone()];
    assert_eq!(plan_multitrack(&only_text, &vec![vec![]], &vec![Some(vec![])]), Err(MultitrackError::NoVideoClip));
    let a = track(PipelineTrackKind::Audio, "a", vec![clip("a.wav", 0.0, Some(1.0))], None);
    assert_eq!(
        plan_multitrack(&vec![v, a], &vec![vec![video(1)], vec![audio(0)]], &vec![None, None]),
        Err(MultitrackError::ZeroDuration(1, 0))
    );
}

#[test]
fn render_offsets_count_tracks_of_the_same_kind() {
    let tracks = vec![
        track(PipelineTrackKind::Text, "t", vec![], Some("a.srt")),
        track(PipelineTrackKind::Video, "v1", vec![], None),
        track(PipelineTrackKind::Text, "t2", vec![], Some("b.srt")),
        track(PipelineTrackKind::Video, "v2", vec![], None),
        track(PipelineTrackKind::Video, "v3", vec![], None),
    ];
    assert_eq!(render_offsets(&tracks), vec![0, 0, 1, 1, 2]);
}

#[test]
fn simple_timeline_package_rejects_empty_videos() {
    let style = SimpleSubtitleStyle::default();
    assert_eq!(validate_simple_timeline(0, &style, &vec![]), Err(SimpleTimelineError::NoVideos));
}
