use yingdraft::messages::pipeline_error_message;
use yingdraft::paths::PathError;
use yingdraft::pipeline::{
    find_overlap, validate_pipeline_audio_style, validate_pipeline_multitrack_spec, validate_pipeline_narration_count,
    validate_pipeline_spec, validate_simple_subtitle_style, PipelineAudioStyle, PipelineClipSpec, PipelineError,
    PipelineSpec, PipelineTrackKind, PipelineTrackSpec, Real, SimpleSubtitleStyle,
};

fn secs(v: f64) -> Real {
    Real::NonNegative((v * 1_000_000.0).round() as u64)
}

fn clip(path: &str, start: f64, end: Option<f64>, volume: Option<f64>) -> PipelineClipSpec {
    PipelineClipSpec { path: path.to_string(), start: secs(start), end: end.map(secs), volume: volume.map(secs) }
}

fn track(kind: PipelineTrackKind, name: &str, clips: Vec<PipelineClipSpec>, subtitle_file: Option<&str>) -> PipelineTrackSpec {
    PipelineTrackSpec { kind, name: name.to_string(), clips, subtitle_file: subtitle_file.map(|s| s.to_string()), style: None }
}

fn legacy_fields() -> PipelineSpec {
    PipelineSpec {
        concat_file: Some("concat.txt".to_string()),
        subtitle_file: Some("subtitle.srt".to_string()),
        narration_files: vec!["001.wav".to_string()],
        tracks: None,
        audio_file: None,
    }
}

#[test]
fn pipeline_package_rejects_tracks_mixed_with_legacy_fields() {
    let mut spec = legacy_fields();
    spec.tracks = Some(vec![track(PipelineTrackKind::Video, "main", vec![clip("video.mp4", 0.0, None, None)], None)]);
    assert_eq!(validate_pipeline_spec(&spec), Err(PipelineError::TracksCombined));
}

#[test]
fn pipeline_package_rejects_deprecated_audio_file() {
    let mut spec = legacy_fields();
    spec.narration_files = vec![];
    spec.audio_file = Some("audio.wav".to_string());
    assert_eq!(validate_pipeline_spec(&spec), Err(PipelineError::AudioFileUnsupported));
}

#[test]
fn fixed_layout_requires_its_files() {
    let mut spec = legacy_fields();
    assert_eq!(validate_pipeline_spec(&spec), Ok(()));
    spec.narration_files.clear();
    assert_eq!(validate_pipeline_spec(&spec), Err(PipelineError::NarrationFilesRequired));
    spec.subtitle_file = None;
    assert_eq!(validate_pipeline_spec(&spec), Err(PipelineError::SubtitleFileRequired));
    spec.concat_file = None;
    assert_eq!(validate_pipeline_spec(&spec), Err(PipelineError::ConcatFileRequired));
}

#[test]
fn video_clip_with_end_is_refused() {
    let tracks = vec![track(PipelineTrackKind::Video, "video", vec![clip("video/88.mp4", 0.0, Some(1.0), None)], None)];
    assert_eq!(validate_pipeline_multitrack_spec(&tracks), Err(PipelineError::VideoEndUnsupported(0, 0)));
}

#[test]
fn multitrack_example_passes() {
    let tracks = vec![
        track(PipelineTrackKind::Video, "main_video", vec![clip("video/main.mp4", 0.0, None, None)], None),
        track(PipelineTrackKind::Video, "overlay_video", vec![clip("video/overlay.mp4", 0.2, None, Some(0.0))], None),
        track(PipelineTrackKind::Audio, "narration", vec![clip("audio/narration.wav", 0.0, Some(0.4), None)], None),
        track(PipelineTrackKind::Audio, "bgm", vec![clip("audio/bgm.wav", 0.0, Some(0.8), Some(0.35))], None),
        track(PipelineTrackKind::Text, "subtitle_cn", vec![], Some("subtitle/cn.srt")),
    ];
    assert_eq!(validate_pipeline_multitrack_spec(&tracks), Ok(()));
}

#[test]
fn multitrack_refusals() {
    assert_eq!(validate_pipeline_multitrack_spec(&vec![]), Err(PipelineError::NoTracks));
    let blank = vec![track(PipelineTrackKind::Video, "  ", vec![clip("a.mp4", 0.0, None, None)], None)];
    assert_eq!(validate_pipeline_multitrack_spec(&blank), Err(PipelineError::EmptyTrackName(0)));
    let dup = vec![
        track(PipelineTrackKind::Video, "v", vec![clip("a.mp4", 0.0, None, None)], None),
        track(PipelineTrackKind::Audio, "v", vec![clip("b.wav", 0.0, Some(1.0), None)], None),
    ];
    assert_eq!(validate_pipeline_multitrack_spec(&dup), Err(PipelineError::DuplicateTrackName("v".to_string())));
    let no_clips = vec![track(PipelineTrackKind::Audio, "a", vec![], None)];
    assert_eq!(validate_pipeline_multitrack_spec(&no_clips), Err(PipelineError::NoAudioClips(0)));
    let sub_on_video = vec![track(PipelineTrackKind::Video, "v", vec![clip("a.mp4", 0.0, None, None)], Some("x.srt"))];
    assert_eq!(validate_pipeline_multitrack_spec(&sub_on_video), Err(PipelineError::SubtitleOnlyOnText(0)));
    let only_audio = vec![track(PipelineTrackKind::Audio, "a", vec![clip("b.wav", 0.0, Some(1.0), None)], None)];
    assert_eq!(validate_pipeline_multitrack_spec(&only_audio), Err(PipelineError::NoVideoClip));
    let no_end = vec![track(PipelineTrackKind::Audio, "a", vec![clip("b.wav", 0.0, None, None)], None)];
    assert_eq!(validate_pipeline_multitrack_spec(&no_end), Err(PipelineError::AudioEndRequired(0, 0)));
    let backwards = vec![track(PipelineTrackKind::Audio, "a", vec![clip("b.wav", 2.0, Some(1.0), None)], None)];
    assert_eq!(validate_pipeline_multitrack_spec(&backwards), Err(PipelineError::EndNotAfterStart(0, 0)));
    let mut negative = clip("b.wav", 0.0, Some(1.0), None);
    negative.start = Real::Negative;
    let neg = vec![track(PipelineTrackKind::Audio, "a", vec![negative], None)];
    assert_eq!(validate_pipeline_multitrack_spec(&neg), Err(PipelineError::NegativeStart(0, 0)));
    let mut loud = clip("a.mp4", 0.0, None, None);
    loud.volume = Some(Real::NonFinite);
    let vol = vec![track(PipelineTrackKind::Video, "v", vec![loud], None)];
    assert_eq!(validate_pipeline_multitrack_spec(&vol), Err(PipelineError::NegativeVolume(0, 0)));
    let text_clips = vec![track(PipelineTrackKind::Text, "t", vec![clip("a.mp4", 0.0, None, None)], Some("a.srt"))];
    assert_eq!(validate_pipeline_multitrack_spec(&text_clips), Err(PipelineError::TextClipsUnsupported(0)));
    let text_no_file = vec![track(PipelineTrackKind::Text, "t", vec![], None)];
    assert_eq!(validate_pipeline_multitrack_spec(&text_no_file), Err(PipelineError::TextSubtitleRequired(0)));
}

#[test]
fn multitrack_refuses_bad_paths_with_their_labels() {
    let dotdot = vec![track(PipelineTrackKind::Video, "v", vec![clip("../a.mp4", 0.0, None, None)], None)];
    assert_eq!(
        validate_pipeline_multitrack_spec(&dotdot),
        Err(PipelineError::BadPath(PathError::BadSegment("pipeline.tracks[0].clips[0].path".to_string())))
    );
    let slash = vec![
        track(PipelineTrackKind::Video, "v", vec![clip("a.mp4", 0.0, None, None)], None),
        track(PipelineTrackKind::Text, "t", vec![], Some("sub\\a.srt")),
    ];
    assert_eq!(
        validate_pipeline_multitrack_spec(&slash),
        Err(PipelineError::BadPath(PathError::Backslash("pipeline.tracks[1].subtitle_file".to_string())))
    );
}

#[test]
fn overlapping_audio_clips_are_refused() {
    let tracks = vec![
        track(PipelineTrackKind::Video, "v", vec![clip("a.mp4", 0.0, None, None)], None),
        track(
            PipelineTrackKind::Audio,
            "bgm",
            vec![clip("c.wav", 5.0, Some(6.0), None), clip("a.wav", 0.0, Some(2.0), None), clip("b.wav", 1.5, Some(3.0), None)],
            None,
        ),
    ];
    assert_eq!(validate_pipeline_multitrack_spec(&tracks), Err(PipelineError::ClipsOverlap(1, 1, 2)));
}

#[test]
fn finds_the_first_overlap_in_start_order() {
    assert_eq!(find_overlap(&vec![(0, 10), (10, 20), (20, 30)]), None);
    assert_eq!(find_overlap(&vec![(50, 60), (0, 10), (5, 8), (55, 70)]), Some((1, 2)));
    assert_eq!(find_overlap(&vec![(0, 10), (0, 10)]), Some((0, 1)));
}

#[test]
fn styles_and_volumes_are_checked() {
    assert_eq!(validate_simple_subtitle_style(&SimpleSubtitleStyle::default()), Ok(()));
    let mut s = SimpleSubtitleStyle::default();
    s.font_size = Real::NonNegative(0);
    assert_eq!(validate_simple_subtitle_style(&s), Err(PipelineError::FontSize));
    let mut s = SimpleSubtitleStyle::default();
    s.x = Real::NonNegative(1_000_001);
    assert_eq!(validate_simple_subtitle_style(&s), Err(PipelineError::PositionX));
    let mut s = SimpleSubtitleStyle::default();
    s.y = Real::Negative;
    assert_eq!(validate_simple_subtitle_style(&s), Err(PipelineError::PositionY));
    assert_eq!(validate_pipeline_audio_style(&PipelineAudioStyle::default()), Ok(()));
    let mut a = PipelineAudioStyle::default();
    a.audio_volume = Some(Real::NonNegative(1));
    assert_eq!(validate_pipeline_audio_style(&a), Err(PipelineError::AudioVolumeUnsupported));
    let mut a = PipelineAudioStyle::default();
    a.video_volume = Real::NonFinite;
    assert_eq!(validate_pipeline_audio_style(&a), Err(PipelineError::VideoVolume));
    let mut a = PipelineAudioStyle::default();
    a.narration_volume = Real::Negative;
    assert_eq!(validate_pipeline_audio_style(&a), Err(PipelineError::NarrationVolume));
}

#[test]
fn narration_count_must_match_cues() {
    assert_eq!(validate_pipeline_narration_count(2, 2), Ok(()));
    assert_eq!(validate_pipeline_narration_count(1, 2), Err(PipelineError::NarrationCountMismatch(1, 2)));
}

#[test]
fn track_kinds_have_names() {
    assert_eq!(PipelineTrackKind::Video.as_str(), "video");
    assert_eq!(PipelineTrackKind::Audio.as_str(), "audio");
    assert_eq!(PipelineTrackKind::Text.as_str(), "text");
}

#[test]
fn pipeline_import_stops_before_progress_when_video_clip_has_end() {
    let tracks = vec![track(PipelineTrackKind::Video, "video", vec![clip("video/88.mp4", 0.0, Some(1.0), None)], None)];
    assert_eq!(validate_pipeline_multitrack_spec(&tracks), Err(PipelineError::VideoEndUnsupported(0, 0)));
}

#[test]
fn pipeline_errors_read_as_messages() {
    assert_eq!(
        pipeline_error_message(&PipelineError::VideoEndUnsupported(0, 0), "", ""),
        "pipeline.tracks[0].clips[0].end is not supported for video tracks"
    );
    assert_eq!(
        pipeline_error_message(&PipelineError::ClipsOverlap(1, 0, 1), "bgm", "0-1.5"),
        "pipeline.tracks[1] 'bgm' clips overlap: clip[0] (0-1.5) and clip[1]"
    );
    assert_eq!(
        pipeline_error_message(&PipelineError::NarrationCountMismatch(2, 3), "", ""),
        "pipeline.narration_files length (2) must match subtitle cue count (3)"
    );
}
