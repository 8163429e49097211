use yingdraft::draft_json::{
    draft_track_order, project_to_draft, text_check_flag, AudioClip, Clip, MaterialCategory, MaterialRef, Project,
    SegmentKind, TextClip, Track, VideoClip,
};
use yingdraft::media::{AudioMaterial, VideoMaterial};
use yingdraft::model::{Canvas, MaterialKind, TimeRange, TrackKind};

fn s(x: &str) -> String {
    x.to_string()
}

#[test]
fn tracks_are_ordered_by_render_index_stably() {
    assert_eq!(draft_track_order(&vec![15000, 0, 14000, 0, 14000]), vec![1, 3, 2, 4, 0]);
    assert_eq!(draft_track_order(&vec![]), Vec::<usize>::new());
    assert_eq!(draft_track_order(&vec![-1, -5]), vec![1, 0]);
}

#[test]
fn text_check_flags_add_up() {
    assert_eq!(text_check_flag(false, false, false), 7);
    assert_eq!(text_check_flag(true, false, false), 15);
    assert_eq!(text_check_flag(true, true, true), 63);
    assert_eq!(text_check_flag(false, true, true), 55);
}

fn range(start: u64, duration: u64) -> TimeRange {
    TimeRange { start, duration }
}

#[test]
fn project_becomes_draft_content() {
    let video = Clip::Video(VideoClip {
        id: s("seg_v"),
        material_id: s("video1"),
        target: range(0, 5_000_000),
        source: Some(range(0, 5_000_000)),
        speed_id: s("speed_v"),
        speed: 1_000_000,
        volume: 1_000_000,
        change_pitch: false,
        fade_id: None,
        effect_ids: vec![s("fx1")],
        filter_ids: vec![],
        mix_mode_id: None,
        mask_id: None,
        transition_id: Some(s("tr1")),
        background_id: None,
        animation_id: None,
    });
    let audio = Clip::Audio(AudioClip {
        id: s("seg_a"),
        material_id: s("audio1"),
        target: range(0, 10_000_000),
        source: None,
        speed_id: s("speed_a"),
        speed: 1_000_000,
        volume: 800_000,
        change_pitch: false,
        fade_id: Some(s("fade_a")),
        effect_ids: vec![],
    });
    let text = Clip::Text(TextClip {
        id: s("seg_t"),
        material_id: s("text1"),
        target: range(0, 3_000_000),
        text: s("Hello JianYing!"),
        size: 8_000_000,
        border: Some(40_000),
        background: false,
        shadow: false,
        auto_wrapping: true,
        animation_id: None,
        bubble_id: None,
        effect_id: Some(s("te1")),
    });
    let project = Project {
        duration: 10_000_000,
        canvas: Canvas { width: 1920, height: 1080, fps: 30 },
        maintrack_adsorb: true,
        tracks: vec![
            Track { id: s("t_text"), name: s("text"), kind: TrackKind::Text, render_index: 15000, mute: false, clips: vec![text] },
            Track { id: s("t_main"), name: s("main_video"), kind: TrackKind::Video, render_index: 0, mute: false, clips: vec![video] },
            Track { id: s("t_bgm"), name: s(""), kind: TrackKind::Audio, render_index: 0, mute: true, clips: vec![audio] },
        ],
        video_materials: vec![],
        audio_materials: vec![],
    };
    let draft = project_to_draft(&project);
    assert_eq!(draft.duration, 10_000_000);
    assert_eq!(draft.canvas, Canvas { width: 1920, height: 1080, fps: 30 });
    let names: Vec<&str> = draft.tracks.iter().map(|t| t.name.as_str()).collect();
    assert_eq!(names, vec!["main_video", "", "text"]);
    assert_eq!(draft.tracks[1].attribute, 1);
    assert!(draft.tracks[1].is_default_name);
    assert_eq!(
        draft.materials,
        vec![
            MaterialRef { category: MaterialCategory::TextEffect, id: s("te1") },
            MaterialRef { category: MaterialCategory::Speed, id: s("speed_v") },
            MaterialRef { category: MaterialCategory::VideoEffect, id: s("fx1") },
            MaterialRef { category: MaterialCategory::Transition, id: s("tr1") },
            MaterialRef { category: MaterialCategory::Speed, id: s("speed_a") },
            MaterialRef { category: MaterialCategory::AudioFade, id: s("fade_a") },
        ]
    );
    let seg = &draft.tracks[0].segments[0];
    assert_eq!(seg.kind, SegmentKind::Video);
    assert_eq!(seg.material_id, "video1");
    assert_eq!(seg.extra_material_refs, vec![s("speed_v"), s("fx1"), s("tr1")]);
    assert_eq!(seg.render_index, 0);
    let text_seg = &draft.tracks[2].segments[0];
    assert_eq!(text_seg.source, None);
    assert_eq!(text_seg.render_index, 15000);
    assert_eq!(draft.texts.len(), 1);
    assert_eq!(draft.texts[0].check_flag, 15);
    assert_eq!(draft.texts[0].text_len, 15);
    assert!(draft.texts[0].subtitle);
    assert_eq!(draft.texts[0].size, 8_000_000);
    assert_eq!(draft.texts[0].stroke_width, Some(40_000));
    assert_eq!(draft.tracks[1].segments[0].volume, 800_000);
    assert!(!draft.tracks[1].segments[0].has_clip);
    assert_eq!(text_seg.speed, 1_000_000);
}

fn video_material(name: &str, duration: u64) -> VideoMaterial {
    VideoMaterial {
        id: format!("{name}_id"),
        path: format!("C:/test/{name}.mp4"),
        duration,
        width: 1920,
        height: 1080,
        kind: MaterialKind::Video,
        name: name.to_string(),
    }
}

fn audio_material(name: &str, duration: u64) -> AudioMaterial {
    AudioMaterial { id: format!("{name}_id"), path: format!("C:/test/{name}.mp3"), duration, name: name.to_string() }
}

#[test]
fn test_generate_basic_draft() {
    let video_mat = video_material("main_video", 5_000_000);
    let audio_mat = audio_material("bgm", 10_000_000);
    let video_clip = Clip::Video(VideoClip {
        id: s("vclip"),
        material_id: video_mat.id.clone(),
        target: range(0, 5_000_000),
        source: Some(range(0, 5_000_000)),
        speed_id: s("vspeed"),
        speed: 1_000_000,
        volume: 1_000_000,
        change_pitch: false,
        fade_id: None,
        effect_ids: vec![],
        filter_ids: vec![],
        mix_mode_id: None,
        mask_id: None,
        transition_id: None,
        background_id: None,
        animation_id: None,
    });
    let audio_clip = Clip::Audio(AudioClip {
        id: s("aclip"),
        material_id: audio_mat.id.clone(),
        target: range(0, 5_000_000),
        source: Some(range(0, 5_000_000)),
        speed_id: s("aspeed"),
        speed: 1_000_000,
        volume: 800_000,
        change_pitch: false,
        fade_id: None,
        effect_ids: vec![],
    });
    let text_clip = Clip::Text(TextClip {
        id: s("tclip"),
        material_id: s("tmat"),
        target: range(0, 5_000_000),
        text: s("Hello JianYing!"),
        size: 15_000_000,
        border: None,
        background: false,
        shadow: false,
        auto_wrapping: false,
        animation_id: None,
        bubble_id: None,
        effect_id: None,
    });
    let project = Project {
        duration: 5_000_000,
        canvas: Canvas::default(),
        maintrack_adsorb: true,
        tracks: vec![
            Track { id: s("t1"), name: s("video1"), kind: TrackKind::Video, render_index: 0, mute: false, clips: vec![video_clip] },
            Track { id: s("t2"), name: s("audio1"), kind: TrackKind::Audio, render_index: 0, mute: false, clips: vec![audio_clip] },
            Track { id: s("t3"), name: s("text1"), kind: TrackKind::Text, render_index: 15000, mute: false, clips: vec![text_clip] },
        ],
        video_materials: vec![video_mat],
        audio_materials: vec![audio_mat],
    };
    let draft = project_to_draft(&project);

    assert_eq!(draft.duration, 5_000_000);
    assert_eq!(draft.canvas.fps, 30);
    assert_eq!(draft.canvas.width, 1920);
    assert_eq!(draft.canvas.height, 1080);

    assert_eq!(draft.video_materials.len(), 1);
    assert_eq!(draft.audio_materials.len(), 1);
    assert_eq!(draft.texts.len(), 1);
    let speeds = draft.materials.iter().filter(|m| m.category.list_name() == "speeds").count();
    assert_eq!(speeds, 2);

    assert_eq!(draft.tracks.len(), 3);
    assert_eq!(draft.tracks[2].kind.to_str(), "text");

    let video_segs = &draft.tracks[0].segments;
    assert_eq!(video_segs.len(), 1);
    assert_eq!(video_segs[0].speed, 1_000_000);
    assert_eq!(video_segs[0].volume, 1_000_000);
    assert!(video_segs[0].has_hdr_settings);

    let audio_segs = &draft.tracks[1].segments;
    assert_eq!(audio_segs.len(), 1);
    assert!(!audio_segs[0].has_clip);
    assert!(!audio_segs[0].has_hdr_settings);

    let text_segs = &draft.tracks[2].segments;
    assert_eq!(text_segs.len(), 1);
    assert!(text_segs[0].has_clip);

    assert_eq!(draft.texts[0].text, "Hello JianYing!");
}
