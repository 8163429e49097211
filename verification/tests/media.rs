use yingdraft::media::{
    classify_probe, create_audio_material_from_info, create_video_material_from_info, unique_request_indices,
    MediaError, MediaInfo, MediaKind, ProbeOutput, ProbeStream,
};
use yingdraft::model::MaterialKind;

fn stream(codec: &str, duration_us: Option<u64>, rate: Option<&str>) -> ProbeStream {
    ProbeStream {
        codec_type: Some(codec.to_string()),
        duration_us,
        width: if codec == "video" { Some(1920) } else { None },
        height: if codec == "video" { Some(1080) } else { None },
        sample_rate: if codec == "audio" { Some("44100".to_string()) } else { None },
        avg_frame_rate: rate.map(|r| r.to_string()),
    }
}

fn probe(streams: Vec<ProbeStream>, format_duration_us: Option<u64>) -> ProbeOutput {
    ProbeOutput { streams: Some(streams), format_duration_us }
}

#[test]
fn classifies_videos_stills_and_audio() {
    let v = classify_probe("mp4", &probe(vec![stream("audio", Some(1), None), stream("video", None, Some("30/1"))], Some(2_500_000)), 5_000_000).unwrap();
    assert_eq!(v, MediaInfo { kind: MediaKind::Video, duration_us: Some(2_500_000), width: Some(1920), height: Some(1080), sample_rate: None });
    let still = classify_probe("gif", &probe(vec![stream("video", Some(9), Some("0/0"))], None), 5_000_000).unwrap();
    assert_eq!(still.kind, MediaKind::Photo);
    assert_eq!(still.duration_us, Some(5_000_000));
    let by_ext = classify_probe("png", &probe(vec![stream("video", Some(40_000), Some("25/1"))], None), 7).unwrap();
    assert_eq!(by_ext, MediaInfo { kind: MediaKind::Photo, duration_us: Some(7), width: Some(1920), height: Some(1080), sample_rate: None });
    let a = classify_probe("wav", &probe(vec![stream("audio", Some(900_000), None)], None), 7).unwrap();
    assert_eq!(a, MediaInfo { kind: MediaKind::Audio, duration_us: Some(900_000), width: None, height: None, sample_rate: Some(44_100) });
    assert_eq!(classify_probe("txt", &probe(vec![stream("data", None, None)], None), 7), None);
    assert_eq!(classify_probe("txt", &ProbeOutput { streams: None, format_duration_us: None }, 7), None);
}

#[test]
fn probes_files_by_their_extension() {
    let report = probe(vec![stream("video", Some(1_000_000), Some("25/1"))], None);
    assert_eq!(MediaInfo::from_probe("/media/POSTER.JPG", &report, 3).unwrap().kind, MediaKind::Photo);
    assert_eq!(MediaInfo::from_probe("/media/clip.mp4", &report, 3).unwrap().kind, MediaKind::Video);
    let empty = probe(vec![], None);
    assert_eq!(MediaInfo::from_probe("/media/notes.txt", &empty, 3), Err(MediaError::UnsupportedFormat("/media/notes.txt".to_string())));
}

#[test]
fn creates_materials_from_media_info() {
    let info = MediaInfo { kind: MediaKind::Video, duration_us: Some(1_500_000), width: Some(1920), height: Some(1080), sample_rate: None };
    let material = create_video_material_from_info("clip.mp4", "/tmp/x/clip.mp4", Some("clip"), &info).unwrap();
    assert_eq!(material.path, "/tmp/x/clip.mp4");
    assert_eq!(material.name, "clip");
    assert_eq!(material.duration, 1_500_000);
    assert_eq!((material.width, material.height), (1920, 1080));
    assert_eq!(material.kind, MaterialKind::Video);
    assert_eq!(material.id.len(), 32);
    assert!(material.id.chars().all(|c| c.is_ascii_hexdigit() && !c.is_ascii_uppercase()));

    let audio = MediaInfo { kind: MediaKind::Audio, duration_us: Some(900_000), width: None, height: None, sample_rate: Some(44_100) };
    let a = create_audio_material_from_info("narration.wav", "/tmp/x/narration.wav", None, &audio).unwrap();
    assert_eq!(a.name, "narration.wav");
    assert_eq!(a.duration, 900_000);
    assert_ne!(a.id, material.id);

    assert_eq!(
        create_video_material_from_info("n.wav", "/tmp/n.wav", None, &audio),
        Err(MediaError::NoVideoStream("n.wav".to_string()))
    );
    assert_eq!(
        create_audio_material_from_info("c.mp4", "/tmp/c.mp4", None, &info),
        Err(MediaError::NoAudioStream("c.mp4".to_string()))
    );
    let unknown = MediaInfo { kind: MediaKind::Photo, duration_us: None, width: None, height: None, sample_rate: None };
    let p = create_video_material_from_info("p.png", "/tmp/p.png", None, &unknown).unwrap();
    assert_eq!((p.duration, p.width, p.kind), (0, 0, MaterialKind::Photo));
}

#[test]
fn preload_probes_each_path_once() {
    let paths = vec!["/a/clip.mp4".to_string(), "/a/clip.mp4".to_string(), "/b/n.wav".to_string(), "/a/clip.mp4".to_string()];
    assert_eq!(unique_request_indices(&paths), vec![0, 2]);
}

#[test]
fn creates_video_material_from_declared_media_info_without_probe() {
    let info = MediaInfo { kind: MediaKind::Video, duration_us: Some(1_500_000), width: Some(1920), height: Some(1080), sample_rate: None };
    let material = create_video_material_from_info("media/clip.mp4", "/work/media/clip.mp4", Some("clip"), &info).unwrap();
    assert_eq!(material.path, "/work/media/clip.mp4");
    assert_eq!(material.name, "clip");
    assert_eq!(material.duration, 1_500_000);
    assert_eq!(material.width, 1920);
    assert_eq!(material.height, 1080);
    assert_eq!(material.kind, MaterialKind::Video);
}

#[test]
fn creates_audio_material_from_declared_media_info_without_probe() {
    let info = MediaInfo { kind: MediaKind::Audio, duration_us: Some(900_000), width: None, height: None, sample_rate: Some(44_100) };
    let material = create_audio_material_from_info("media/narration.wav", "/work/media/narration.wav", None, &info).unwrap();
    assert_eq!(material.path, "/work/media/narration.wav");
    assert_eq!(material.name, "narration.wav");
    assert_eq!(material.duration, 900_000);
}

#[test]
fn image_extensions_are_photos_whatever_the_streams() {
    let moving = probe(vec![stream("video", Some(3_000_000), Some("25/1"))], None);
    let info = MediaInfo::from_probe("/media/a.PNG", &moving, 42).unwrap();
    assert_eq!(info.kind, MediaKind::Photo);
    assert_eq!(info.duration_us, Some(42));
    assert_eq!(MediaInfo::from_probe("/media/.png", &moving, 42).unwrap().kind, MediaKind::Video);
    assert_eq!(MediaInfo::from_probe("/media/shots.tif/", &moving, 42).unwrap().kind, MediaKind::Photo);
    let info = MediaInfo { kind: MediaKind::Audio, duration_us: Some(1), width: None, height: None, sample_rate: None };
    let a = create_audio_material_from_info("x", "/work/media/voice.wav/.", None, &info).unwrap();
    assert_eq!(a.name, "voice.wav");
}
