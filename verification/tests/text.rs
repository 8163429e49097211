use yingdraft::messages::{concat_error_message, path_error_message, srt_error_message};
use yingdraft::concat::{parse_concat_content, ConcatError};
use yingdraft::output::{classify_error_message, current_format, init, is_json, OutputFormat, OutputSetting};
use yingdraft::paths::{sanitize_draft_name, sanitize_file_name, validate_simple_relative_path, PathError};
use yingdraft::srt::{parse_srt_content, SrtCue, SrtError};

#[test]
fn parses_srt_cues() {
    let cues = parse_srt_content("\u{feff}1\r\n00:00:00,000 --> 00:00:00,400\r\n第一句\r\n\r\n2\n00:00:01.000 --> 00:00:01,400\n第二句\n换行\n").unwrap();
    assert_eq!(
        cues,
        vec![
            SrtCue { start_ms: 0, end_ms: 400, text: "第一句".to_string() },
            SrtCue { start_ms: 1000, end_ms: 1400, text: "第二句\n换行".to_string() },
        ]
    );
}

#[test]
fn srt_refusals() {
    assert_eq!(parse_srt_content("\n\n"), Err(SrtError::NoCues));
    assert!(matches!(parse_srt_content("1\n00:00:02,000 --> 00:00:01,000\nx\n"), Err(SrtError::EndNotAfterStart(_))));
    assert!(matches!(parse_srt_content("1\n00:00:01,000 --> 00:00:02,000\n"), Err(SrtError::MissingText(_))));
    assert!(matches!(parse_srt_content("1\n00:61:00,000 --> 00:62:00,000\nx\n"), Err(SrtError::BadTimeRange(_, _))));
}

#[test]
fn concat_lists_name_files() {
    assert_eq!(
        parse_concat_content("file 'video_001.mp4'\nfile 'video_002.mp4'\n").unwrap(),
        vec!["video_001.mp4".to_string(), "video_002.mp4".to_string()]
    );
    assert_eq!(parse_concat_content("duration 2\n"), Err(ConcatError::NotFileEntry(1)));
    assert_eq!(parse_concat_content("file video.mp4\n"), Err(ConcatError::Unquoted(1)));
    assert_eq!(parse_concat_content("\n"), Err(ConcatError::NoEntries));
    assert_eq!(
        parse_concat_content("file 'a/../b.mp4'\n"),
        Err(ConcatError::BadPath(1, PathError::BadSegment("concat line 1 path".to_string())))
    );
}

#[test]
fn relative_paths_are_checked() {
    assert_eq!(validate_simple_relative_path("asset path", "video/a.mp4"), Ok(()));
    assert_eq!(validate_simple_relative_path("asset path", " "), Err(PathError::Empty("asset path".to_string())));
    assert_eq!(validate_simple_relative_path("asset path", "a\\b"), Err(PathError::Backslash("asset path".to_string())));
    assert_eq!(validate_simple_relative_path("asset path", "/etc/passwd"), Err(PathError::Absolute("asset path".to_string())));
    assert_eq!(validate_simple_relative_path("asset path", "a//b"), Err(PathError::BadSegment("asset path".to_string())));
}

#[test]
fn names_are_sanitized() {
    assert_eq!(sanitize_file_name("clip 01.mp4"), "clip_01.mp4");
    assert_eq!(sanitize_file_name(""), "asset.bin");
    assert_eq!(sanitize_draft_name("  my: draft\t name "), "my__draft_name");
    assert_eq!(sanitize_draft_name("   "), "imported_bundle");
    assert_eq!(sanitize_draft_name(&sanitize_draft_name("a/b  c")), sanitize_draft_name("a/b  c"));
}

#[test]
fn output_format_is_set_once() {
    let mut setting = OutputSetting::new();
    assert!(!is_json(&setting));
    assert_eq!(current_format(&setting), OutputFormat::Text);
    init(&mut setting, OutputFormat::Json);
    init(&mut setting, OutputFormat::Text);
    assert!(is_json(&setting));
}

#[test]
fn errors_are_classified_by_their_words() {
    assert_eq!(classify_error_message("FFprobe not found on PATH"), "ffprobe_not_found");
    assert_eq!(classify_error_message("failed to parse subtitle file"), "subtitle_parse_failed");
    assert_eq!(classify_error_message("Download failed"), "download_failed");
    assert_eq!(classify_error_message("cannot write draft"), "draft_write_failed");
    assert_eq!(classify_error_message("something else"), "command_failed");
}

#[test]
fn parse_concat_file_rejects_unsupported_lines() {
    assert_eq!(parse_concat_content("duration 2\n"), Err(ConcatError::NotFileEntry(1)));
}

#[test]
fn srt_reads_the_same_with_windows_line_endings() {
    let unix = "1\n00:00:00,000 --> 00:00:00,400\n第一句\n\n2\n00:00:01,000 --> 00:00:01,400\n第二句\n";
    let windows = unix.replace('\n', "\r\n");
    let a = parse_srt_content(unix).unwrap();
    assert_eq!(a, parse_srt_content(&windows).unwrap());
    assert!(a.iter().all(|c| !c.text.is_empty()));
}

#[test]
fn relative_paths_may_hold_a_colon() {
    assert_eq!(validate_simple_relative_path("asset path", "a:b.mp4"), Ok(()));
    assert_eq!(validate_simple_relative_path("asset path", "clips/12:30.mp4"), Ok(()));
}

#[test]
fn errors_read_as_messages() {
    assert_eq!(concat_error_message(&ConcatError::NotFileEntry(1)), "concat line 1 only supports file entries");
    assert_eq!(path_error_message(&PathError::Absolute("asset path".to_string())), "asset path must be relative");
    assert_eq!(srt_error_message(&SrtError::MissingText(12)), "srt block 12 is missing text");
}
