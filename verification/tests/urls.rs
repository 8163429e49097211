use url::Url;
use yingdraft::urls::{
    build_remote_file_name, download_file_name, internal_oss_host, parse_hex_rgb, remote_file_name_from_path,
    rewrite_aliyun_oss_url_to_internal,
};

fn rgb(value: &str) -> (f64, f64, f64) {
    let (r, g, b) = parse_hex_rgb(value);
    (r as f64 / 255.0, g as f64 / 255.0, b as f64 / 255.0)
}

#[test]
fn rewrites_aliyun_oss_endpoint_to_internal() {
    let url = Url::parse("https://outin-123.oss-cn-shanghai.aliyuncs.com/video/a.mp4?Expires=1").unwrap();
    let rewritten = rewrite_aliyun_oss_url_to_internal(url.as_str());
    assert_eq!(rewritten.as_str(), "https://outin-123.oss-cn-shanghai-internal.aliyuncs.com/video/a.mp4?Expires=1");
}

#[test]
fn does_not_rewrite_existing_internal_or_custom_domain() {
    let internal = Url::parse("https://outin-123.oss-cn-shanghai-internal.aliyuncs.com/a.mp4").unwrap();
    assert_eq!(rewrite_aliyun_oss_url_to_internal(internal.as_str()), internal.as_str());
    let custom = Url::parse("https://media.example.com/a.mp4").unwrap();
    assert_eq!(rewrite_aliyun_oss_url_to_internal(custom.as_str()), custom.as_str());
}

#[test]
fn accelerated_endpoints_stay_public() {
    assert_eq!(internal_oss_host("bucket.oss-accelerate.aliyuncs.com"), None);
    assert_eq!(internal_oss_host("bucket.oss-cn-beijing.example.com"), None);
    assert_eq!(
        internal_oss_host("bucket.oss-cn-beijing.aliyuncs.com"),
        Some("bucket.oss-cn-beijing-internal.aliyuncs.com".to_string())
    );
}

#[test]
fn parses_hex_rgb() {
    assert_eq!(rgb("#ffffff"), (1.0, 1.0, 1.0));
    assert_eq!(rgb("#000000"), (0.0, 0.0, 0.0));
}

#[test]
fn hex_colours_edge_cases() {
    assert_eq!(parse_hex_rgb("  ##FF8000 "), (255, 128, 0));
    assert_eq!(parse_hex_rgb("#fff"), (255, 255, 255));
    assert_eq!(parse_hex_rgb("#zz0a+f"), (255, 10, 15));
}

#[test]
fn remote_file_names_keep_safe_characters() {
    assert_eq!(remote_file_name_from_path("/video/片段 1.mp4"), "片段_1.mp4");
    assert_eq!(remote_file_name_from_path("/dir/"), "asset.bin");
    assert_eq!(build_remote_file_name("https://x.example/a/b%20c.mp4?sig=1"), "b%20c.mp4");
    assert_eq!(build_remote_file_name("https://x.example"), "asset.bin");
}

#[test]
fn download_file_names_fall_back_to_the_asset_id() {
    assert_eq!(download_file_name("https://cdn.example/v/clip 01.mp4", "a1"), "clip_2001.mp4");
    assert_eq!(download_file_name("https://cdn.example/v/", "a1"), "a1.bin");
    assert_eq!(download_file_name("not a url", "a2"), "a2.bin");
    assert_eq!(download_file_name("mailto:someone@example.com", "a3"), "a3.bin");
}

#[test]
fn rewriting_twice_changes_nothing_more() {
    let url = "https://outin-123.oss-cn-shanghai.aliyuncs.com/video/a.mp4?Expires=1";
    let once = rewrite_aliyun_oss_url_to_internal(url);
    assert_eq!(rewrite_aliyun_oss_url_to_internal(&once), once);
    assert_eq!(once, "https://outin-123.oss-cn-shanghai-internal.aliyuncs.com/video/a.mp4?Expires=1");
    let odd = "https://a.oss-b.oss.aliyuncs.com/x.mp4";
    let once = rewrite_aliyun_oss_url_to_internal(odd);
    assert_eq!(once, "https://a.oss-b.oss-internal.aliyuncs.com/x.mp4");
    assert_eq!(rewrite_aliyun_oss_url_to_internal(&once), once);
}
