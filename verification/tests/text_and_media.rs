use glucose_core::media::{ends_with_lower, eq_ignore_case, is_image_path, is_subtitle_ext, is_video_path, starts_with};
use glucose_core::sanitize_path;
use glucose_core::text::{contains_str, str_eq, to_upper, trim};

#[test]
fn sanitize_strips_matching_quotes() {
    assert_eq!(sanitize_path("\"C:\\Users\\a\\movie.mp4\""), "C:\\Users\\a\\movie.mp4");
}

#[test]
fn sanitize_strips_long_path_prefix() {
    assert_eq!(sanitize_path("\\\\?\\D:\\x.mkv"), "D:\\x.mkv");
}

#[test]
fn sanitize_trims_whitespace() {
    assert_eq!(sanitize_path("  /home/u/v.mp4 \t"), "/home/u/v.mp4");
}

#[test]
fn sanitize_quotes_then_prefix() {
    assert_eq!(sanitize_path(" \"\\\\?\\C:\\v.mp4\" "), "C:\\v.mp4");
}

#[test]
fn sanitize_lone_quote_is_kept() {
    assert_eq!(sanitize_path("\""), "\"");
}

#[test]
fn sanitize_unmatched_quote_is_kept() {
    assert_eq!(sanitize_path("\"abc"), "\"abc");
}

#[test]
fn trim_both_ends() {
    assert_eq!(trim("  hello \n"), "hello");
    assert_eq!(trim(""), "");
    assert_eq!(trim(" \t "), "");
    assert_eq!(trim("inner space kept"), "inner space kept");
}

#[test]
fn trim_removes_unicode_whitespace() {
    // No-break space, em space and ideographic space are whitespace too.
    assert_eq!(trim("\u{a0}/v/movie.mp4\u{a0}"), "/v/movie.mp4");
    assert_eq!(trim("\u{2003}x\u{3000}"), "x");
    assert_eq!(sanitize_path("\u{a0}\"C:\\v.mp4\"\u{a0}"), "C:\\v.mp4");
}

#[test]
fn video_extensions_case_insensitive() {
    assert!(is_video_path("Movie.MP4"));
    assert!(is_video_path("a.mkv"));
    assert!(is_video_path("b.WebM"));
    assert!(is_video_path("c.mpeg"));
    assert!(!is_video_path("notes.txt"));
    assert!(!is_video_path("mp4"));
    assert!(!is_video_path("archive.mp4.zip"));
}

#[test]
fn image_extensions_recognized() {
    assert!(is_image_path("photo.JPG"));
    assert!(is_image_path("x.heic"));
    assert!(!is_image_path("photo.mp4"));
}

#[test]
fn subtitle_extensions_recognized() {
    assert!(is_subtitle_ext("srt"));
    assert!(is_subtitle_ext("SRT"));
    assert!(is_subtitle_ext("vtt"));
    assert!(is_subtitle_ext("ass"));
    assert!(is_subtitle_ext("ssa"));
    assert!(is_subtitle_ext("sub"));
    assert!(!is_subtitle_ext("txt"));
    assert!(!is_subtitle_ext(".srt"));
}

#[test]
fn suffix_and_prefix_checks() {
    assert!(ends_with_lower("A.MP4", ".mp4"));
    assert!(!ends_with_lower("A.MP", ".mp4"));
    assert!(starts_with("file:///tmp/v.mp4", "file://"));
    assert!(!starts_with("http://x", "file://"));
}

#[test]
fn string_equality_and_case() {
    assert!(str_eq("abc", "abc"));
    assert!(!str_eq("abc", "abd"));
    assert!(!str_eq("abc", "ab"));
    assert!(eq_ignore_case("MoViE", "movie"));
    assert!(!eq_ignore_case("movie", "movies"));
    assert_eq!(to_upper("mp4"), "MP4");
    assert_eq!(to_upper("mIxEd-1"), "MIXED-1");
}

#[test]
fn substring_search() {
    assert!(contains_str("application/json; charset=utf-8", "json"));
    assert!(contains_str("abc", ""));
    assert!(!contains_str("abc", "abcd"));
    assert!(contains_str("xxhtml", "html"));
}
