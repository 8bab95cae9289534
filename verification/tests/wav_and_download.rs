use glucose_core::download::{
    http_error_message, is_success_status, is_textual_content_type, should_emit_download_progress,
    snippet_of,
};
use glucose_core::wav::{WavError, parse_wav_samples};

#[test]
fn wav_shorter_than_header_is_rejected() {
    let bytes = vec![0u8; 43];
    assert_eq!(parse_wav_samples(&bytes), Err(WavError::TruncatedHeader));
}

#[test]
fn wav_with_exactly_header_is_a_data_error() {
    let bytes = vec![0u8; 44];
    assert_eq!(parse_wav_samples(&bytes), Err(WavError::EmptyData));
}

#[test]
fn wav_with_one_data_byte_is_a_data_error() {
    let bytes = vec![0u8; 45];
    assert_eq!(parse_wav_samples(&bytes), Err(WavError::EmptyData));
}

#[test]
fn wav_with_odd_data_is_a_data_error() {
    // 45 bytes after the 44-byte header: an odd sample byte count.
    let bytes = vec![0u8; 89];
    assert_eq!(parse_wav_samples(&bytes), Err(WavError::OddSampleBytes));
}

#[test]
fn wav_samples_decode_little_endian() {
    let mut bytes = vec![0u8; 44];
    bytes.extend_from_slice(&[0x00, 0x00, 0x01, 0x00, 0xFF, 0x7F, 0x00, 0x80, 0xFF, 0xFF]);
    let samples = parse_wav_samples(&bytes).unwrap();
    assert_eq!(samples, vec![0i16, 1, 32767, -32768, -1]);
}

#[test]
fn wav_sample_scaling_matches_unit_range() {
    let mut bytes = vec![0u8; 44];
    bytes.extend_from_slice(&[0x00, 0x80, 0xFF, 0x7F]);
    let samples = parse_wav_samples(&bytes).unwrap();
    let floats: Vec<f32> = samples.iter().map(|s| *s as f32 / 32768.0).collect();
    assert_eq!(floats[0], -1.0);
    assert!(floats[1] < 1.0 && floats[1] > 0.9999);
}

#[test]
fn only_success_statuses_may_write() {
    // A 404 means the destination file is never created.
    assert!(!is_success_status(404));
    assert!(is_success_status(200));
    assert!(is_success_status(206));
    assert!(is_success_status(299));
    assert!(!is_success_status(300));
    assert!(!is_success_status(199));
    assert!(!is_success_status(500));
}

#[test]
fn textual_content_types_are_quoted() {
    assert!(is_textual_content_type("text/plain"));
    assert!(is_textual_content_type("application/json"));
    assert!(is_textual_content_type("application/xml"));
    assert!(is_textual_content_type("text/html; charset=utf-8"));
    assert!(!is_textual_content_type("application/octet-stream"));
    assert!(!is_textual_content_type(""));
}

#[test]
fn snippet_is_capped_at_512_characters() {
    let long = "a".repeat(600);
    assert_eq!(snippet_of(&long).len(), 512);
    assert_eq!(snippet_of("short"), "short");
    assert_eq!(snippet_of(""), "");
}

#[test]
fn http_error_messages() {
    assert_eq!(http_error_message(404, "404 Not Found", ""), "HTTP error 404 404 Not Found");
    assert_eq!(
        http_error_message(403, "403 Forbidden", "denied"),
        "HTTP error 403 403 Forbidden: denied"
    );
}

#[test]
fn download_progress_cadence() {
    // Crossing a 1 MiB boundary inside the last chunk emits.
    assert!(should_emit_download_progress(1_048_576, 1000, 10_000_000));
    assert!(should_emit_download_progress(1_048_580, 1000, 10_000_000));
    assert!(!should_emit_download_progress(2_000_000, 1000, 10_000_000));
    // Completion always emits.
    assert!(should_emit_download_progress(10_000_000, 1000, 10_000_000));
}
