use glucose_core::srt::{Segment, format_srt_time, parse_srt, parse_srt_time, render_srt, u64_to_dec};

fn seconds_to_ms(seconds: f64) -> u64 {
    (seconds * 1000.0).round() as u64
}

#[test]
fn decimal_rendering() {
    assert_eq!(u64_to_dec(0), "0");
    assert_eq!(u64_to_dec(7), "7");
    assert_eq!(u64_to_dec(10), "10");
    assert_eq!(u64_to_dec(90061), "90061");
    assert_eq!(u64_to_dec(u64::MAX), "18446744073709551615");
}

#[test]
fn srt_time_rounding_scenario() {
    assert_eq!(format_srt_time(seconds_to_ms(0.0)), "00:00:00,000");
    assert_eq!(format_srt_time(seconds_to_ms(1.2345)), "00:00:01,235");
}

#[test]
fn srt_time_no_sixty_second_wrap() {
    // Rounding to whole milliseconds first means the boundary formats as a
    // full hour, never as a 60-second or 1000-millisecond field.
    assert_eq!(format_srt_time(3_599_999), "00:59:59,999");
    assert_eq!(format_srt_time(seconds_to_ms(3600.0)), "01:00:00,000");
}

#[test]
fn srt_time_fields() {
    assert_eq!(format_srt_time(0), "00:00:00,000");
    assert_eq!(format_srt_time(999), "00:00:00,999");
    assert_eq!(format_srt_time(1000), "00:00:01,000");
    assert_eq!(format_srt_time(61_001), "00:01:01,001");
    assert_eq!(format_srt_time(3_661_007), "01:01:01,007");
    assert_eq!(format_srt_time(360_000_000), "100:00:00,000");
}

#[test]
fn millisecond_field_stays_below_thousand() {
    for ms in [0u64, 1, 999, 1000, 1001, 59_999, 60_000, 3_599_999, 3_600_000] {
        let t = format_srt_time(ms);
        let after_comma = &t[t.len() - 3..];
        let val: u64 = after_comma.parse().unwrap();
        assert!(val <= 999);
        assert_eq!(val, ms % 1000);
    }
}

#[test]
fn rendered_document_layout() {
    let segments = vec![
        Segment { start_ms: 0, end_ms: 1235, text: "Hello there".to_string() },
        Segment { start_ms: 1300, end_ms: 2500, text: "Second line".to_string() },
    ];
    let doc = render_srt(&segments);
    assert_eq!(
        doc,
        "1\n00:00:00,000 --> 00:00:01,235\nHello there\n\n\
         2\n00:00:01,300 --> 00:00:02,500\nSecond line\n\n"
    );
}

#[test]
fn rendered_document_empty() {
    let segments: Vec<Segment> = Vec::new();
    assert_eq!(render_srt(&segments), "");
}

#[test]
fn time_parses_back() {
    assert_eq!(parse_srt_time("00:00:01,235"), Some(1235));
    assert_eq!(parse_srt_time("00:59:59,999"), Some(3_599_999));
    assert_eq!(parse_srt_time("100:00:00,000"), Some(360_000_000));
    assert_eq!(parse_srt_time("00:60:00,000"), None);
    assert_eq!(parse_srt_time("00:00:60,000"), None);
    assert_eq!(parse_srt_time("not a time"), None);
    assert_eq!(parse_srt_time("00:00:00.000"), None);
    assert_eq!(parse_srt_time(""), None);
}

#[test]
fn document_round_trip() {
    let segments = vec![
        Segment { start_ms: 0, end_ms: 1235, text: "Hello there".to_string() },
        Segment { start_ms: 1300, end_ms: 2500, text: "General greeting".to_string() },
        Segment { start_ms: 3_599_999, end_ms: 3_600_000, text: "Hour boundary".to_string() },
    ];
    let doc = render_srt(&segments);
    let parsed = parse_srt(&doc).unwrap();
    assert_eq!(parsed.len(), segments.len());
    for (a, b) in parsed.iter().zip(segments.iter()) {
        assert_eq!(a.start_ms, b.start_ms);
        assert_eq!(a.end_ms, b.end_ms);
        assert_eq!(a.text, b.text);
    }
}

#[test]
fn malformed_documents_are_refused() {
    assert_eq!(parse_srt("1
00:00:00,000 --> 00:00:01,000


").map(|v| v.len()), None);
    assert_eq!(parse_srt("x
00:00:00,000 --> 00:00:01,000
hi

").map(|v| v.len()), None);
    assert_eq!(parse_srt("1
broken
hi

").map(|v| v.len()), None);
    assert_eq!(parse_srt("").map(|v| v.len()), Some(0));
}

#[test]
fn time_round_trip_at_the_64_bit_edge() {
    let top = format_srt_time(u64::MAX);
    assert_eq!(parse_srt_time(&top), Some(u64::MAX));
    // One hour more than fits in 64 bits of milliseconds is refused.
    assert_eq!(parse_srt_time("5124095576030432:00:00,000"), None);
}
