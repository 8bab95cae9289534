use glucose_core::handoff::{
    HandoffState, MAX_DELIVERY_ATTEMPTS, RetryStep, media_paths_from_args, media_paths_from_urls,
    retry_step,
};

#[test]
fn queue_is_fifo_and_pop_takes_head() {
    let mut st = HandoffState::new();
    st.enqueue(&vec!["a.mp4".to_string(), "b.mp4".to_string()]);
    st.enqueue(&vec!["c.mp4".to_string()]);
    assert_eq!(st.pop_pending(), Some("a.mp4".to_string()));
    assert_eq!(st.pop_pending(), Some("b.mp4".to_string()));
    assert_eq!(st.pop_pending(), Some("c.mp4".to_string()));
    assert_eq!(st.pop_pending(), None);
}

#[test]
fn drain_empties_the_queue() {
    let mut st = HandoffState::new();
    st.enqueue(&vec!["a.mp4".to_string(), "b.mp4".to_string()]);
    let drained = st.drain_for_dispatch();
    assert_eq!(drained, vec!["a.mp4".to_string(), "b.mp4".to_string()]);
    assert_eq!(st.pop_pending(), None);
}

#[test]
fn processed_flag_is_set_once() {
    let mut st = HandoffState::new();
    assert!(!st.processed);
    st.mark_processed();
    assert!(st.processed);
    st.enqueue(&vec!["a.mp4".to_string()]);
    assert!(st.processed);
}

#[test]
fn retry_emits_on_first_attempt_when_not_processed() {
    // With the flag never set, the very first attempt emits.
    assert_eq!(retry_step(1, false), RetryStep::Emit { sleep_ms: 500 });
}

#[test]
fn retry_stops_once_processed() {
    // Once the flag is up, no attempt emits again.
    for attempt in 1..=MAX_DELIVERY_ATTEMPTS {
        assert_eq!(retry_step(attempt, true), RetryStep::Stop);
    }
}

#[test]
fn retry_delay_bands() {
    assert_eq!(retry_step(1, false), RetryStep::Emit { sleep_ms: 500 });
    assert_eq!(retry_step(2, false), RetryStep::Emit { sleep_ms: 2000 });
    assert_eq!(retry_step(5, false), RetryStep::Emit { sleep_ms: 2000 });
    assert_eq!(retry_step(6, false), RetryStep::Emit { sleep_ms: 1000 });
    assert_eq!(retry_step(15, false), RetryStep::Emit { sleep_ms: 1000 });
    assert_eq!(retry_step(16, false), RetryStep::Emit { sleep_ms: 500 });
    assert_eq!(retry_step(29, false), RetryStep::Emit { sleep_ms: 500 });
    assert_eq!(retry_step(30, false), RetryStep::Emit { sleep_ms: 0 });
}

#[test]
fn retry_total_sleep_is_bounded() {
    // 500 + 4 * 2000 + 10 * 1000 + 14 * 500 ms in all.
    let mut total: u64 = 0;
    for attempt in 1..MAX_DELIVERY_ATTEMPTS {
        match retry_step(attempt, false) {
            RetryStep::Emit { sleep_ms } => total += sleep_ms,
            RetryStep::Stop => unreachable!(),
        }
    }
    assert_eq!(total, 25500);
}

#[test]
fn args_are_sanitized_and_filtered() {
    let args = vec![
        "player".to_string(),
        "\"C:\\Users\\a\\movie.mp4\"".to_string(),
        "--flag".to_string(),
        "\\\\?\\D:\\x.mkv".to_string(),
        "notes.txt".to_string(),
    ];
    let picked = media_paths_from_args(&args);
    assert_eq!(picked, vec!["C:\\Users\\a\\movie.mp4".to_string(), "D:\\x.mkv".to_string()]);
}

#[test]
fn first_argument_is_never_a_candidate() {
    let args = vec!["self.mp4".to_string()];
    assert!(media_paths_from_args(&args).is_empty());
    let empty: Vec<String> = Vec::new();
    assert!(media_paths_from_args(&empty).is_empty());
}

#[test]
fn file_urls_are_decoded_and_filtered() {
    let urls = vec![
        "file:///Users/a/My%20Movie.mp4".to_string(),
        "file:///Users/a/readme.txt".to_string(),
        "https://example.com/v.mp4".to_string(),
        "file:///tmp/plain.mkv".to_string(),
    ];
    let picked = media_paths_from_urls(&urls);
    assert_eq!(picked, vec!["/Users/a/My Movie.mp4".to_string(), "/tmp/plain.mkv".to_string()]);
}

#[test]
fn url_decoding_keeps_stray_percent_runs() {
    let urls = vec!["file:///a/%zz%4.mp4".to_string()];
    let picked = media_paths_from_urls(&urls);
    assert_eq!(picked, vec!["/a/%zz%4.mp4".to_string()]);
}
