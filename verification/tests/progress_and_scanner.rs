use glucose_core::progress::{ProgressStore, installed_models, setup_status};
use glucose_core::scanner::{VideoFile, select_recent_videos, sort_by_modified_desc};

#[test]
fn save_then_get_returns_the_saved_entry() {
    let mut store = ProgressStore::new();
    let t = 42.0f64.to_bits();
    let d = 120.0f64.to_bits();
    store.save("/v.mp4", t, d, 1_700_000_000);
    let got = store.get("/v.mp4").unwrap();
    assert_eq!(got.path, "/v.mp4");
    assert_eq!(f64::from_bits(got.current_time_bits), 42.0);
    assert_eq!(f64::from_bits(got.duration_bits), 120.0);
    assert_eq!(got.last_watched, 1_700_000_000);
}

#[test]
fn last_save_wins() {
    let mut store = ProgressStore::new();
    store.save("/v.mp4", 1.0f64.to_bits(), 10.0f64.to_bits(), 100);
    store.save("/v.mp4", 2.5f64.to_bits(), 10.0f64.to_bits(), 200);
    let got = store.get("/v.mp4").unwrap();
    assert_eq!(f64::from_bits(got.current_time_bits), 2.5);
    assert_eq!(got.last_watched, 200);
    assert_eq!(store.all().len(), 1);
}

#[test]
fn keys_are_independent() {
    let mut store = ProgressStore::new();
    store.save("/a.mp4", 1.0f64.to_bits(), 5.0f64.to_bits(), 100);
    store.save("/b.mp4", 2.0f64.to_bits(), 6.0f64.to_bits(), 200);
    store.save("/a.mp4", 3.0f64.to_bits(), 5.0f64.to_bits(), 300);
    let a = store.get("/a.mp4").unwrap();
    let b = store.get("/b.mp4").unwrap();
    assert_eq!(f64::from_bits(a.current_time_bits), 3.0);
    assert_eq!(f64::from_bits(b.current_time_bits), 2.0);
    assert_eq!(store.all().len(), 2);
}

#[test]
fn missing_key_reads_as_absent() {
    let store = ProgressStore::new();
    assert!(store.get("/nope.mp4").is_none());
}

#[test]
fn installed_model_names_in_fixed_order() {
    assert_eq!(installed_models(true, true, true), vec!["tiny", "small", "large-v3-turbo"]);
    assert_eq!(installed_models(false, true, false), vec!["small"]);
    assert!(installed_models(false, false, false).is_empty());
}

#[test]
fn setup_status_is_assembled_verbatim() {
    let s = setup_status(true, true, false, true, false);
    assert!(s.ffmpeg_installed);
    assert_eq!(s.models_installed, vec!["tiny", "large-v3-turbo"]);
    assert!(!s.setup_completed);
}

fn vf(path: &str, modified: u64) -> VideoFile {
    VideoFile {
        path: path.to_string(),
        name: path.to_string(),
        size_bytes: 1,
        modified,
        duration_bits: None,
    }
}

#[test]
fn recent_videos_sorted_newest_first() {
    let input = vec![vf("a", 5), vf("b", 9), vf("c", 1), vf("d", 9), vf("e", 3)];
    let out = sort_by_modified_desc(input);
    let times: Vec<u64> = out.iter().map(|v| v.modified).collect();
    assert_eq!(times, vec![9, 9, 5, 3, 1]);
}

#[test]
fn recent_videos_capped_at_twenty() {
    let mut input = Vec::new();
    for i in 0..25u64 {
        input.push(vf(&format!("v{}", i), i));
    }
    let out = select_recent_videos(input);
    assert_eq!(out.len(), 20);
    for w in out.windows(2) {
        assert!(w[0].modified >= w[1].modified);
    }
    // The twenty newest survive: times 24 down to 5.
    assert_eq!(out[0].modified, 24);
    assert_eq!(out[19].modified, 5);
}

#[test]
fn recent_videos_short_list_kept_whole() {
    let input = vec![vf("a", 2), vf("b", 7)];
    let out = select_recent_videos(input);
    assert_eq!(out.len(), 2);
    assert_eq!(out[0].modified, 7);
    assert_eq!(out[1].modified, 2);
}
