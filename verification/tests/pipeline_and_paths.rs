use glucose_core::ffmpeg::{
    convert_args, extract_audio_args, probe_duration_args, video_format_label,
};
use glucose_core::paths::{
    asset_url, find_subtitle_in_listing, split_dir_name, split_stem_ext, subtitle_candidates,
};
use glucose_core::pipeline::{
    RawSegment, SubtitleStage, collect_segments, converted_path, model_file_name,
    model_file_or_default, model_url, pipeline_paths, should_emit_segment_progress,
};

#[test]
fn path_splitting() {
    assert_eq!(split_dir_name("/a/b/c.mp4"), ("/a/b/".to_string(), "c.mp4".to_string()));
    assert_eq!(split_dir_name("C:\\v\\m.mkv"), ("C:\\v\\".to_string(), "m.mkv".to_string()));
    assert_eq!(split_dir_name("bare.mp4"), ("".to_string(), "bare.mp4".to_string()));
    assert_eq!(split_dir_name("/trailing/"), ("/trailing/".to_string(), "".to_string()));
}

#[test]
fn stem_and_extension() {
    assert_eq!(split_stem_ext("movie.mp4"), ("movie".to_string(), Some("mp4".to_string())));
    assert_eq!(split_stem_ext("archive.tar.gz"), ("archive.tar".to_string(), Some("gz".to_string())));
    assert_eq!(split_stem_ext("noext"), ("noext".to_string(), None));
    assert_eq!(split_stem_ext(".dotfile"), (".dotfile".to_string(), None));
    assert_eq!(split_stem_ext("odd."), ("odd".to_string(), Some("".to_string())));
}

#[test]
fn sidecar_candidates_in_order() {
    let c = subtitle_candidates("/v/movie.mp4").unwrap();
    assert_eq!(
        c,
        vec![
            "/v/movie.srt".to_string(),
            "/v/movie.vtt".to_string(),
            "/v/movie.ass".to_string(),
            "/v/movie.ssa".to_string(),
            "/v/movie.sub".to_string(),
        ]
    );
}

#[test]
fn sidecar_listing_search_is_case_insensitive() {
    let names = vec![
        "other.srt".to_string(),
        "MOVIE.SRT".to_string(),
        "movie.sub".to_string(),
    ];
    let found = find_subtitle_in_listing("/v/Movie.mp4", &names);
    assert_eq!(found, Some("/v/MOVIE.SRT".to_string()));
}

#[test]
fn sidecar_listing_search_folds_beyond_ascii() {
    // The stem comparison folds like the standard library, so a sidecar
    // differing only in non-ASCII case is still found.
    let names = vec!["M\u{dc}NCHEN.srt".to_string()];
    let found = find_subtitle_in_listing("/v/m\u{fc}nchen.mp4", &names);
    assert_eq!(found, Some("/v/M\u{dc}NCHEN.srt".to_string()));
}

#[test]
fn sidecar_listing_search_misses() {
    let names = vec!["movie.txt".to_string(), "clip.srt".to_string()];
    assert_eq!(find_subtitle_in_listing("/v/movie.mp4", &names), None);
}

#[test]
fn asset_urls_are_byte_for_byte() {
    assert_eq!(asset_url("/a b/c.mp4"), "https://asset.localhost//a b/c.mp4");
    assert_eq!(asset_url("C:\\v\\m.mp4"), "https://asset.localhost/C:\\v\\m.mp4");
}

#[test]
fn model_file_mapping() {
    assert_eq!(model_file_name("tiny"), Some("ggml-tiny.bin"));
    assert_eq!(model_file_name("small"), Some("ggml-small.bin"));
    assert_eq!(model_file_name("large-v3-turbo"), Some("ggml-large-v3-turbo-q5_0.bin"));
    assert_eq!(model_file_name("huge"), None);
    assert_eq!(model_file_or_default("huge"), "ggml-tiny.bin");
    assert_eq!(model_file_or_default("small"), "ggml-small.bin");
}

#[test]
fn model_download_urls() {
    assert_eq!(
        model_url("tiny").unwrap(),
        "https://huggingface.co/ggerganov/whisper.cpp/resolve/main/ggml-tiny.bin"
    );
    assert_eq!(model_url("invalid"), None);
}

#[test]
fn pipeline_output_paths() {
    let (temp, srt) = pipeline_paths("/v/movie.mp4").unwrap();
    assert_eq!(temp, "/v/movie_temp_audio.wav");
    assert_eq!(srt, "/v/movie.srt");
    assert_eq!(pipeline_paths("/v/dir/"), None);
    assert_eq!(
        converted_path("/v/movie.avi", "mp4").unwrap(),
        "/v/movie_converted.mp4"
    );
}

#[test]
fn stage_labels_and_marks() {
    assert_eq!(SubtitleStage::Initializing.label(), "initializing");
    assert_eq!(SubtitleStage::Initializing.progress_percent(), 0);
    assert_eq!(SubtitleStage::ExtractingAudio.label(), "extracting_audio");
    assert_eq!(SubtitleStage::ExtractingAudio.progress_percent(), 10);
    assert_eq!(SubtitleStage::LoadingModel.label(), "loading_model");
    assert_eq!(SubtitleStage::LoadingModel.progress_percent(), 30);
    assert_eq!(SubtitleStage::Transcribing.label(), "transcribing");
    assert_eq!(SubtitleStage::Transcribing.progress_percent(), 50);
    assert_eq!(SubtitleStage::Complete.label(), "complete");
    assert_eq!(SubtitleStage::Complete.progress_percent(), 100);
    assert_eq!(SubtitleStage::Error.label(), "error");
    assert_eq!(SubtitleStage::Error.progress_percent(), 0);
}

#[test]
fn raw_segments_become_cues() {
    let raws = vec![
        RawSegment { start_cs: 0, end_cs: 123, text: "  Hello  ".to_string() },
        RawSegment { start_cs: 123, end_cs: 200, text: "   ".to_string() },
        RawSegment { start_cs: -5, end_cs: 250, text: "Clamped".to_string() },
    ];
    let segs = collect_segments(&raws);
    assert_eq!(segs.len(), 2);
    assert_eq!(segs[0].start_ms, 0);
    assert_eq!(segs[0].end_ms, 1230);
    assert_eq!(segs[0].text, "Hello");
    assert_eq!(segs[1].start_ms, 0);
    assert_eq!(segs[1].end_ms, 2500);
    assert_eq!(segs[1].text, "Clamped");
}

#[test]
fn segment_progress_cadence() {
    assert!(should_emit_segment_progress(0));
    assert!(!should_emit_segment_progress(1));
    assert!(!should_emit_segment_progress(9));
    assert!(should_emit_segment_progress(10));
    assert!(should_emit_segment_progress(40));
}

#[test]
fn audio_extraction_arguments() {
    let args = extract_audio_args("/v/m.mp4", "/v/m_temp_audio.wav");
    assert_eq!(
        args,
        vec![
            "-i", "/v/m.mp4", "-vn", "-acodec", "pcm_s16le", "-ar", "16000", "-ac", "1", "-y",
            "/v/m_temp_audio.wav",
        ]
    );
}

#[test]
fn duration_probe_arguments() {
    let args = probe_duration_args("/v/m.mp4");
    assert_eq!(
        args,
        vec![
            "-v",
            "error",
            "-show_entries",
            "format=duration",
            "-of",
            "default=noprint_wrappers=1:nokey=1",
            "/v/m.mp4",
        ]
    );
}

#[test]
fn conversion_presets() {
    assert_eq!(
        convert_args("/v/a.avi", "/v/a_converted.mp4", "mp4").unwrap(),
        vec![
            "-i", "/v/a.avi", "-c:v", "libx264", "-preset", "medium", "-crf", "23", "-c:a",
            "aac", "-b:a", "192k", "-y", "/v/a_converted.mp4",
        ]
    );
    assert_eq!(
        convert_args("/v/a.avi", "/v/a_converted.webm", "webm").unwrap(),
        vec![
            "-i", "/v/a.avi", "-c:v", "libvpx-vp9", "-crf", "30", "-b:v", "0", "-c:a",
            "libopus", "-y", "/v/a_converted.webm",
        ]
    );
    assert_eq!(
        convert_args("/v/a.avi", "/v/a_converted.mkv", "mkv").unwrap(),
        vec!["-i", "/v/a.avi", "-c:v", "copy", "-c:a", "copy", "-y", "/v/a_converted.mkv"]
    );
    assert_eq!(
        convert_args("/v/a.avi", "/v/a_converted.ogv", "ogv"),
        Err("Unsupported format: ogv".to_string())
    );
}

#[test]
fn video_format_labels() {
    assert_eq!(video_format_label("/v/movie.mp4"), "MP4");
    assert_eq!(video_format_label("/v/movie.webm"), "WEBM");
    assert_eq!(video_format_label("/v/noext"), "UNKNOWN");
}
