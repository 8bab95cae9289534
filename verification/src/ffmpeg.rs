//! Argument lists for the external media tool, and the format label shown
//! for a video file.
//!
//! The shell launches the tool (console window hidden where that matters)
//! and collects its output; which flags are passed is decided here, so the
//! extraction format and the transcoding presets are pinned down.

use vstd::prelude::*;
use crate::paths::{ext_of_name, file_name};
use crate::text::{seq_views, str_eq, to_upper, upper};
use vstd::string::StrSliceExecFns;
use vstd::string::StringExecFns;

verus! {

/// The arguments that extract a video's audio track as the speech model
/// needs it: no video, 16-bit little-endian PCM, 16 kHz, mono, overwriting
/// any previous file.
pub fn extract_audio_args(video_path: &str, output_audio_path: &str) -> (r: Vec<String>)
    ensures
        seq_views(r@) == seq![
            "-i"@,
            video_path@,
            "-vn"@,
            "-acodec"@,
            "pcm_s16le"@,
            "-ar"@,
            "16000"@,
            "-ac"@,
            "1"@,
            "-y"@,
            output_audio_path@,
        ],
{
    let mut r: Vec<String> = Vec::new();
    r.push(String::from_str("-i"));
    r.push(String::from_str(video_path));
    r.push(String::from_str("-vn"));
    r.push(String::from_str("-acodec"));
    r.push(String::from_str("pcm_s16le"));
    r.push(String::from_str("-ar"));
    r.push(String::from_str("16000"));
    r.push(String::from_str("-ac"));
    r.push(String::from_str("1"));
    r.push(String::from_str("-y"));
    r.push(String::from_str(output_audio_path));
    proof {
        assert(seq_views(r@) =~= seq![
            "-i"@,
            video_path@,
            "-vn"@,
            "-acodec"@,
            "pcm_s16le"@,
            "-ar"@,
            "16000"@,
            "-ac"@,
            "1"@,
            "-y"@,
            output_audio_path@,
        ]);
    }
    r
}

/// The arguments that ask the probe tool for a container's duration in
/// plain seconds on standard output.
pub fn probe_duration_args(video_path: &str) -> (r: Vec<String>)
    ensures
        seq_views(r@) == seq![
            "-v"@,
            "error"@,
            "-show_entries"@,
            "format=duration"@,
            "-of"@,
            "default=noprint_wrappers=1:nokey=1"@,
            video_path@,
        ],
{
    let mut r: Vec<String> = Vec::new();
    r.push(String::from_str("-v"));
    r.push(String::from_str("error"));
    r.push(String::from_str("-show_entries"));
    r.push(String::from_str("format=duration"));
    r.push(String::from_str("-of"));
    r.push(String::from_str("default=noprint_wrappers=1:nokey=1"));
    r.push(String::from_str(video_path));
    proof {
        assert(seq_views(r@) =~= seq![
            "-v"@,
            "error"@,
            "-show_entries"@,
            "format=duration"@,
            "-of"@,
            "default=noprint_wrappers=1:nokey=1"@,
            video_path@,
        ]);
    }
    r
}

/// The codec preset of a conversion target.
pub open spec fn preset_args_spec(fmt: Seq<char>) -> Option<Seq<Seq<char>>> {
    if fmt == "mp4"@ {
        Some(
            seq![
                "-c:v"@,
                "libx264"@,
                "-preset"@,
                "medium"@,
                "-crf"@,
                "23"@,
                "-c:a"@,
                "aac"@,
                "-b:a"@,
                "192k"@,
            ],
        )
    } else if fmt == "webm"@ {
        Some(seq!["-c:v"@, "libvpx-vp9"@, "-crf"@, "30"@, "-b:v"@, "0"@, "-c:a"@, "libopus"@])
    } else if fmt == "mkv"@ {
        Some(seq!["-c:v"@, "copy"@, "-c:a"@, "copy"@])
    } else {
        None
    }
}

/// The whole argument list of a conversion: the input, the target's
/// preset, and the output with overwrite forced. An unsupported target is
/// refused.
pub fn convert_args(input_path: &str, output_path: &str, target_format: &str) -> (r: Result<
    Vec<String>,
    String,
>)
    ensures
        match r {
            Ok(args) => match preset_args_spec(target_format@) {
                Some(preset) => seq_views(args@) == seq!["-i"@, input_path@] + preset
                    + seq!["-y"@, output_path@],
                None => false,
            },
            Err(e) => preset_args_spec(target_format@) is None && e@ == "Unsupported format: "@
                + target_format@,
        },
{
    let mut r: Vec<String> = Vec::new();
    r.push(String::from_str("-i"));
    r.push(String::from_str(input_path));
    if str_eq(target_format, "mp4") {
        r.push(String::from_str("-c:v"));
        r.push(String::from_str("libx264"));
        r.push(String::from_str("-preset"));
        r.push(String::from_str("medium"));
        r.push(String::from_str("-crf"));
        r.push(String::from_str("23"));
        r.push(String::from_str("-c:a"));
        r.push(String::from_str("aac"));
        r.push(String::from_str("-b:a"));
        r.push(String::from_str("192k"));
    } else if str_eq(target_format, "webm") {
        r.push(String::from_str("-c:v"));
        r.push(String::from_str("libvpx-vp9"));
        r.push(String::from_str("-crf"));
        r.push(String::from_str("30"));
        r.push(String::from_str("-b:v"));
        r.push(String::from_str("0"));
        r.push(String::from_str("-c:a"));
        r.push(String::from_str("libopus"));
    } else if str_eq(target_format, "mkv") {
        r.push(String::from_str("-c:v"));
        r.push(String::from_str("copy"));
        r.push(String::from_str("-c:a"));
        r.push(String::from_str("copy"));
    } else {
        let mut e = String::from_str("Unsupported format: ");
        e.append(target_format);
        return Err(e);
    }
    r.push(String::from_str("-y"));
    r.push(String::from_str(output_path));
    proof {
        let preset = preset_args_spec(target_format@).unwrap();
        assert(seq_views(r@) =~= seq!["-i"@, input_path@] + preset + seq!["-y"@, output_path@]);
    }
    Ok(r)
}

/// The format label of a video: its extension uppercased, with the
/// `unknown` fallback uppercased the same way.
pub fn video_format_label(video_path: &str) -> (r: String)
    ensures
        r@ == match ext_of_name(file_name(video_path@)) {
            Some(e) => upper(e),
            None => "UNKNOWN"@,
        },
{
    let (_, name) = crate::paths::split_dir_name(video_path);
    let (_, ext) = crate::paths::split_stem_ext(name.as_str());
    match ext {
        Some(e) => to_upper(e.as_str()),
        None => String::from_str("UNKNOWN"),
    }
}

} // verus!
