//! The subtitle pipeline's fixed decisions: stage names and progress
//! marks, the model-size to model-file mapping and its download URL, the
//! temporary and output paths, and the shaping of raw transcription
//! segments into subtitle cues.
//!
//! The shell runs the external tool and the speech model and walks the
//! stages in order; everything it reports or writes is computed here.

use vstd::prelude::*;
use crate::paths::{dir_part, file_name, stem_of_name, video_path_parts};
use crate::srt::{SegModel, Segment, seg_models};
use crate::text::{str_eq, trim, trim_spec};
use vstd::string::StrSliceExecFns;
use vstd::string::StringExecFns;

verus! {

/// The stages a subtitle run reports, in order.
#[derive(Clone, Copy, Debug, PartialEq, Eq, Structural)]
pub enum SubtitleStage {
    Initializing,
    ExtractingAudio,
    LoadingModel,
    Transcribing,
    Complete,
    Error,
}

impl SubtitleStage {
    /// The stage name carried in progress events.
    pub fn label(&self) -> (r: &'static str)
        ensures
            r@ == match *self {
                SubtitleStage::Initializing => "initializing"@,
                SubtitleStage::ExtractingAudio => "extracting_audio"@,
                SubtitleStage::LoadingModel => "loading_model"@,
                SubtitleStage::Transcribing => "transcribing"@,
                SubtitleStage::Complete => "complete"@,
                SubtitleStage::Error => "error"@,
            },
    {
        match self {
            SubtitleStage::Initializing => "initializing",
            SubtitleStage::ExtractingAudio => "extracting_audio",
            SubtitleStage::LoadingModel => "loading_model",
            SubtitleStage::Transcribing => "transcribing",
            SubtitleStage::Complete => "complete",
            SubtitleStage::Error => "error",
        }
    }

    /// The percentage reported when the stage is entered; transcription
    /// then climbs from its mark towards 90 on its own.
    pub fn progress_percent(&self) -> (r: u8)
        ensures
            r == match *self {
                SubtitleStage::Initializing => 0u8,
                SubtitleStage::ExtractingAudio => 10u8,
                SubtitleStage::LoadingModel => 30u8,
                SubtitleStage::Transcribing => 50u8,
                SubtitleStage::Complete => 100u8,
                SubtitleStage::Error => 0u8,
            },
    {
        match self {
            SubtitleStage::Initializing => 0,
            SubtitleStage::ExtractingAudio => 10,
            SubtitleStage::LoadingModel => 30,
            SubtitleStage::Transcribing => 50,
            SubtitleStage::Complete => 100,
            SubtitleStage::Error => 0,
        }
    }
}

/// The model file each supported size resolves to.
pub open spec fn model_file_spec(size: Seq<char>) -> Option<Seq<char>> {
    if size == "tiny"@ {
        Some("ggml-tiny.bin"@)
    } else if size == "small"@ {
        Some("ggml-small.bin"@)
    } else if size == "large-v3-turbo"@ {
        Some("ggml-large-v3-turbo-q5_0.bin"@)
    } else {
        None
    }
}

/// Resolve a model size to its file name; unknown sizes resolve to
/// nothing.
pub fn model_file_name(size: &str) -> (r: Option<&'static str>)
    ensures
        match r {
            Some(f) => model_file_spec(size@) == Some(f@),
            None => model_file_spec(size@) is None,
        },
{
    if str_eq(size, "tiny") {
        Some("ggml-tiny.bin")
    } else if str_eq(size, "small") {
        Some("ggml-small.bin")
    } else if str_eq(size, "large-v3-turbo") {
        Some("ggml-large-v3-turbo-q5_0.bin")
    } else {
        None
    }
}

/// The model file the transcription run loads: the resolved one, or the
/// smallest as a fallback for an unknown size.
pub fn model_file_or_default(size: &str) -> (r: &'static str)
    ensures
        r@ == match model_file_spec(size@) {
            Some(f) => f,
            None => "ggml-tiny.bin"@,
        },
{
    match model_file_name(size) {
        Some(f) => f,
        None => "ggml-tiny.bin",
    }
}

/// The published location a model file downloads from.
pub fn model_url(size: &str) -> (r: Option<String>)
    ensures
        match r {
            Some(u) => match model_file_spec(size@) {
                Some(f) => u@ == "https://huggingface.co/ggerganov/whisper.cpp/resolve/main/"@
                    + f,
                None => false,
            },
            None => model_file_spec(size@) is None,
        },
{
    match model_file_name(size) {
        Some(f) => {
            let mut s = String::from_str(
                "https://huggingface.co/ggerganov/whisper.cpp/resolve/main/",
            );
            s.append(f);
            Some(s)
        },
        None => None,
    }
}

/// The two paths a subtitle run writes: the temporary WAV beside the video
/// and the final subtitle file, both named from the video's stem. Absent
/// when the path has no file name.
pub fn pipeline_paths(video_path: &str) -> (r: Option<(String, String)>)
    ensures
        match r {
            Some(paths) => {
                &&& file_name(video_path@).len() > 0
                &&& paths.0@ == dir_part(video_path@) + stem_of_name(file_name(video_path@))
                    + "_temp_audio.wav"@
                &&& paths.1@ == dir_part(video_path@) + stem_of_name(file_name(video_path@))
                    + ".srt"@
            },
            None => file_name(video_path@).len() == 0,
        },
{
    let parts = match video_path_parts(video_path) {
        Some(parts) => parts,
        None => {
            return None;
        },
    };
    let (dir, stem) = parts;
    let mut temp = dir.clone();
    temp.append(stem.as_str());
    temp.append("_temp_audio.wav");
    let mut srt = dir;
    srt.append(stem.as_str());
    srt.append(".srt");
    Some((temp, srt))
}

/// The output path of a container conversion: the video's stem with a
/// `_converted` mark and the target extension, in the same directory.
pub fn converted_path(video_path: &str, target_format: &str) -> (r: Option<String>)
    ensures
        match r {
            Some(p) => {
                &&& file_name(video_path@).len() > 0
                &&& p@ == dir_part(video_path@) + stem_of_name(file_name(video_path@))
                    + "_converted."@ + target_format@
            },
            None => file_name(video_path@).len() == 0,
        },
{
    let parts = match video_path_parts(video_path) {
        Some(parts) => parts,
        None => {
            return None;
        },
    };
    let (dir, stem) = parts;
    let mut out = dir;
    out.append(stem.as_str());
    out.append("_converted.");
    out.append(target_format);
    Some(out)
}

/// A raw transcription segment as the speech model reports it: timestamps
/// in 10 ms units, text untrimmed.
pub struct RawSegment {
    pub start_cs: i64,
    pub end_cs: i64,
    pub text: String,
}

/// The mathematical shadow of a raw segment.
pub ghost struct RawSegModel {
    pub start_cs: int,
    pub end_cs: int,
    pub text: Seq<char>,
}

impl View for RawSegment {
    type V = RawSegModel;

    open spec fn view(&self) -> RawSegModel {
        RawSegModel { start_cs: self.start_cs as int, end_cs: self.end_cs as int, text: self.text@ }
    }
}

/// The models of a sequence of raw segments.
pub open spec fn raw_models(v: Seq<RawSegment>) -> Seq<RawSegModel> {
    v.map_values(|s: RawSegment| s@)
}

/// Ten milliseconds per unit; a negative timestamp clamps to zero.
pub open spec fn cs_to_ms(t: int) -> nat {
    if t <= 0 {
        0
    } else {
        (t * 10) as nat
    }
}

/// The cues a raw transcription yields: timestamps scaled to milliseconds,
/// text trimmed, and segments whose trimmed text is empty dropped.
pub open spec fn collect_spec(raws: Seq<RawSegModel>) -> Seq<SegModel>
    decreases raws.len(),
{
    if raws.len() == 0 {
        Seq::empty()
    } else {
        let tt = trim_spec(raws[0].text);
        (if tt.len() > 0 {
            seq![
                (SegModel {
                    start_ms: cs_to_ms(raws[0].start_cs),
                    end_ms: cs_to_ms(raws[0].end_cs),
                    text: tt,
                }),
            ]
        } else {
            Seq::empty()
        }) + collect_spec(raws.drop_first())
    }
}

/// Shape the speech model's raw segments into subtitle cues.
pub fn collect_segments(raws: &Vec<RawSegment>) -> (r: Vec<Segment>)
    requires
        forall|k: int|
            0 <= k < raws@.len() ==> (#[trigger] raws@[k]).start_cs <= 922337203685477580i64
                && raws@[k].end_cs <= 922337203685477580i64,
    ensures
        seg_models(r@) == collect_spec(raw_models(raws@)),
{
    let ghost models = raw_models(raws@);
    let mut out: Vec<Segment> = Vec::new();
    let mut i: usize = 0;
    proof {
        assert(models.skip(0) =~= models);
        assert(seg_models(out@) + collect_spec(models) =~= collect_spec(models));
    }
    while i < raws.len()
        invariant
            0 <= i <= raws.len(),
            models == raw_models(raws@),
            forall|k: int|
                0 <= k < raws@.len() ==> (#[trigger] raws@[k]).start_cs <= 922337203685477580i64
                    && raws@[k].end_cs <= 922337203685477580i64,
            seg_models(out@) + collect_spec(models.skip(i as int)) == collect_spec(models),
        decreases raws.len() - i,
    {
        proof {
            assert(models.skip(i as int)[0] == raws@[i as int]@);
            assert(models.skip(i as int).drop_first() =~= models.skip(i + 1));
        }
        let raw = &raws[i];
        let trimmed = trim(raw.text.as_str());
        if trimmed.unicode_len() > 0 {
            let seg = Segment {
                start_ms: cs_to_ms_exec(raw.start_cs),
                end_ms: cs_to_ms_exec(raw.end_cs),
                text: trimmed.to_owned(),
            };
            let ghost before = seg_models(out@);
            proof {
                assert(seg@ == (SegModel {
                    start_ms: cs_to_ms(raws@[i as int]@.start_cs),
                    end_ms: cs_to_ms(raws@[i as int]@.end_cs),
                    text: trim_spec(raws@[i as int]@.text),
                }));
            }
            out.push(seg);
            proof {
                assert(seg_models(out@) =~= before.push(seg@));
                assert(seg_models(out@) + collect_spec(models.skip(i + 1))
                    =~= collect_spec(models));
            }
        } else {
            proof {
                assert(seg_models(out@) + collect_spec(models.skip(i + 1))
                    =~= collect_spec(models));
            }
        }
        i = i + 1;
    }
    proof {
        assert(models.skip(i as int) =~= Seq::<RawSegModel>::empty());
        assert(seg_models(out@) =~= collect_spec(models));
    }
    out
}

/// Scale a 10 ms-unit timestamp to milliseconds, clamping negatives.
fn cs_to_ms_exec(t: i64) -> (r: u64)
    requires
        t <= 922337203685477580i64,
    ensures
        r as nat == cs_to_ms(t as int),
{
    if t <= 0 {
        0
    } else {
        (t * 10) as u64
    }
}

/// A progress event goes out on the first segment and every tenth after.
pub fn should_emit_segment_progress(index: u64) -> (r: bool)
    ensures
        r == (index % 10 == 0),
{
    index % 10 == 0
}

/// The actionable message shown when the model file is absent: where it
/// was looked for, where to get it, and where to put it.
pub fn model_missing_message(model_path: &str, models_dir: &str) -> (r: String)
    ensures
        r@ == "Model not found at: "@ + model_path@
            + "\n\nPlease download the model first. You can download it from:\nhttps://huggingface.co/ggerganov/whisper.cpp/tree/main\n\nPlace it in: "@
            + models_dir@,
{
    let mut s = String::from_str("Model not found at: ");
    s.append(model_path);
    s.append(
        "\n\nPlease download the model first. You can download it from:\nhttps://huggingface.co/ggerganov/whisper.cpp/tree/main\n\nPlace it in: ",
    );
    s.append(models_dir);
    s
}

} // verus!
