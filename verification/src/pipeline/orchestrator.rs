//! The pipeline's configuration and the decisions it takes between its
//! stages: the order of the stages, cancellation, the recognition threads,
//! the source language, the names of the output files and what is written
//! into them.

use crate::asr::engine::Segment;
use crate::config::settings::recommended_asr_threads;
use crate::error::AppError;
use crate::subtitle::ass::{ass_document, AssStyle, AssWriter};
use crate::subtitle::srt::{srt_document, SrtWriter};
use crate::subtitle::types::{entries_view, format_extension, SubtitleFile, SubtitleFormat};
use crate::subtitle::vtt::{vtt_document, VttWriter};
use crate::text::{chars_to_string, push_str, push_string, str_eq, string_views};
use crate::translate::engine::TranslateRequest;
use vstd::prelude::*;

verus! {

/// A processing task as the user set it up.
#[derive(Debug, Clone)]
pub struct PipelineConfig {
    pub input_path: String,
    pub output_dir: String,
    pub source_language: Option<String>,
    pub target_language: String,
    pub output_format: SubtitleFormat,
    pub asr_model: String,
    pub translate_engine: String,
    pub use_gpu: bool,
    pub n_threads: Option<u32>,
    pub skip_translation: bool,
}

/// The stages of a run, and its two ends.
#[derive(Debug, Clone, Copy, PartialEq, Eq, Structural)]
pub enum PipelineStep {
    ExtractingAudio,
    Transcribing,
    WritingSource,
    Translating,
    WritingBilingual,
    Done,
    Cancelled,
}

/// The stage after `step` once it finished: a requested cancellation stops
/// the run; translation is skipped on request.
pub open spec fn step_after(step: PipelineStep, cancelled: bool, skip_translation: bool) -> PipelineStep {
    match step {
        PipelineStep::ExtractingAudio => if cancelled {
            PipelineStep::Cancelled
        } else {
            PipelineStep::Transcribing
        },
        PipelineStep::Transcribing => if cancelled {
            PipelineStep::Cancelled
        } else {
            PipelineStep::WritingSource
        },
        PipelineStep::WritingSource => if cancelled {
            PipelineStep::Cancelled
        } else if skip_translation {
            PipelineStep::Done
        } else {
            PipelineStep::Translating
        },
        PipelineStep::Translating => if cancelled {
            PipelineStep::Cancelled
        } else {
            PipelineStep::WritingBilingual
        },
        PipelineStep::WritingBilingual => PipelineStep::Done,
        PipelineStep::Done => PipelineStep::Done,
        PipelineStep::Cancelled => PipelineStep::Cancelled,
    }
}

/// The stage reached after `n` finished stages without cancellation.
pub open spec fn steps_uncancelled(step: PipelineStep, n: nat, skip_translation: bool) -> PipelineStep
    decreases n,
{
    if n == 0 {
        step
    } else {
        steps_uncancelled(step_after(step, false, skip_translation), (n - 1) as nat, skip_translation)
    }
}

/// The style `AssStyle::default` gives.
pub open spec fn is_default_ass_style(st: AssStyle) -> bool {
    &&& st.primary_font@ == "Arial"@
    &&& st.primary_size == 48
    &&& st.primary_color@ == "&H00FFFFFF"@
    &&& st.secondary_font@ == "Arial"@
    &&& st.secondary_size == 36
    &&& st.secondary_color@ == "&H0000FFFF"@
    &&& st.outline_size == 2
    &&& st.shadow_size == 1
    &&& st.play_res_x == 1920
    &&& st.play_res_y == 1080
}

/// `stem.lang.ext`.
pub open spec fn source_file_name(stem: Seq<char>, lang: Seq<char>, f: SubtitleFormat) -> Seq<char> {
    stem + seq!['.'] + lang + seq!['.'] + format_extension(f)
}

/// `stem.src-tgt.ext`.
pub open spec fn bilingual_file_name(stem: Seq<char>, src: Seq<char>, tgt: Seq<char>, f: SubtitleFormat) -> Seq<
    char,
> {
    stem + seq!['.'] + src + seq!['-'] + tgt + seq!['.'] + format_extension(f)
}

pub struct PipelineOrchestrator;

impl PipelineOrchestrator {
    /// The stage after `step` (see `step_after`).
    pub fn next_step(step: PipelineStep, cancelled: bool, skip_translation: bool) -> (s: PipelineStep)
        ensures
            s == step_after(step, cancelled, skip_translation),
    {
        match step {
            PipelineStep::ExtractingAudio => if cancelled {
                PipelineStep::Cancelled
            } else {
                PipelineStep::Transcribing
            },
            PipelineStep::Transcribing => if cancelled {
                PipelineStep::Cancelled
            } else {
                PipelineStep::WritingSource
            },
            PipelineStep::WritingSource => if cancelled {
                PipelineStep::Cancelled
            } else if skip_translation {
                PipelineStep::Done
            } else {
                PipelineStep::Translating
            },
            PipelineStep::Translating => if cancelled {
                PipelineStep::Cancelled
            } else {
                PipelineStep::WritingBilingual
            },
            PipelineStep::WritingBilingual => PipelineStep::Done,
            PipelineStep::Done => PipelineStep::Done,
            PipelineStep::Cancelled => PipelineStep::Cancelled,
        }
    }

    /// The recognition threads: the configured count when positive,
    /// otherwise the recommended one.
    pub fn asr_threads(n_threads: Option<u32>) -> (n: u32)
        ensures
            n_threads matches Some(t) && t > 0 ==> n == n_threads->0,
            !(n_threads matches Some(t) && t > 0) ==> 1 <= n <= 8,
    {
        match n_threads {
            Some(t) => if t > 0 {
                t
            } else {
                recommended_asr_threads()
            },
            None => recommended_asr_threads(),
        }
    }

    /// The language of the source: the configured one, otherwise the one
    /// detected for the first segment.
    pub fn source_language<'a>(configured: &'a Option<String>, segments: &'a [Segment]) -> (s: &'a str)
        requires
            configured is Some || segments@.len() > 0,
        ensures
            configured matches Some(c) ==> s@ == c@,
            configured is None ==> s@ == segments@[0].language@,
    {
        match configured {
            Some(c) => c.as_str(),
            None => segments[0].language.as_str(),
        }
    }

    /// Recognition that found nothing ends the run.
    pub fn check_segments(segments: &[Segment]) -> (r: Result<(), AppError>)
        ensures
            segments@.len() > 0 <==> r is Ok,
            r matches Err(e) ==> (e matches AppError::Pipeline(m) && m@ == "No speech detected in audio"@),
    {
        if segments.len() == 0 {
            return Err(AppError::Pipeline("No speech detected in audio".to_owned()));
        }
        Ok(())
    }

    /// The error a cancelled run ends with.
    pub fn cancelled_error() -> (e: AppError)
        ensures
            e matches AppError::Pipeline(m) && m@ == "Cancelled"@,
    {
        AppError::Pipeline("Cancelled".to_owned())
    }

    /// A failure is reported to the user unless it is the cancellation.
    pub fn is_cancellation(e: &AppError) -> (b: bool)
        ensures
            b == (e matches AppError::Pipeline(m) && m@ == "Cancelled"@),
    {
        match e {
            AppError::Pipeline(m) => str_eq(m.as_str(), "Cancelled"),
            _ => false,
        }
    }

    /// The file name of the source-language subtitle.
    pub fn source_output_filename(stem: &str, lang: &str, format: SubtitleFormat) -> (s: String)
        ensures
            s@ == source_file_name(stem@, lang@, format),
    {
        let mut out: Vec<char> = Vec::new();
        push_str(&mut out, stem);
        out.push('.');
        push_str(&mut out, lang);
        out.push('.');
        push_str(&mut out, format.extension());
        chars_to_string(out.as_slice())
    }

    /// The file name of the bilingual subtitle.
    pub fn bilingual_output_filename(stem: &str, source_lang: &str, target_lang: &str, format: SubtitleFormat) -> (s: String)
        ensures
            s@ == bilingual_file_name(stem@, source_lang@, target_lang@, format),
    {
        let mut out: Vec<char> = Vec::new();
        push_str(&mut out, stem);
        out.push('.');
        push_str(&mut out, source_lang);
        out.push('-');
        push_str(&mut out, target_lang);
        out.push('.');
        push_str(&mut out, format.extension());
        chars_to_string(out.as_slice())
    }

    /// What is written to a subtitle file: a byte-order mark, then the file
    /// in its format (ASS with the default style).
    pub fn render_subtitle(subtitle: &SubtitleFile, format: SubtitleFormat) -> (s: String)
        ensures
            format == SubtitleFormat::Srt ==> s@ == seq!['\u{feff}'] + srt_document(entries_view(subtitle.entries@)),
            format == SubtitleFormat::Vtt ==> s@ == seq!['\u{feff}'] + vtt_document(*subtitle),
            format == SubtitleFormat::Ass ==> exists|st: AssStyle|
                is_default_ass_style(st) && s@ == seq!['\u{feff}'] + ass_document(*subtitle, st),
    {
        let mut out: Vec<char> = Vec::new();
        out.push('\u{feff}');
        match format {
            SubtitleFormat::Srt => {
                let body = SrtWriter::write(subtitle);
                push_string(&mut out, &body);
            },
            SubtitleFormat::Ass => {
                let style = AssStyle::default();
                let body = AssWriter::write(subtitle, &style);
                push_string(&mut out, &body);
                assert(is_default_ass_style(style));
            },
            SubtitleFormat::Vtt => {
                let body = VttWriter::write(subtitle);
                push_string(&mut out, &body);
            },
        }
        chars_to_string(out.as_slice())
    }

    /// The request translating every segment's text.
    pub fn translation_request(segments: &[Segment], source_lang: &str, target_lang: &str) -> (r: TranslateRequest)
        ensures
            string_views(r.texts@) == segments@.map_values(|s: Segment| s.text@),
            r.source_lang@ == source_lang@,
            r.target_lang@ == target_lang@,
            r.context_hint is None,
    {
        let mut texts: Vec<String> = Vec::new();
        let mut i: usize = 0;
        while i < segments.len()
            invariant
                i <= segments@.len(),
                string_views(texts@) == segments@.map_values(|s: Segment| s.text@).take(i as int),
            decreases segments.len() - i,
        {
            let ghost before = texts@;
            texts.push(segments[i].text.clone());
            proof {
                assert(string_views(texts@) =~= string_views(before).push(segments@[i as int].text@));
            }
            i = i + 1;
            proof {
                assert(string_views(texts@) =~= segments@.map_values(|s: Segment| s.text@).take(i as int));
            }
        }
        assert(segments@.map_values(|s: Segment| s.text@).take(segments@.len() as int)
            =~= segments@.map_values(|s: Segment| s.text@));
        TranslateRequest {
            texts,
            source_lang: source_lang.to_owned(),
            target_lang: target_lang.to_owned(),
            context_hint: None,
        }
    }

    /// The duration reported: the end of the last segment, zero without
    /// segments.
    pub fn duration_ms(segments: &[Segment]) -> (d: u64)
        ensures
            segments@.len() == 0 ==> d == 0,
            segments@.len() > 0 ==> d == segments@.last().end_ms,
    {
        if segments.len() == 0 {
            0
        } else {
            segments[segments.len() - 1].end_ms
        }
    }
}

/// A run that is never cancelled finishes: after the source subtitle when
/// translation is skipped (three stages), otherwise after the bilingual
/// one (five stages).
pub proof fn lemma_run_completes(skip_translation: bool)
    ensures
        skip_translation ==> steps_uncancelled(PipelineStep::ExtractingAudio, 3, true) == PipelineStep::Done,
        !skip_translation ==> steps_uncancelled(PipelineStep::ExtractingAudio, 5, false) == PipelineStep::Done,
{
    reveal_with_fuel(steps_uncancelled, 6);
}

/// A cancellation noticed after any stage ends the run, and a finished or
/// cancelled run stays so.
pub proof fn lemma_cancel_stops(step: PipelineStep, skip_translation: bool)
    ensures
        step != PipelineStep::WritingBilingual && step != PipelineStep::Done ==> step_after(
            step,
            true,
            skip_translation,
        ) == PipelineStep::Cancelled,
        step_after(PipelineStep::Done, true, skip_translation) == PipelineStep::Done,
        step_after(PipelineStep::Cancelled, false, skip_translation) == PipelineStep::Cancelled,
{
}

} // verus!
