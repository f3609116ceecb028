//! The decisions made around the Whisper recogniser: which chunks to
//! transcribe, which recognised segments to keep and where they lie in the
//! whole recording, and what the engine offers.

use crate::asr::engine::{LanguageInfo, Segment};
use crate::asr::vad::{fixed_plan, ms_samples, PlannedChunk, VadPlanner, VadPlannerConfig};
use crate::error::AsrError;
use crate::text::{chars_to_string, dec_pad, push_dec_pad, str_chars, trim, trim_chars};
use vstd::prelude::*;

verus! {

/// `std::path::PathBuf`, carried through unchanged.
#[verifier::external_type_specification]
#[verifier::external_body]
pub struct ExPathBuf(std::path::PathBuf);

/// Sample rate the recogniser works at.
pub const SAMPLE_RATE: u32 = 16000;

/// A Whisper model on disk, used with or without the GPU.
pub struct WhisperEngine {
    pub model_path: std::path::PathBuf,
    pub use_gpu: bool,
}

/// Milliseconds from the start of the audio to a sample position.
pub open spec fn sample_ms(pos: usize) -> int {
    (pos * 1000) / (SAMPLE_RATE as int)
}

/// Where a segment recognised in the window of `chunk` lies in the whole
/// recording: its start and end in milliseconds.
pub open spec fn absolute_span(chunk: PlannedChunk, seg_start_ms: u64, seg_end_ms: u64) -> (int, int) {
    (
        sample_ms(chunk.window_start_sample) + seg_start_ms,
        sample_ms(chunk.window_start_sample) + seg_end_ms,
    )
}

/// A recognised segment is kept when its trimmed text is neither empty nor
/// `[Pause]` and its midpoint falls inside the chunk's main range (segments
/// in the overlap belong to the neighbouring chunk).
pub open spec fn keeps_segment(chunk: PlannedChunk, seg_start_ms: u64, seg_end_ms: u64, text: Seq<char>) -> bool {
    let t = trim(text);
    let (a, b) = absolute_span(chunk, seg_start_ms, seg_end_ms);
    let mid = (a + b) / 2;
    &&& t.len() > 0
    &&& t != "[Pause]"@
    &&& sample_ms(chunk.main_start_sample) <= mid <= sample_ms(chunk.main_end_sample)
}

/// Only a segment centred in the chunk's main range is kept: a kept
/// segment's absolute midpoint lies between the main range's start and end
/// (in milliseconds), and a segment with non-empty text other than
/// `[Pause]` whose midpoint lies there is kept. So a segment whose midpoint
/// lies in the overlap past the main range is left to the next chunk.
pub proof fn lemma_kept_segment_is_centred(chunk: PlannedChunk, seg_start_ms: u64, seg_end_ms: u64, text: Seq<char>)
    ensures
        keeps_segment(chunk, seg_start_ms, seg_end_ms, text) ==> sample_ms(chunk.main_start_sample) <= (2
            * sample_ms(chunk.window_start_sample) + seg_start_ms + seg_end_ms) / 2 <= sample_ms(
            chunk.main_end_sample),
        (sample_ms(chunk.main_start_sample) <= (2 * sample_ms(chunk.window_start_sample) + seg_start_ms
            + seg_end_ms) / 2 <= sample_ms(chunk.main_end_sample) && trim(text).len() > 0 && trim(text)
            != "[Pause]"@) ==> keeps_segment(chunk, seg_start_ms, seg_end_ms, text),
{
    let (a, b) = absolute_span(chunk, seg_start_ms, seg_end_ms);
    assert(a + b == 2 * sample_ms(chunk.window_start_sample) + seg_start_ms + seg_end_ms);
}

/// The languages offered, as (code, name).
pub open spec fn whisper_languages() -> Seq<(Seq<char>, Seq<char>)> {
    seq![
        ("auto"@, "Auto Detect"@),
        ("en"@, "English"@),
        ("zh"@, "Chinese"@),
        ("ja"@, "Japanese"@),
        ("ko"@, "Korean"@),
        ("fr"@, "French"@),
        ("de"@, "German"@),
        ("es"@, "Spanish"@),
        ("ru"@, "Russian"@),
        ("pt"@, "Portuguese"@),
        ("it"@, "Italiano"@),
        ("ar"@, "Arabic"@),
        ("hi"@, "Hindi"@),
        ("th"@, "Thai"@),
        ("vi"@, "Vietnamese"@),
    ]
}

/// `MM:SS`, or `HH:MM:SS` from one hour on, of a number of seconds.
pub open spec fn duration_text(total: u64) -> Seq<char> {
    let hours = total / 3600;
    let minutes = (total % 3600) / 60;
    let secs = total % 60;
    if hours > 0 {
        dec_pad(hours as nat, 2) + seq![':'] + dec_pad(minutes as nat, 2) + seq![':'] + dec_pad(
            secs as nat,
            2,
        )
    } else {
        dec_pad(minutes as nat, 2) + seq![':'] + dec_pad(secs as nat, 2)
    }
}

/// Segment `i` of the transcript carries index `i`.
pub open spec fn consecutively_indexed(segs: Seq<Segment>) -> bool {
    forall|i: int| 0 <= i < segs.len() ==> #[trigger] segs[i].index == i
}

/// The transcript built up chunk by chunk.
pub struct ChunkTranscript {
    pub segments: Vec<Segment>,
    pub detected_lang: Option<String>,
}

fn lang_info(code: &str, name: &str) -> (l: LanguageInfo)
    ensures
        l.code@ == code@,
        l.name@ == name@,
{
    LanguageInfo { code: code.to_owned(), name: name.to_owned() }
}

impl WhisperEngine {
    pub fn new(model_path: std::path::PathBuf, use_gpu: bool) -> (e: Self)
        ensures
            e.model_path == model_path,
            e.use_gpu == use_gpu,
    {
        WhisperEngine { model_path, use_gpu }
    }

    /// The engine's name.
    pub fn name(&self) -> (s: &'static str)
        ensures
            s@ == "whisper.cpp"@,
    {
        "whisper.cpp"
    }

    /// The languages offered, automatic detection first.
    pub fn supported_languages(&self) -> (v: Vec<LanguageInfo>)
        ensures
            v@.len() == whisper_languages().len(),
            forall|i: int|
                0 <= i < v@.len() ==> (#[trigger] v@[i]).code@ == whisper_languages()[i].0
                    && v@[i].name@ == whisper_languages()[i].1,
    {
        let v = vec![
            lang_info("auto", "Auto Detect"),
            lang_info("en", "English"),
            lang_info("zh", "Chinese"),
            lang_info("ja", "Japanese"),
            lang_info("ko", "Korean"),
            lang_info("fr", "French"),
            lang_info("de", "German"),
            lang_info("es", "Spanish"),
            lang_info("ru", "Russian"),
            lang_info("pt", "Portuguese"),
            lang_info("it", "Italiano"),
            lang_info("ar", "Arabic"),
            lang_info("hi", "Hindi"),
            lang_info("th", "Thai"),
            lang_info("vi", "Vietnamese"),
        ];
        v
    }

    /// `MM:SS`, or `HH:MM:SS` from one hour on, of a whole number of seconds.
    pub fn format_duration(total: u64) -> (s: String)
        ensures
            s@ == duration_text(total),
    {
        let hours = total / 3600;
        let minutes = (total % 3600) / 60;
        let secs = total % 60;
        let mut out: Vec<char> = Vec::new();
        if hours > 0 {
            push_dec_pad(&mut out, hours, 2);
            out.push(':');
        }
        push_dec_pad(&mut out, minutes, 2);
        out.push(':');
        push_dec_pad(&mut out, secs, 2);
        assert(out@ =~= duration_text(total));
        chars_to_string(out.as_slice())
    }

    /// Fails with `Cancelled` once cancellation was requested.
    pub fn ensure_not_cancelled(cancelled: bool) -> (r: Result<(), AsrError>)
        ensures
            cancelled <==> r is Err,
            r matches Err(AsrError::Transcription(m)) ==> m@ == "Cancelled"@,
            !(r matches Err(AsrError::ModelNotFound(_))),
            !(r matches Err(AsrError::ModelLoad(_))),
            !(r matches Err(AsrError::UnsupportedLanguage(_))),
    {
        if cancelled {
            return Err(AsrError::Transcription("Cancelled".to_owned()));
        }
        Ok(())
    }

    /// The chunks to transcribe: the planned ones, or fixed chunks over the
    /// whole audio when planning found none.
    pub fn choose_chunks(planned: Vec<PlannedChunk>, total_samples: usize, config: &VadPlannerConfig) -> (c: Vec<PlannedChunk>)
        requires
            ms_samples(config.max_chunk_ms, config.sample_rate) > 0 || total_samples == 0,
            total_samples + ms_samples(config.max_chunk_ms, config.sample_rate) + ms_samples(
                config.overlap_ms,
                config.sample_rate,
            ) <= usize::MAX,
        ensures
            planned@.len() > 0 ==> c@ == planned@,
            planned@.len() == 0 ==> c@ == fixed_plan(
                total_samples,
                ms_samples(config.max_chunk_ms, config.sample_rate),
                ms_samples(config.overlap_ms, config.sample_rate),
            ),
    {
        if planned.len() == 0 {
            VadPlanner::plan_fixed_chunks(total_samples, config)
        } else {
            planned
        }
    }

    /// The chunks of a second pass: when detection was on and found no
    /// segment at all, fixed chunks over the whole audio; otherwise none.
    pub fn retry_chunks(found_segments: bool, enable_vad: bool, total_samples: usize, config: &VadPlannerConfig) -> (r: Option<Vec<PlannedChunk>>)
        requires
            ms_samples(config.max_chunk_ms, config.sample_rate) > 0 || total_samples == 0,
            total_samples + ms_samples(config.max_chunk_ms, config.sample_rate) + ms_samples(
                config.overlap_ms,
                config.sample_rate,
            ) <= usize::MAX,
        ensures
            (!found_segments && enable_vad) <==> r is Some,
            r matches Some(c) ==> c@ == fixed_plan(
                total_samples,
                ms_samples(config.max_chunk_ms, config.sample_rate),
                ms_samples(config.overlap_ms, config.sample_rate),
            ),
    {
        if !found_segments && enable_vad {
            Some(VadPlanner::plan_fixed_chunks(total_samples, config))
        } else {
            None
        }
    }
}

impl ChunkTranscript {
    /// An empty transcript with no language detected yet.
    pub fn new() -> (t: Self)
        ensures
            t.segments@.len() == 0,
            t.detected_lang is None,
            consecutively_indexed(t.segments@),
    {
        ChunkTranscript { segments: Vec::new(), detected_lang: None }
    }

    /// Takes the language reported for a chunk, as long as none is known yet
    /// and the chunk produced segments.
    pub fn note_language(&mut self, num_segments: i32, lang: Option<String>)
        ensures
            final(self).segments@ == old(self).segments@,
            final(self).detected_lang == if old(self).detected_lang is None && num_segments > 0 {
                lang
            } else {
                old(self).detected_lang
            },
    {
        if self.detected_lang.is_none() && num_segments > 0 {
            self.detected_lang = lang;
        }
    }

    /// Considers one segment recognised in the window of `chunk`, with times
    /// relative to the window. A kept segment (see `keeps_segment`) is
    /// appended with the next index, its absolute times, its trimmed text
    /// and the detected language (`unknown` while none is known).
    pub fn accept_segment(&mut self, chunk: &PlannedChunk, seg_start_ms: u64, seg_end_ms: u64, text: &str) -> (kept: bool)
        requires
            chunk.main_start_sample * 1000 <= u64::MAX,
            chunk.main_end_sample * 1000 <= u64::MAX,
            chunk.window_start_sample * 1000 <= u64::MAX,
            sample_ms(chunk.window_start_sample) + seg_start_ms + sample_ms(chunk.window_start_sample)
                + seg_end_ms <= u64::MAX,
        ensures
            kept == keeps_segment(*chunk, seg_start_ms, seg_end_ms, text@),
            final(self).detected_lang == old(self).detected_lang,
            consecutively_indexed(old(self).segments@) ==> consecutively_indexed(final(self).segments@),
            !kept ==> final(self).segments@ == old(self).segments@,
            kept ==> {
                let s = final(self).segments@;
                let n = old(self).segments@.len();
                let seg = s[n as int];
                &&& s.len() == n + 1
                &&& s.take(n as int) == old(self).segments@
                &&& seg.index == n
                &&& sample_ms(chunk.main_start_sample) <= (seg.start_ms + seg.end_ms) / 2 <= sample_ms(
                    chunk.main_end_sample)
                &&& seg.start_ms == absolute_span(*chunk, seg_start_ms, seg_end_ms).0
                &&& seg.end_ms == absolute_span(*chunk, seg_start_ms, seg_end_ms).1
                &&& seg.text@ == trim(text@)
                &&& seg.language@ == match old(self).detected_lang {
                    Some(l) => l@,
                    None => "unknown"@,
                }
            },
    {
        let chars = str_chars(text);
        let trimmed = trim_chars(chars.as_slice());
        let pause = str_chars("[Pause]");
        if trimmed.len() == 0 {
            return false;
        }
        let mut same = trimmed.len() == pause.len();
        let mut i: usize = 0;
        while same && i < trimmed.len()
            invariant
                i <= trimmed@.len(),
                same ==> trimmed@.len() == pause@.len(),
                same ==> trimmed@.take(i as int) == pause@.take(i as int),
                !same ==> trimmed@ != pause@,
            decreases trimmed.len() - i,
        {
            if trimmed[i] != pause[i] {
                same = false;
            } else {
                proof {
                    assert(trimmed@.take(i + 1) =~= trimmed@.take(i as int).push(trimmed@[i as int]));
                    assert(pause@.take(i + 1) =~= pause@.take(i as int).push(pause@[i as int]));
                }
            }
            i = i + 1;
        }
        if same {
            assert(trimmed@ =~= trimmed@.take(i as int));
            assert(pause@ =~= pause@.take(i as int));
            return false;
        }
        let window_offset_ms = (chunk.window_start_sample as u64 * 1000) / SAMPLE_RATE as u64;
        let main_start_ms = (chunk.main_start_sample as u64 * 1000) / SAMPLE_RATE as u64;
        let main_end_ms = (chunk.main_end_sample as u64 * 1000) / SAMPLE_RATE as u64;
        let absolute_start_ms = window_offset_ms + seg_start_ms;
        let absolute_end_ms = window_offset_ms + seg_end_ms;
        let midpoint = (absolute_start_ms + absolute_end_ms) / 2;
        if midpoint < main_start_ms || midpoint > main_end_ms {
            return false;
        }
        let language = match &self.detected_lang {
            Some(l) => l.clone(),
            None => "unknown".to_owned(),
        };
        let seg = Segment {
            index: self.segments.len(),
            start_ms: absolute_start_ms,
            end_ms: absolute_end_ms,
            text: chars_to_string(trimmed.as_slice()),
            language,
        };
        let ghost before = self.segments@;
        self.segments.push(seg);
        assert(self.segments@.take(before.len() as int) =~= before);
        assert(consecutively_indexed(before) ==> consecutively_indexed(self.segments@)) by {
            if consecutively_indexed(before) {
                assert forall|i: int| 0 <= i < self.segments@.len() implies #[trigger] self.segments@[i].index == i by {
                    if i < before.len() {
                        assert(self.segments@[i] == before[i]);
                    }
                }
            }
        }
        true
    }
}

} // verus!
