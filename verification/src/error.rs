//! Error types of the library, each with the message it is shown with.

use crate::text::{chars_to_string, dec, push_dec, push_str, push_string};
use vstd::prelude::*;

verus! {

/// `std::io::Error`, carried through unchanged.
#[verifier::external_type_specification]
#[verifier::external_body]
pub struct ExIoError(std::io::Error);

/// The text of an I/O error (`Display` of `std::io::Error`). It comes from
/// the operating system and its locale, so nothing is stated of it.
#[verifier::external_body]
fn io_error_text(e: &std::io::Error) -> String {
    e.to_string()
}

/// Errors of reading audio out of media files.
#[derive(Debug)]
pub enum AudioError {
    UnsupportedFormat(String),
    NoAudioStream,
    Ffmpeg(String),
    Io(std::io::Error),
}

/// Errors of speech recognition.
#[derive(Debug)]
pub enum AsrError {
    ModelNotFound(String),
    ModelLoad(String),
    Transcription(String),
    UnsupportedLanguage(String),
}

/// Errors of translation services.
#[derive(Debug)]
pub enum TranslateError {
    Api { status: u16, message: String },
    Network(String),
    Config(String),
    Initialization(String),
    RateLimited { retry_after_secs: u64 },
    InvalidApiKey,
    UnsupportedPair { from: String, target: String },
}

/// Errors of the subtitle layer.
#[derive(Debug)]
pub enum SubtitleError {
    Parse { line: usize, message: String },
    SegmentMismatch { asr: usize, translation: usize },
    Io(std::io::Error),
}

/// Errors of the application as a whole.
#[derive(Debug)]
pub enum AppError {
    Audio(AudioError),
    Asr(AsrError),
    Translate(TranslateError),
    Subtitle(SubtitleError),
    Pipeline(String),
    Io(std::io::Error),
    Config(String),
}

/// The message of an audio error; `io` stands for the text of a wrapped
/// I/O error.
pub open spec fn audio_error_text(e: AudioError, io: Seq<char>) -> Seq<char> {
    match e {
        AudioError::UnsupportedFormat(s) => "Unsupported format: "@ + s@,
        AudioError::NoAudioStream => "No audio stream found in file"@,
        AudioError::Ffmpeg(s) => "FFmpeg error: "@ + s@,
        AudioError::Io(_) => "IO error: "@ + io,
    }
}

pub open spec fn asr_error_text(e: AsrError) -> Seq<char> {
    match e {
        AsrError::ModelNotFound(s) => "Model not found: "@ + s@,
        AsrError::ModelLoad(s) => "Model load failed: "@ + s@,
        AsrError::Transcription(s) => "Transcription failed: "@ + s@,
        AsrError::UnsupportedLanguage(s) => "Unsupported language: "@ + s@,
    }
}

pub open spec fn translate_error_text(e: TranslateError) -> Seq<char> {
    match e {
        TranslateError::Api { status, message } => "API error: "@ + dec(status as nat) + " - "@
            + message@,
        TranslateError::Network(s) => "Network error: "@ + s@,
        TranslateError::Config(s) => "Config error: "@ + s@,
        TranslateError::Initialization(s) => "Initialization error: "@ + s@,
        TranslateError::RateLimited { retry_after_secs } => "Rate limited, retry after "@ + dec(
            retry_after_secs as nat,
        ) + seq!['s'],
        TranslateError::InvalidApiKey => "Invalid API key"@,
        TranslateError::UnsupportedPair { from, target } => "Unsupported language pair: "@
            + from@ + " -> "@ + target@,
    }
}

pub open spec fn subtitle_error_text(e: SubtitleError, io: Seq<char>) -> Seq<char> {
    match e {
        SubtitleError::Parse { line, message } => "Parse error at line "@ + dec(line as nat)
            + ": "@ + message@,
        SubtitleError::SegmentMismatch { asr, translation } => "Segment count mismatch: ASR="@
            + dec(asr as nat) + ", Translation="@ + dec(translation as nat),
        SubtitleError::Io(_) => "IO error: "@ + io,
    }
}

pub open spec fn app_error_text(e: AppError, io: Seq<char>) -> Seq<char> {
    match e {
        AppError::Audio(a) => "Audio extraction failed: "@ + audio_error_text(a, io),
        AppError::Asr(a) => "ASR failed: "@ + asr_error_text(a),
        AppError::Translate(t) => "Translation failed: "@ + translate_error_text(t),
        AppError::Subtitle(s) => "Subtitle error: "@ + subtitle_error_text(s, io),
        AppError::Pipeline(s) => "Pipeline error: "@ + s@,
        AppError::Io(_) => "IO error: "@ + io,
        AppError::Config(s) => "Config error: "@ + s@,
    }
}

fn push_io(out: &mut Vec<char>, e: &std::io::Error) -> (io: Ghost<Seq<char>>)
    ensures
        final(out)@ == old(out)@ + "IO error: "@ + io@,
{
    let ghost o0 = out@;
    push_str(out, "IO error: ");
    let t = io_error_text(e);
    push_string(out, &t);
    assert(out@ =~= o0 + "IO error: "@ + t@);
    Ghost(t@)
}

impl AudioError {
    fn push_message(&self, out: &mut Vec<char>) -> (io: Ghost<Seq<char>>)
        ensures
            final(out)@ == old(out)@ + audio_error_text(*self, io@),
    {
        let ghost o0 = out@;
        match self {
            AudioError::UnsupportedFormat(s) => {
                push_str(out, "Unsupported format: ");
                push_string(out, s);
                assert(out@ =~= o0 + audio_error_text(*self, Seq::empty()));
                Ghost(Seq::empty())
            },
            AudioError::NoAudioStream => {
                push_str(out, "No audio stream found in file");
                Ghost(Seq::empty())
            },
            AudioError::Ffmpeg(s) => {
                push_str(out, "FFmpeg error: ");
                push_string(out, s);
                assert(out@ =~= o0 + audio_error_text(*self, Seq::empty()));
                Ghost(Seq::empty())
            },
            AudioError::Io(e) => {
                let io = push_io(out, e);
                assert(out@ =~= o0 + audio_error_text(*self, io@));
                io
            },
        }
    }

    /// The message shown for this error.
    pub fn message(&self) -> (s: String)
        ensures
            exists|io: Seq<char>| s@ == audio_error_text(*self, io),
    {
        let mut out: Vec<char> = Vec::new();
        let io = self.push_message(&mut out);
        assert(out@ =~= audio_error_text(*self, io@));
        chars_to_string(out.as_slice())
    }
}

impl AsrError {
    fn push_message(&self, out: &mut Vec<char>)
        ensures
            final(out)@ == old(out)@ + asr_error_text(*self),
    {
        let ghost o0 = out@;
        let (prefix, s) = match self {
            AsrError::ModelNotFound(s) => ("Model not found: ", s),
            AsrError::ModelLoad(s) => ("Model load failed: ", s),
            AsrError::Transcription(s) => ("Transcription failed: ", s),
            AsrError::UnsupportedLanguage(s) => ("Unsupported language: ", s),
        };
        push_str(out, prefix);
        push_string(out, s);
        assert(out@ =~= o0 + asr_error_text(*self));
    }

    /// The message shown for this error.
    pub fn message(&self) -> (s: String)
        ensures
            s@ == asr_error_text(*self),
    {
        let mut out: Vec<char> = Vec::new();
        self.push_message(&mut out);
        assert(out@ =~= asr_error_text(*self));
        chars_to_string(out.as_slice())
    }
}

impl TranslateError {
    fn push_message(&self, out: &mut Vec<char>)
        ensures
            final(out)@ == old(out)@ + translate_error_text(*self),
    {
        let ghost o0 = out@;
        match self {
            TranslateError::Api { status, message } => {
                push_str(out, "API error: ");
                push_dec(out, *status as u64);
                push_str(out, " - ");
                push_string(out, message);
            },
            TranslateError::Network(s) => {
                push_str(out, "Network error: ");
                push_string(out, s);
            },
            TranslateError::Config(s) => {
                push_str(out, "Config error: ");
                push_string(out, s);
            },
            TranslateError::Initialization(s) => {
                push_str(out, "Initialization error: ");
                push_string(out, s);
            },
            TranslateError::RateLimited { retry_after_secs } => {
                push_str(out, "Rate limited, retry after ");
                push_dec(out, *retry_after_secs);
                out.push('s');
            },
            TranslateError::InvalidApiKey => {
                push_str(out, "Invalid API key");
            },
            TranslateError::UnsupportedPair { from, target } => {
                push_str(out, "Unsupported language pair: ");
                push_string(out, from);
                push_str(out, " -> ");
                push_string(out, target);
            },
        }
        assert(out@ =~= o0 + translate_error_text(*self));
    }

    /// The message shown for this error.
    pub fn message(&self) -> (s: String)
        ensures
            s@ == translate_error_text(*self),
    {
        let mut out: Vec<char> = Vec::new();
        self.push_message(&mut out);
        assert(out@ =~= translate_error_text(*self));
        chars_to_string(out.as_slice())
    }
}

impl SubtitleError {
    fn push_message(&self, out: &mut Vec<char>) -> (io: Ghost<Seq<char>>)
        ensures
            final(out)@ == old(out)@ + subtitle_error_text(*self, io@),
    {
        let ghost o0 = out@;
        match self {
            SubtitleError::Parse { line, message } => {
                push_str(out, "Parse error at line ");
                push_dec(out, *line as u64);
                push_str(out, ": ");
                push_string(out, message);
                assert(out@ =~= o0 + subtitle_error_text(*self, Seq::empty()));
                Ghost(Seq::empty())
            },
            SubtitleError::SegmentMismatch { asr, translation } => {
                push_str(out, "Segment count mismatch: ASR=");
                push_dec(out, *asr as u64);
                push_str(out, ", Translation=");
                push_dec(out, *translation as u64);
                assert(out@ =~= o0 + subtitle_error_text(*self, Seq::empty()));
                Ghost(Seq::empty())
            },
            SubtitleError::Io(e) => {
                let io = push_io(out, e);
                assert(out@ =~= o0 + subtitle_error_text(*self, io@));
                io
            },
        }
    }

    /// The message shown for this error.
    pub fn message(&self) -> (s: String)
        ensures
            exists|io: Seq<char>| s@ == subtitle_error_text(*self, io),
    {
        let mut out: Vec<char> = Vec::new();
        let io = self.push_message(&mut out);
        assert(out@ =~= subtitle_error_text(*self, io@));
        chars_to_string(out.as_slice())
    }
}

impl AppError {
    /// The message shown for this error.
    pub fn message(&self) -> (s: String)
        ensures
            exists|io: Seq<char>| s@ == app_error_text(*self, io),
    {
        let mut out: Vec<char> = Vec::new();
        let ghost mut io: Seq<char> = Seq::empty();
        match self {
            AppError::Audio(a) => {
                push_str(&mut out, "Audio extraction failed: ");
                let g = a.push_message(&mut out);
                proof {
                    io = g@;
                }
            },
            AppError::Asr(a) => {
                push_str(&mut out, "ASR failed: ");
                a.push_message(&mut out);
            },
            AppError::Translate(t) => {
                push_str(&mut out, "Translation failed: ");
                t.push_message(&mut out);
            },
            AppError::Subtitle(st) => {
                push_str(&mut out, "Subtitle error: ");
                let g = st.push_message(&mut out);
                proof {
                    io = g@;
                }
            },
            AppError::Pipeline(s) => {
                push_str(&mut out, "Pipeline error: ");
                push_string(&mut out, s);
            },
            AppError::Io(e) => {
                let g = push_io(&mut out, e);
                proof {
                    io = g@;
                }
            },
            AppError::Config(s) => {
                push_str(&mut out, "Config error: ");
                push_string(&mut out, s);
            },
        }
        assert(out@ =~= app_error_text(*self, io));
        chars_to_string(out.as_slice())
    }
}

} // verus!
