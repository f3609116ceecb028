//! Settings of audio extraction, what probing a media file reports, and the
//! names and durations the extractor derives.

use crate::text::{chars_to_string, push_str};
use vstd::prelude::*;

verus! {

/// The container extracted audio is stored in.
#[derive(Debug, Clone, Copy, PartialEq, Eq, Structural)]
pub enum AudioFormat {
    Wav,
    RawPcmF32,
}

/// Sample rate, channel count and container of extracted audio.
#[derive(Debug, Clone, Copy, PartialEq, Eq, Structural)]
pub struct ExtractConfig {
    pub sample_rate: u32,
    pub channels: u16,
    pub format: AudioFormat,
}

impl Default for ExtractConfig {
    fn default() -> (c: Self)
        ensures
            c == (ExtractConfig { sample_rate: 16000, channels: 1, format: AudioFormat::Wav }),
    {
        ExtractConfig { sample_rate: 16000, channels: 1, format: AudioFormat::Wav }
    }
}

/// What probing a media file found.
#[derive(Debug, Clone)]
pub struct MediaInfo {
    pub duration_ms: u64,
    pub video_codec: Option<String>,
    pub audio_codec: Option<String>,
    pub audio_sample_rate: u32,
    pub audio_channels: u16,
    pub file_size: u64,
    pub format_name: String,
}

pub struct AudioExtractor;

/// A container duration in microseconds as milliseconds; unknown
/// (non-positive) durations count as zero.
pub open spec fn duration_ms_of(duration_us: i64) -> u64 {
    if duration_us > 0 {
        (duration_us / 1000) as u64
    } else {
        0
    }
}

impl AudioExtractor {
    /// The file name the extracted audio of a media file with this stem gets.
    pub fn audio_file_name(stem: &str) -> (s: String)
        ensures
            s@ == stem@ + "_audio.wav"@,
    {
        let mut out: Vec<char> = Vec::new();
        push_str(&mut out, stem);
        push_str(&mut out, "_audio.wav");
        chars_to_string(out.as_slice())
    }

    /// The duration in milliseconds of a container whose duration is given
    /// in microseconds.
    pub fn duration_ms(duration_us: i64) -> (ms: u64)
        ensures
            ms == duration_ms_of(duration_us),
    {
        if duration_us > 0 {
            (duration_us / 1000) as u64
        } else {
            0
        }
    }
}

} // verus!
