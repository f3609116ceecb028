//! Timecodes, subtitle entries, subtitle files and output formats.

use crate::text::{
    chars_to_string, dec, dec_pad, lemma_dec_digits, parse_unsigned, parse_unsigned_chars, push_dec_pad,
    split, split_chars, str_chars, trim, trim_chars,
};
use vstd::prelude::*;

verus! {

/// A point in time split into hours, minutes, seconds and milliseconds.
#[derive(Debug, Clone, Copy, PartialEq, Eq, Structural)]
pub struct Timecode {
    pub hours: u32,
    pub minutes: u32,
    pub seconds: u32,
    pub milliseconds: u32,
}

/// Total milliseconds a timecode stands for.
pub open spec fn timecode_ms(tc: Timecode) -> int {
    tc.hours * 3_600_000 + tc.minutes * 60_000 + tc.seconds * 1_000 + tc.milliseconds
}

/// The timecode that `from_ms` builds: each field is the truncating cast
/// of the corresponding quotient.
pub open spec fn timecode_of_ms(total_ms: u64) -> Timecode {
    Timecode {
        hours: (total_ms / 3_600_000) as u32,
        minutes: ((total_ms % 3_600_000) / 60_000) as u32,
        seconds: ((total_ms % 60_000) / 1_000) as u32,
        milliseconds: (total_ms % 1_000) as u32,
    }
}

/// `HH:MM:SS,mmm` (SRT).
pub open spec fn srt_time(tc: Timecode) -> Seq<char> {
    dec_pad(tc.hours as nat, 2) + seq![':'] + dec_pad(tc.minutes as nat, 2) + seq![':']
        + dec_pad(tc.seconds as nat, 2) + seq![','] + dec_pad(tc.milliseconds as nat, 3)
}

/// `HH:MM:SS.mmm` (WebVTT).
pub open spec fn vtt_time(tc: Timecode) -> Seq<char> {
    dec_pad(tc.hours as nat, 2) + seq![':'] + dec_pad(tc.minutes as nat, 2) + seq![':']
        + dec_pad(tc.seconds as nat, 2) + seq!['.'] + dec_pad(tc.milliseconds as nat, 3)
}

/// `H:MM:SS.cc` (ASS, centiseconds).
pub open spec fn ass_time(tc: Timecode) -> Seq<char> {
    dec(tc.hours as nat) + seq![':'] + dec_pad(tc.minutes as nat, 2) + seq![':'] + dec_pad(
        tc.seconds as nat,
        2,
    ) + seq!['.'] + dec_pad((tc.milliseconds / 10) as nat, 2)
}

/// What `Timecode::parse_srt` accepts and yields: after trimming, three
/// `:`-separated unsigned numbers, the last of which is `seconds,millis`.
pub open spec fn parse_srt_time(s: Seq<char>) -> Option<Timecode> {
    let parts = split(trim(s), seq![':']);
    if parts.len() != 3 {
        None
    } else {
        let sec_parts = split(parts[2], seq![',']);
        match (parse_unsigned(parts[0], u32::MAX as nat), parse_unsigned(
            parts[1],
            u32::MAX as nat,
        )) {
            (Some(h), Some(m)) => if sec_parts.len() != 2 {
                None
            } else {
                match (parse_unsigned(sec_parts[0], u32::MAX as nat), parse_unsigned(
                    sec_parts[1],
                    u32::MAX as nat,
                )) {
                    (Some(sec), Some(ms)) => Some(
                        Timecode {
                            hours: h as u32,
                            minutes: m as u32,
                            seconds: sec as u32,
                            milliseconds: ms as u32,
                        },
                    ),
                    _ => None,
                }
            },
            _ => None,
        }
    }
}

pub(crate) fn push_time_fields(
    out: &mut Vec<char>,
    tc: &Timecode,
    hours_width: usize,
    frac_sep: char,
    frac: u32,
    frac_width: usize,
)
    ensures
        final(out)@ == old(out)@ + dec_pad(tc.hours as nat, hours_width as nat) + seq![':']
            + dec_pad(tc.minutes as nat, 2) + seq![':'] + dec_pad(tc.seconds as nat, 2) + seq![
            frac_sep,
        ] + dec_pad(frac as nat, frac_width as nat),
{
    let ghost o0 = out@;
    push_dec_pad(out, tc.hours as u64, hours_width);
    out.push(':');
    push_dec_pad(out, tc.minutes as u64, 2);
    out.push(':');
    push_dec_pad(out, tc.seconds as u64, 2);
    out.push(frac_sep);
    push_dec_pad(out, frac as u64, frac_width);
    assert(out@ =~= o0 + dec_pad(tc.hours as nat, hours_width as nat) + seq![':'] + dec_pad(
        tc.minutes as nat,
        2,
    ) + seq![':'] + dec_pad(tc.seconds as nat, 2) + seq![frac_sep] + dec_pad(
        frac as nat,
        frac_width as nat,
    ));
}

/// Padding to width one never adds characters.
pub proof fn lemma_dec_pad_one(n: nat)
    ensures
        dec_pad(n, 1) == dec(n),
{
    lemma_dec_digits(n);
}

impl Timecode {
    /// Splits a count of milliseconds into hours, minutes, seconds and
    /// milliseconds.
    pub fn from_ms(total_ms: u64) -> (tc: Timecode)
        ensures
            tc == timecode_of_ms(total_ms),
    {
        Timecode {
            hours: (total_ms / 3_600_000) as u32,
            minutes: ((total_ms % 3_600_000) / 60_000) as u32,
            seconds: ((total_ms % 60_000) / 1_000) as u32,
            milliseconds: (total_ms % 1_000) as u32,
        }
    }

    /// Total milliseconds.
    pub fn to_ms(&self) -> (ms: u64)
        ensures
            ms == timecode_ms(*self),
    {
        self.hours as u64 * 3_600_000 + self.minutes as u64 * 60_000 + self.seconds as u64
            * 1_000 + self.milliseconds as u64
    }

    /// `HH:MM:SS,mmm`.
    pub fn to_srt_string(&self) -> (s: String)
        ensures
            s@ == srt_time(*self),
    {
        let mut out: Vec<char> = Vec::new();
        push_time_fields(&mut out, self, 2, ',', self.milliseconds, 3);
        chars_to_string(out.as_slice())
    }

    /// `HH:MM:SS.mmm`.
    pub fn to_vtt_string(&self) -> (s: String)
        ensures
            s@ == vtt_time(*self),
    {
        let mut out: Vec<char> = Vec::new();
        push_time_fields(&mut out, self, 2, '.', self.milliseconds, 3);
        chars_to_string(out.as_slice())
    }

    /// `H:MM:SS.cc` where `cc` are centiseconds.
    pub fn to_ass_string(&self) -> (s: String)
        ensures
            s@ == ass_time(*self),
    {
        let mut out: Vec<char> = Vec::new();
        push_time_fields(&mut out, self, 1, '.', self.milliseconds / 10, 2);
        proof {
            lemma_dec_pad_one(self.hours as nat);
        }
        chars_to_string(out.as_slice())
    }

    /// Parses `HH:MM:SS,mmm` (surrounding whitespace allowed).
    pub fn parse_srt(s: &str) -> (r: Option<Timecode>)
        ensures
            r == parse_srt_time(s@),
    {
        let chars = str_chars(s);
        Self::parse_srt_chars(chars.as_slice())
    }

    /// `parse_srt` on characters.
    pub fn parse_srt_chars(s: &[char]) -> (r: Option<Timecode>)
        ensures
            r == parse_srt_time(s@),
    {
        let t = trim_chars(s);
        let colon = vec![':'];
        assert(colon@ =~= seq![':']);
        let parts = split_chars(t.as_slice(), colon.as_slice());
        if parts.len() != 3 {
            return None;
        }
        let hours = match parse_unsigned_chars(parts[0].as_slice(), u32::MAX as u64) {
            Some(v) => v as u32,
            None => return None,
        };
        let minutes = match parse_unsigned_chars(parts[1].as_slice(), u32::MAX as u64) {
            Some(v) => v as u32,
            None => return None,
        };
        let comma = vec![','];
        assert(comma@ =~= seq![',']);
        let sec_parts = split_chars(parts[2].as_slice(), comma.as_slice());
        if sec_parts.len() != 2 {
            return None;
        }
        let seconds = match parse_unsigned_chars(sec_parts[0].as_slice(), u32::MAX as u64) {
            Some(v) => v as u32,
            None => return None,
        };
        let milliseconds = match parse_unsigned_chars(sec_parts[1].as_slice(), u32::MAX as u64) {
            Some(v) => v as u32,
            None => return None,
        };
        Some(Timecode { hours, minutes, seconds, milliseconds })
    }
}

/// Timecodes round-trip through milliseconds whenever the hour count fits in
/// a `u32`.
pub proof fn lemma_timecode_ms_roundtrip(total_ms: u64)
    requires
        total_ms / 3_600_000 <= u32::MAX,
    ensures
        timecode_ms(timecode_of_ms(total_ms)) == total_ms,
{
    let h = total_ms / 3_600_000;
    let r = total_ms % 3_600_000;
    assert(total_ms == h * 3_600_000 + r);
    assert(r == (r / 60_000) * 60_000 + r % 60_000);
    assert(r % 60_000 == total_ms % 60_000) by {
        assert(total_ms % 60_000 == (h * 3_600_000 + r) % 60_000);
        assert((h * 3_600_000 + r) % 60_000 == r % 60_000) by (nonlinear_arith)
            requires
                h >= 0,
                r >= 0,
        ;
    }
    let q = total_ms % 60_000;
    assert(q == (q / 1_000) * 1_000 + q % 1_000);
    assert(q % 1_000 == total_ms % 1_000) by {
        assert(total_ms == (total_ms / 60_000) * 60_000 + q);
        assert(((total_ms / 60_000) * 60_000 + q) % 1_000 == q % 1_000) by (nonlinear_arith)
            requires
                q >= 0,
                total_ms / 60_000 >= 0,
        ;
    }
}

/// One subtitle cue.
#[derive(Debug, Clone)]
pub struct SubtitleEntry {
    /// 1-based index.
    pub index: usize,
    pub start: Timecode,
    pub end: Timecode,
    /// Primary language text.
    pub primary_text: String,
    /// Secondary language text (bilingual subtitles).
    pub secondary_text: Option<String>,
}

/// Mathematical content of a subtitle entry.
pub struct EntryView {
    pub index: usize,
    pub start: Timecode,
    pub end: Timecode,
    pub primary: Seq<char>,
    pub secondary: Option<Seq<char>>,
}

pub open spec fn opt_view(o: Option<String>) -> Option<Seq<char>> {
    match o {
        Some(s) => Some(s@),
        None => None,
    }
}

impl View for SubtitleEntry {
    type V = EntryView;

    open spec fn view(&self) -> EntryView {
        EntryView {
            index: self.index,
            start: self.start,
            end: self.end,
            primary: self.primary_text@,
            secondary: opt_view(self.secondary_text),
        }
    }
}

/// Views of a sequence of entries.
pub open spec fn entries_view(entries: Seq<SubtitleEntry>) -> Seq<EntryView> {
    entries.map_values(|e: SubtitleEntry| e@)
}

/// Supported subtitle formats.
#[derive(Debug, Clone, Copy, PartialEq, Eq, Structural)]
pub enum SubtitleFormat {
    Srt,
    Ass,
    Vtt,
}

/// A complete subtitle document.
#[derive(Debug, Clone)]
pub struct SubtitleFile {
    pub entries: Vec<SubtitleEntry>,
    pub source_language: String,
    pub target_language: Option<String>,
    pub format: SubtitleFormat,
}

impl SubtitleFormat {
    /// File extension without the dot.
    pub fn extension(&self) -> (s: &'static str)
        ensures
            s@ == format_extension(*self),
    {
        match self {
            SubtitleFormat::Srt => {
                proof {
                    reveal_strlit("srt");
                }
                "srt"
            },
            SubtitleFormat::Ass => {
                proof {
                    reveal_strlit("ass");
                }
                "ass"
            },
            SubtitleFormat::Vtt => {
                proof {
                    reveal_strlit("vtt");
                }
                "vtt"
            },
        }
    }

    /// Human readable name.
    pub fn display_name(&self) -> (s: &'static str)
        ensures
            s@ == match *self {
                SubtitleFormat::Srt => "SubRip (SRT)"@,
                SubtitleFormat::Ass => "Advanced SubStation Alpha (ASS)"@,
                SubtitleFormat::Vtt => "WebVTT (VTT)"@,
            },
    {
        match self {
            SubtitleFormat::Srt => "SubRip (SRT)",
            SubtitleFormat::Ass => "Advanced SubStation Alpha (ASS)",
            SubtitleFormat::Vtt => "WebVTT (VTT)",
        }
    }
}

pub open spec fn format_extension(f: SubtitleFormat) -> Seq<char> {
    match f {
        SubtitleFormat::Srt => seq!['s', 'r', 't'],
        SubtitleFormat::Ass => seq!['a', 's', 's'],
        SubtitleFormat::Vtt => seq!['v', 't', 't'],
    }
}

} // verus!
