//! Turning recognised segments, with or without their translations, into a
//! subtitle file.

use crate::asr::engine::Segment;
use crate::error::SubtitleError;
use crate::subtitle::types::{
    entries_view, timecode_of_ms, EntryView, SubtitleEntry, SubtitleFile, SubtitleFormat, Timecode,
};
use crate::text::{chars_to_string, str_chars, trim, trim_chars};
use crate::translate::engine::TranslateResult;
use vstd::prelude::*;

verus! {

pub struct SubtitleMerger;

/// The entry made of the `i`-th segment: numbered from one, timecodes from
/// its milliseconds, its trimmed text, and the trimmed translation if any.
pub open spec fn segment_entry(i: int, seg: Segment, translated: Option<Seq<char>>) -> EntryView {
    EntryView {
        index: (i + 1) as usize,
        start: timecode_of_ms(seg.start_ms),
        end: timecode_of_ms(seg.end_ms),
        primary: trim(seg.text@),
        secondary: match translated {
            Some(t) => Some(trim(t)),
            None => None,
        },
    }
}

/// `str::trim` on a `String`, as a new `String`.
fn trimmed(s: &String) -> (r: String)
    ensures
        r@ == trim(s@),
{
    let chars = str_chars(s.as_str());
    let t = trim_chars(chars.as_slice());
    chars_to_string(t.as_slice())
}

impl SubtitleMerger {
    /// A bilingual file: entry `i` carries segment `i` and translation `i`.
    /// The two lists must be equally long.
    pub fn merge(
        segments: &[Segment],
        translation: &TranslateResult,
        source_lang: &str,
        target_lang: &str,
        format: SubtitleFormat,
    ) -> (r: Result<SubtitleFile, SubtitleError>)
        ensures
            segments@.len() != translation.texts@.len() <==> r is Err,
            match r {
                Ok(f) => {
                    &&& entries_view(f.entries@) == Seq::new(
                        segments@.len(),
                        |i: int| segment_entry(i, segments@[i], Some(translation.texts@[i]@)),
                    )
                    &&& f.source_language@ == source_lang@
                    &&& f.target_language matches Some(t) && t@ == target_lang@
                    &&& f.format == format
                },
                Err(e) => e matches SubtitleError::SegmentMismatch { asr, translation: n }
                    && asr == segments@.len() && n == translation.texts@.len(),
            },
    {
        if segments.len() != translation.texts.len() {
            return Err(
                SubtitleError::SegmentMismatch {
                    asr: segments.len(),
                    translation: translation.texts.len(),
                },
            );
        }
        let mut entries: Vec<SubtitleEntry> = Vec::new();
        let mut i: usize = 0;
        while i < segments.len()
            invariant
                i <= segments@.len() == translation.texts@.len(),
                entries_view(entries@) == Seq::new(
                    i as nat,
                    |k: int| segment_entry(k, segments@[k], Some(translation.texts@[k]@)),
                ),
            decreases segments.len() - i,
        {
            let seg = &segments[i];
            let entry = SubtitleEntry {
                index: i + 1,
                start: Timecode::from_ms(seg.start_ms),
                end: Timecode::from_ms(seg.end_ms),
                primary_text: trimmed(&seg.text),
                secondary_text: Some(trimmed(&translation.texts[i])),
            };
            let ghost ev = entry@;
            let ghost before = entries@;
            assert(ev == segment_entry(i as int, segments@[i as int], Some(translation.texts@[i as int]@)));
            entries.push(entry);
            proof {
                assert(entries_view(entries@) =~= entries_view(before).push(ev));
            }
            i = i + 1;
            proof {
                assert(entries_view(entries@) =~= Seq::new(
                    i as nat,
                    |k: int| segment_entry(k, segments@[k], Some(translation.texts@[k]@)),
                ));
            }
        }
        Ok(
            SubtitleFile {
                entries,
                source_language: source_lang.to_owned(),
                target_language: Some(target_lang.to_owned()),
                format,
            },
        )
    }

    /// A monolingual file with one entry per segment.
    pub fn from_segments(segments: &[Segment], source_lang: &str, format: SubtitleFormat) -> (f:
        SubtitleFile)
        ensures
            entries_view(f.entries@) == Seq::new(
                segments@.len(),
                |i: int| segment_entry(i, segments@[i], None),
            ),
            f.source_language@ == source_lang@,
            f.target_language is None,
            f.format == format,
    {
        let mut entries: Vec<SubtitleEntry> = Vec::new();
        let mut i: usize = 0;
        while i < segments.len()
            invariant
                i <= segments@.len(),
                entries_view(entries@) == Seq::new(
                    i as nat,
                    |k: int| segment_entry(k, segments@[k], None),
                ),
            decreases segments.len() - i,
        {
            let seg = &segments[i];
            let entry = SubtitleEntry {
                index: i + 1,
                start: Timecode::from_ms(seg.start_ms),
                end: Timecode::from_ms(seg.end_ms),
                primary_text: trimmed(&seg.text),
                secondary_text: None,
            };
            let ghost ev = entry@;
            let ghost before = entries@;
            assert(ev == segment_entry(i as int, segments@[i as int], None));
            entries.push(entry);
            proof {
                assert(entries_view(entries@) =~= entries_view(before).push(ev));
            }
            i = i + 1;
            proof {
                assert(entries_view(entries@) =~= Seq::new(
                    i as nat,
                    |k: int| segment_entry(k, segments@[k], None),
                ));
            }
        }
        SubtitleFile { entries, source_language: source_lang.to_owned(), target_language: None, format }
    }
}

/// The bilingual subtitle is the source subtitle with the translations
/// added: the same numbering, times and primary text for every segment.
pub proof fn lemma_bilingual_extends_source(i: int, seg: Segment, translated: Seq<char>)
    ensures
        segment_entry(i, seg, Some(translated)).index == segment_entry(i, seg, None).index,
        segment_entry(i, seg, Some(translated)).start == segment_entry(i, seg, None).start,
        segment_entry(i, seg, Some(translated)).end == segment_entry(i, seg, None).end,
        segment_entry(i, seg, Some(translated)).primary == segment_entry(i, seg, None).primary,
        segment_entry(i, seg, Some(translated)).secondary == Some(trim(translated)),
{
}

} // verus!
