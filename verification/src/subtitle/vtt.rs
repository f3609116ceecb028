//! WebVTT output.

use crate::subtitle::types::{
    entries_view, opt_view, push_time_fields, vtt_time, EntryView, SubtitleEntry, SubtitleFile,
};
use crate::text::{chars_to_string, dec, push_dec, push_str, push_string};
use vstd::prelude::*;

verus! {

pub struct VttWriter;

/// The header: signature, kind and the language line
/// (`source/target` for bilingual subtitles).
pub open spec fn vtt_header(source: Seq<char>, target: Option<Seq<char>>) -> Seq<char> {
    "WEBVTT\n"@ + "Kind: captions\n"@ + "Language: "@ + source + match target {
        Some(t) => seq!['/'] + t,
        None => Seq::empty(),
    } + seq!['\n', '\n']
}

/// One cue: identifier `cue-N`, timing line, text lines, blank line.
pub open spec fn vtt_entry(e: EntryView) -> Seq<char> {
    "cue-"@ + dec(e.index as nat) + seq!['\n'] + vtt_time(e.start) + " --> "@ + vtt_time(e.end)
        + seq!['\n'] + e.primary + seq!['\n'] + match e.secondary {
        Some(s) => s + seq!['\n'],
        None => Seq::empty(),
    } + seq!['\n']
}

/// All cues, in order.
pub open spec fn vtt_cues(es: Seq<EntryView>) -> Seq<char>
    decreases es.len(),
{
    if es.len() == 0 {
        Seq::empty()
    } else {
        vtt_cues(es.drop_last()) + vtt_entry(es.last())
    }
}

/// The WebVTT document of a subtitle file.
pub open spec fn vtt_document(f: SubtitleFile) -> Seq<char> {
    vtt_header(f.source_language@, opt_view(f.target_language)) + vtt_cues(entries_view(f.entries@))
}

#[verifier::rlimit(40)]
fn push_vtt_entry(out: &mut Vec<char>, entry: &SubtitleEntry)
    ensures
        final(out)@ == old(out)@ + vtt_entry(entry@),
{
    let ghost o0 = out@;
    push_str(out, "cue-");
    push_dec(out, entry.index as u64);
    out.push('\n');
    push_time_fields(out, &entry.start, 2, '.', entry.start.milliseconds, 3);
    let ghost a = "cue-"@ + dec(entry.index as nat) + seq!['\n'] + vtt_time(entry.start);
    assert(out@ =~= o0 + a);
    push_str(out, " --> ");
    push_time_fields(out, &entry.end, 2, '.', entry.end.milliseconds, 3);
    out.push('\n');
    let ghost b = a + " --> "@ + vtt_time(entry.end) + seq!['\n'];
    assert(out@ =~= o0 + b);
    push_string(out, &entry.primary_text);
    out.push('\n');
    let ghost c = b + entry.primary_text@ + seq!['\n'];
    assert(out@ =~= o0 + c);
    let ghost tail = match entry@.secondary {
        Some(t) => t + seq!['\n'],
        None => Seq::<char>::empty(),
    };
    match &entry.secondary_text {
        Some(secondary) => {
            push_string(out, secondary);
            out.push('\n');
        },
        None => {},
    }
    assert(out@ =~= o0 + c + tail);
    out.push('\n');
    assert(out@ =~= o0 + (c + tail + seq!['\n']));
}

impl VttWriter {
    /// Renders the file as WebVTT.
    pub fn write(subtitle: &SubtitleFile) -> (s: String)
        ensures
            s@ == vtt_document(*subtitle),
    {
        let mut out: Vec<char> = Vec::new();
        push_str(&mut out, "WEBVTT\n");
        push_str(&mut out, "Kind: captions\n");
        push_str(&mut out, "Language: ");
        push_string(&mut out, &subtitle.source_language);
        match &subtitle.target_language {
            Some(target) => {
                out.push('/');
                push_string(&mut out, target);
            },
            None => {},
        }
        out.push('\n');
        out.push('\n');
        let ghost head = vtt_header(subtitle.source_language@, opt_view(subtitle.target_language));
        assert(out@ =~= head);
        let ghost es = entries_view(subtitle.entries@);
        let mut i: usize = 0;
        while i < subtitle.entries.len()
            invariant
                i <= subtitle.entries@.len(),
                es == entries_view(subtitle.entries@),
                out@ == head + vtt_cues(es.take(i as int)),
            decreases subtitle.entries.len() - i,
        {
            let ghost o0 = out@;
            push_vtt_entry(&mut out, &subtitle.entries[i]);
            proof {
                assert(es.take(i + 1).drop_last() =~= es.take(i as int));
                assert(es.take(i + 1).last() == subtitle.entries@[i as int]@);
                assert(out@ =~= head + vtt_cues(es.take(i + 1)));
            }
            i = i + 1;
        }
        assert(es.take(subtitle.entries@.len() as int) =~= es);
        chars_to_string(out.as_slice())
    }
}

} // verus!
