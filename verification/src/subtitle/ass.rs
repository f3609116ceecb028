//! Advanced SubStation Alpha output with one style per language.

use crate::subtitle::types::{ass_time, entries_view, EntryView, SubtitleEntry, SubtitleFile};
use crate::text::{chars_to_string, dec, push_dec, push_str, push_string, str_chars};
use vstd::prelude::*;

verus! {

/// Fonts, sizes and colours (`&HAABBGGRR`) of the two subtitle lines, and the
/// script resolution.
#[derive(Debug, Clone)]
pub struct AssStyle {
    pub primary_font: String,
    pub primary_size: u32,
    pub primary_color: String,
    pub secondary_font: String,
    pub secondary_size: u32,
    pub secondary_color: String,
    pub outline_size: u32,
    pub shadow_size: u32,
    pub play_res_x: u32,
    pub play_res_y: u32,
}

impl Default for AssStyle {
    fn default() -> (s: Self)
        ensures
            s.primary_font@ == "Arial"@,
            s.primary_size == 48,
            s.primary_color@ == "&H00FFFFFF"@,
            s.secondary_font@ == "Arial"@,
            s.secondary_size == 36,
            s.secondary_color@ == "&H0000FFFF"@,
            s.outline_size == 2,
            s.shadow_size == 1,
            s.play_res_x == 1920,
            s.play_res_y == 1080,
    {
        AssStyle {
            primary_font: "Arial".to_owned(),
            primary_size: 48,
            primary_color: "&H00FFFFFF".to_owned(),
            secondary_font: "Arial".to_owned(),
            secondary_size: 36,
            secondary_color: "&H0000FFFF".to_owned(),
            outline_size: 2,
            shadow_size: 1,
            play_res_x: 1920,
            play_res_y: 1080,
        }
    }
}

pub struct AssWriter;

/// How one character is escaped: `\`, `{` and `}` get a backslash.
pub open spec fn ass_escape_char(c: char) -> Seq<char> {
    if c == '\\' {
        seq!['\\', '\\']
    } else if c == '{' {
        seq!['\\', '{']
    } else if c == '}' {
        seq!['\\', '}']
    } else {
        seq![c]
    }
}

/// Text with override-block characters escaped.
pub open spec fn ass_escape(s: Seq<char>) -> Seq<char>
    decreases s.len(),
{
    if s.len() == 0 {
        Seq::empty()
    } else {
        ass_escape(s.drop_last()) + ass_escape_char(s.last())
    }
}

/// One style line: name, font, size, colour, the fixed colours and flags,
/// outline, shadow, alignment and margins.
pub open spec fn ass_style_line(
    name: Seq<char>,
    font: Seq<char>,
    size: u32,
    color: Seq<char>,
    bold: Seq<char>,
    outline: u32,
    shadow: u32,
    alignment: char,
) -> Seq<char> {
    "Style: "@ + name + seq![','] + font + seq![','] + dec(size as nat) + seq![','] + color
        + ",&H000000FF,&H00000000,&H80000000,"@ + bold + ",0,0,0,100,100,0,0,1,"@ + dec(
        outline as nat,
    ) + seq![','] + dec(shadow as nat) + seq![',', alignment] + ",10,10,30,1\n"@
}

/// Everything before the dialogue lines.
pub open spec fn ass_header(st: AssStyle) -> Seq<char> {
    "[Script Info]\n"@ + "Title: SubtitleForge Generated Bilingual Subtitles\n"@
        + "ScriptType: v4.00+\n"@ + "PlayResX: "@ + dec(st.play_res_x as nat) + seq!['\n']
        + "PlayResY: "@ + dec(st.play_res_y as nat) + seq!['\n'] + "WrapStyle: 0\n"@
        + "ScaledBorderAndShadow: yes\n"@ + "YCbCr Matrix: None\n"@ + seq!['\n']
        + "[V4+ Styles]\n"@ + ass_format_line() + ass_style_line(
        "Primary"@,
        st.primary_font@,
        st.primary_size,
        st.primary_color@,
        "-1"@,
        st.outline_size,
        st.shadow_size,
        '2',
    ) + ass_style_line(
        "Secondary"@,
        st.secondary_font@,
        st.secondary_size,
        st.secondary_color@,
        "0"@,
        st.outline_size,
        st.shadow_size,
        '8',
    ) + seq!['\n'] + "[Events]\n"@
        + "Format: Layer, Start, End, Style, Name, MarginL, MarginR, MarginV, Effect, Text\n"@
}

/// The column list of the styles section.
pub open spec fn ass_format_line() -> Seq<char> {
    "Format: Name, Fontname, Fontsize, PrimaryColour, SecondaryColour, OutlineColour, BackColour, Bold, Italic, Underline, StrikeOut, ScaleX, ScaleY, Spacing, Angle, BorderStyle, Outline, Shadow, Alignment, MarginL, MarginR, MarginV, Encoding\n"@
}

/// One dialogue line in the given style.
pub open spec fn ass_dialogue(e: EntryView, style: Seq<char>, text: Seq<char>) -> Seq<char> {
    "Dialogue: 0,"@ + ass_time(e.start) + seq![','] + ass_time(e.end) + seq![','] + style
        + ",,0,0,0,,"@ + ass_escape(text) + seq!['\n']
}

/// The dialogue lines of one entry: primary, then secondary if any.
pub open spec fn ass_entry(e: EntryView) -> Seq<char> {
    ass_dialogue(e, "Primary"@, e.primary) + match e.secondary {
        Some(s) => ass_dialogue(e, "Secondary"@, s),
        None => Seq::empty(),
    }
}

pub open spec fn ass_entries(es: Seq<EntryView>) -> Seq<char>
    decreases es.len(),
{
    if es.len() == 0 {
        Seq::empty()
    } else {
        ass_entries(es.drop_last()) + ass_entry(es.last())
    }
}

/// The ASS document of a subtitle file.
pub open spec fn ass_document(f: SubtitleFile, st: AssStyle) -> Seq<char> {
    ass_header(st) + ass_entries(entries_view(f.entries@))
}

fn push_escaped(out: &mut Vec<char>, text: &[char])
    ensures
        final(out)@ == old(out)@ + ass_escape(text@),
{
    let ghost o0 = out@;
    let mut i: usize = 0;
    while i < text.len()
        invariant
            i <= text@.len(),
            out@ == o0 + ass_escape(text@.take(i as int)),
        decreases text.len() - i,
    {
        let c = text[i];
        if c == '\\' {
            out.push('\\');
            out.push('\\');
        } else if c == '{' {
            out.push('\\');
            out.push('{');
        } else if c == '}' {
            out.push('\\');
            out.push('}');
        } else {
            out.push(c);
        }
        proof {
            assert(text@.take(i + 1).drop_last() =~= text@.take(i as int));
            assert(text@.take(i + 1).last() == c);
            assert(out@ =~= o0 + ass_escape(text@.take(i + 1)));
        }
        i = i + 1;
    }
    assert(text@.take(text@.len() as int) =~= text@);
}

fn push_style_line(
    out: &mut Vec<char>,
    name: &str,
    font: &String,
    size: u32,
    color: &String,
    bold: &str,
    outline: u32,
    shadow: u32,
    alignment: char,
)
    ensures
        final(out)@ == old(out)@ + ass_style_line(
            name@,
            font@,
            size,
            color@,
            bold@,
            outline,
            shadow,
            alignment,
        ),
{
    let ghost o0 = out@;
    push_str(out, "Style: ");
    push_str(out, name);
    out.push(',');
    push_string(out, font);
    out.push(',');
    push_dec(out, size as u64);
    out.push(',');
    push_string(out, color);
    push_str(out, ",&H000000FF,&H00000000,&H80000000,");
    push_str(out, bold);
    push_str(out, ",0,0,0,100,100,0,0,1,");
    push_dec(out, outline as u64);
    out.push(',');
    push_dec(out, shadow as u64);
    out.push(',');
    out.push(alignment);
    push_str(out, ",10,10,30,1\n");
    assert(out@ =~= o0 + ass_style_line(name@, font@, size, color@, bold@, outline, shadow, alignment));
}

fn push_dialogue(out: &mut Vec<char>, entry: &SubtitleEntry, style: &str, text: &String)
    ensures
        final(out)@ == old(out)@ + ass_dialogue(entry@, style@, text@),
{
    let ghost o0 = out@;
    push_str(out, "Dialogue: 0,");
    let start = entry.start.to_ass_string();
    push_string(out, &start);
    out.push(',');
    let end = entry.end.to_ass_string();
    push_string(out, &end);
    out.push(',');
    push_str(out, style);
    push_str(out, ",,0,0,0,,");
    let escaped = AssWriter::escape_ass_text(text.as_str());
    push_string(out, &escaped);
    out.push('\n');
    assert(out@ =~= o0 + ass_dialogue(entry@, style@, text@));
}

impl AssWriter {
    /// Renders the file as ASS: script info, the `Primary` (bottom) and
    /// `Secondary` (top) styles, and one dialogue line per text.
    #[verifier::rlimit(40)]
    pub fn write(subtitle: &SubtitleFile, style: &AssStyle) -> (s: String)
        ensures
            s@ == ass_document(*subtitle, *style),
    {
        let mut out: Vec<char> = Vec::new();
        push_str(&mut out, "[Script Info]\n");
        push_str(&mut out, "Title: SubtitleForge Generated Bilingual Subtitles\n");
        push_str(&mut out, "ScriptType: v4.00+\n");
        push_str(&mut out, "PlayResX: ");
        push_dec(&mut out, style.play_res_x as u64);
        out.push('\n');
        push_str(&mut out, "PlayResY: ");
        push_dec(&mut out, style.play_res_y as u64);
        out.push('\n');
        push_str(&mut out, "WrapStyle: 0\n");
        push_str(&mut out, "ScaledBorderAndShadow: yes\n");
        push_str(&mut out, "YCbCr Matrix: None\n");
        out.push('\n');
        push_str(&mut out, "[V4+ Styles]\n");
        push_str(
            &mut out,
            "Format: Name, Fontname, Fontsize, PrimaryColour, SecondaryColour, OutlineColour, BackColour, Bold, Italic, Underline, StrikeOut, ScaleX, ScaleY, Spacing, Angle, BorderStyle, Outline, Shadow, Alignment, MarginL, MarginR, MarginV, Encoding\n",
        );
        push_style_line(
            &mut out,
            "Primary",
            &style.primary_font,
            style.primary_size,
            &style.primary_color,
            "-1",
            style.outline_size,
            style.shadow_size,
            '2',
        );
        push_style_line(
            &mut out,
            "Secondary",
            &style.secondary_font,
            style.secondary_size,
            &style.secondary_color,
            "0",
            style.outline_size,
            style.shadow_size,
            '8',
        );
        out.push('\n');
        push_str(&mut out, "[Events]\n");
        push_str(
            &mut out,
            "Format: Layer, Start, End, Style, Name, MarginL, MarginR, MarginV, Effect, Text\n",
        );
        let ghost head = ass_header(*style);
        assert(out@ =~= head);
        let ghost es = entries_view(subtitle.entries@);
        let mut i: usize = 0;
        while i < subtitle.entries.len()
            invariant
                i <= subtitle.entries@.len(),
                es == entries_view(subtitle.entries@),
                out@ == head + ass_entries(es.take(i as int)),
            decreases subtitle.entries.len() - i,
        {
            let entry = &subtitle.entries[i];
            let ghost o0 = out@;
            push_dialogue(&mut out, entry, "Primary", &entry.primary_text);
            match &entry.secondary_text {
                Some(secondary) => {
                    push_dialogue(&mut out, entry, "Secondary", secondary);
                },
                None => {},
            }
            proof {
                assert(out@ =~= o0 + ass_entry(entry@));
                assert(es.take(i + 1).drop_last() =~= es.take(i as int));
                assert(es.take(i + 1).last() == entry@);
                assert(out@ =~= head + ass_entries(es.take(i + 1)));
            }
            i = i + 1;
        }
        assert(es.take(subtitle.entries@.len() as int) =~= es);
        chars_to_string(out.as_slice())
    }

    /// Escapes `\`, `{` and `}` with a backslash.
    fn escape_ass_text(text: &str) -> (s: String)
        ensures
            s@ == ass_escape(text@),
    {
        let chars = str_chars(text);
        let mut out: Vec<char> = Vec::new();
        push_escaped(&mut out, chars.as_slice());
        assert(out@ =~= ass_escape(text@));
        chars_to_string(out.as_slice())
    }
}

} // verus!
