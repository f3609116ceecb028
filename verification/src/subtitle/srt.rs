//! SubRip (SRT) writer and parser.

use crate::error::SubtitleError;
use crate::subtitle::types::{
    entries_view, parse_srt_time, push_time_fields, srt_time, EntryView, SubtitleEntry,
    SubtitleFile, Timecode,
};
use crate::text::{
    char_is_ws, chars_to_string, dec, is_ws, join, join_chars, lines, lines_chars, parse_unsigned,
    parse_unsigned_chars, push_all, push_dec, push_str, push_string, split, split_chars, str_chars, trim,
    trim_chars,
};
use vstd::prelude::*;

verus! {

pub struct SrtWriter;

pub struct SrtParser;

/// One SRT cue: index line, timing line, text lines and a blank line.
pub open spec fn srt_entry(e: EntryView) -> Seq<char> {
    dec(e.index as nat) + seq!['\n'] + srt_time(e.start) + seq![' ', '-', '-', '>', ' ']
        + srt_time(e.end) + seq!['\n'] + e.primary + seq!['\n'] + match e.secondary {
        Some(s) => s + seq!['\n'],
        None => Seq::empty(),
    } + seq!['\n']
}

/// The SRT text of a sequence of cues.
pub open spec fn srt_document(es: Seq<EntryView>) -> Seq<char>
    decreases es.len(),
{
    if es.len() == 0 {
        Seq::empty()
    } else {
        srt_document(es.drop_last()) + srt_entry(es.last())
    }
}

/// What one `\n\n`-separated block of an SRT file contributes.
pub enum BlockOutcome {
    Skip,
    Entry(EntryView),
    Error(int, Seq<char>),
}

pub open spec fn quoted(prefix: Seq<char>, s: Seq<char>) -> Seq<char> {
    prefix + s + seq!['\'']
}

/// Number of line breaks in `s`.
pub open spec fn count_newlines(s: Seq<char>) -> nat
    decreases s.len(),
{
    if s.len() == 0 {
        0
    } else {
        count_newlines(s.drop_last()) + if s.last() == '\n' {
            1nat
        } else {
            0nat
        }
    }
}

/// Line breaks among the whitespace that `trim` drops at the start of `s`.
pub open spec fn leading_newlines(s: Seq<char>) -> nat
    decreases s.len(),
{
    if s.len() > 0 && is_ws(s[0]) {
        leading_newlines(s.drop_first()) + if s[0] == '\n' {
            1nat
        } else {
            0nat
        }
    } else {
        0
    }
}

/// The line (counted from 1) on which block `k` of a document cut at blank
/// lines begins: each earlier block spans its own line breaks, and each cut
/// `\n\n` ends one line and one empty line.
pub open spec fn block_first_line(blocks: Seq<Seq<char>>, k: int) -> int
    decreases k,
{
    if k <= 0 {
        1
    } else {
        block_first_line(blocks, k - 1) + count_newlines(blocks[k - 1]) + 2
    }
}

/// The meaning of a block that begins on line `first_line`: blank or short
/// blocks are skipped; otherwise an index line, a `start --> end` line and
/// one or more text lines. Errors name the line of the content that holds
/// the faulty index or timing line.
pub open spec fn parse_block(block: Seq<char>, first_line: int) -> BlockOutcome {
    let b = trim(block);
    let ls = lines(b);
    let index_line = first_line + leading_newlines(block);
    if b.len() == 0 || ls.len() < 3 {
        BlockOutcome::Skip
    } else {
        let tp = split(ls[1], seq!['-', '-', '>']);
        match parse_unsigned(trim(ls[0]), usize::MAX as nat) {
            None => BlockOutcome::Error(index_line, quoted("Invalid index: '"@, ls[0])),
            Some(index) => if tp.len() != 2 {
                BlockOutcome::Error(index_line + 1, quoted("Invalid timecode line: '"@, ls[1]))
            } else {
                match parse_srt_time(tp[0]) {
                    None => BlockOutcome::Error(
                        index_line + 1,
                        quoted("Invalid start timecode: '"@, tp[0]),
                    ),
                    Some(start) => match parse_srt_time(tp[1]) {
                        None => BlockOutcome::Error(
                            index_line + 1,
                            quoted("Invalid end timecode: '"@, tp[1]),
                        ),
                        Some(end) => BlockOutcome::Entry(
                            EntryView {
                                index: index as usize,
                                start,
                                end,
                                primary: trim(ls[2]),
                                secondary: if ls.len() > 3 {
                                    Some(trim(join(ls.skip(3), seq!['\n'])))
                                } else {
                                    None
                                },
                            },
                        ),
                    },
                }
            },
        }
    }
}

/// Result of parsing the first `n` blocks: the entries, or the first error as
/// a line number and a message.
pub open spec fn parse_blocks(blocks: Seq<Seq<char>>, n: int) -> Result<
    Seq<EntryView>,
    (int, Seq<char>),
>
    decreases n,
{
    if n <= 0 {
        Ok(Seq::empty())
    } else {
        match parse_blocks(blocks, n - 1) {
            Err(e) => Err(e),
            Ok(es) => match parse_block(blocks[n - 1], block_first_line(blocks, n - 1)) {
                BlockOutcome::Skip => Ok(es),
                BlockOutcome::Entry(e) => Ok(es.push(e)),
                BlockOutcome::Error(line, msg) => Err((line, msg)),
            },
        }
    }
}

/// What `SrtParser::parse` yields for a document.
pub open spec fn parse_srt_document(content: Seq<char>) -> Result<
    Seq<EntryView>,
    (int, Seq<char>),
> {
    let blocks = split(content, seq!['\n', '\n']);
    parse_blocks(blocks, blocks.len() as int)
}

/// The characters of the blocks, each followed by a two-character separator.
pub open spec fn blocks_span(bs: Seq<Seq<char>>) -> nat
    decreases bs.len(),
{
    if bs.len() == 0 {
        0
    } else {
        bs[0].len() + 2 + blocks_span(bs.drop_first())
    }
}

/// The pieces of a split at a two-character pattern, with one pattern after
/// each, are two characters longer than the text.
pub proof fn lemma_split2_span(s: Seq<char>, p: Seq<char>)
    requires
        p.len() == 2,
    ensures
        blocks_span(split(s, p)) == s.len() + 2,
    decreases s.len(),
{
    if crate::text::starts_with(s, p) {
        lemma_split2_span(s.skip(2), p);
        let r = split(s.skip(2), p);
        let t = seq![Seq::<char>::empty()] + r;
        assert(t.drop_first() =~= r);
        assert(t[0].len() == 0);
        assert(blocks_span(t) == t[0].len() + 2 + blocks_span(t.drop_first()));
        assert(split(s, p) == t);
    } else if s.len() == 0 {
        let t = seq![Seq::<char>::empty()];
        assert(t.drop_first() =~= Seq::<Seq<char>>::empty());
        assert(blocks_span(t) == t[0].len() + 2 + blocks_span(t.drop_first()));
        assert(split(s, p) == t);
    } else {
        lemma_split2_span(s.drop_first(), p);
        crate::text::lemma_split_nonempty(s.drop_first(), p);
        let r = split(s.drop_first(), p);
        let u = r.update(0, seq![s[0]] + r[0]);
        assert(u.drop_first() =~= r.drop_first());
        assert(u[0].len() == r[0].len() + 1);
        assert(blocks_span(u) == u[0].len() + 2 + blocks_span(u.drop_first()));
        assert(blocks_span(r) == r[0].len() + 2 + blocks_span(r.drop_first()));
        assert(split(s, p) == u);
    }
}

/// The span of the blocks from `i` on is that of block `i` and the rest.
proof fn lemma_span_step(bs: Seq<Seq<char>>, i: int)
    requires
        0 <= i < bs.len(),
    ensures
        blocks_span(bs.skip(i)) == bs[i].len() + 2 + blocks_span(bs.skip(i + 1)),
{
    assert(bs.skip(i)[0] == bs[i]);
    assert(bs.skip(i).drop_first() =~= bs.skip(i + 1));
}

/// Once an error is met, later blocks do not change the result.
pub proof fn lemma_parse_blocks_error_sticks(blocks: Seq<Seq<char>>, n: int, m: int)
    requires
        0 <= n <= m,
        parse_blocks(blocks, n) is Err,
    ensures
        parse_blocks(blocks, m) == parse_blocks(blocks, n),
    decreases m - n,
{
    if m > n {
        lemma_parse_blocks_error_sticks(blocks, n, m - 1);
    }
}

#[verifier::rlimit(60)]
fn push_srt_entry(out: &mut Vec<char>, entry: &SubtitleEntry)
    ensures
        final(out)@ == old(out)@ + srt_entry(entry@),
{
    let ghost o0 = out@;
    push_dec(out, entry.index as u64);
    out.push('\n');
    push_time_fields(out, &entry.start, 2, ',', entry.start.milliseconds, 3);
    let ghost a = dec(entry.index as nat) + seq!['\n'] + srt_time(entry.start);
    assert(out@ =~= o0 + a);
    out.push(' ');
    out.push('-');
    out.push('-');
    out.push('>');
    out.push(' ');
    let ghost b = a + seq![' ', '-', '-', '>', ' '];
    assert(out@ =~= o0 + b);
    push_time_fields(out, &entry.end, 2, ',', entry.end.milliseconds, 3);
    out.push('\n');
    let ghost c = b + srt_time(entry.end) + seq!['\n'];
    assert(out@ =~= o0 + c);
    push_string(out, &entry.primary_text);
    out.push('\n');
    let ghost d = c + entry.primary_text@ + seq!['\n'];
    assert(out@ =~= o0 + d);
    let ghost tail = match entry@.secondary {
        Some(t) => t + seq!['\n'],
        None => Seq::<char>::empty(),
    };
    match &entry.secondary_text {
        Some(secondary) => {
            push_string(out, secondary);
            out.push('\n');
        },
        None => {},
    }
    assert(out@ =~= o0 + d + tail);
    out.push('\n');
    assert(out@ =~= o0 + (d + tail + seq!['\n']));
}

impl SrtWriter {
    /// Renders all entries as SRT.
    pub fn write(subtitle: &SubtitleFile) -> (s: String)
        ensures
            s@ == srt_document(entries_view(subtitle.entries@)),
    {
        let mut out: Vec<char> = Vec::new();
        let ghost es = entries_view(subtitle.entries@);
        let mut i: usize = 0;
        while i < subtitle.entries.len()
            invariant
                i <= subtitle.entries@.len(),
                es == entries_view(subtitle.entries@),
                out@ == srt_document(es.take(i as int)),
            decreases subtitle.entries.len() - i,
        {
            let entry = &subtitle.entries[i];
            let ghost o0 = out@;
            push_srt_entry(&mut out, entry);
            proof {
                assert(es.take(i + 1).drop_last() =~= es.take(i as int));
                assert(es.take(i + 1).last() == entry@);
                assert(out@ =~= o0 + srt_entry(entry@));
            }
            i = i + 1;
        }
        assert(es.take(subtitle.entries@.len() as int) =~= es);
        chars_to_string(out.as_slice())
    }
}

/// Error message `prefix'text'`.
fn quoted_message(prefix: &str, text: &[char]) -> (s: String)
    ensures
        s@ == quoted(prefix@, text@),
{
    let mut m: Vec<char> = Vec::new();
    push_str(&mut m, prefix);
    push_all(&mut m, text);
    m.push('\'');
    assert(m@ =~= quoted(prefix@, text@));
    chars_to_string(m.as_slice())
}

pub open spec fn outcome_of(r: Result<Option<SubtitleEntry>, SubtitleError>, o: BlockOutcome) -> bool {
    match (r, o) {
        (Ok(None), BlockOutcome::Skip) => true,
        (Ok(Some(e)), BlockOutcome::Entry(v)) => e@ == v,
        (Err(SubtitleError::Parse { line, message }), BlockOutcome::Error(l, m)) => line == l
            && message@ == m,
        _ => false,
    }
}

/// Counts the line breaks in `s`.
fn count_newlines_chars(s: &[char]) -> (n: usize)
    ensures
        n == count_newlines(s@),
        n <= s@.len(),
{
    let mut n: usize = 0;
    let mut j: usize = 0;
    while j < s.len()
        invariant
            j <= s@.len(),
            n <= j,
            n == count_newlines(s@.take(j as int)),
        decreases s.len() - j,
    {
        proof {
            assert(s@.take(j + 1).drop_last() =~= s@.take(j as int));
            assert(s@.take(j + 1).last() == s@[j as int]);
        }
        if s[j] == '\n' {
            n = n + 1;
        }
        j = j + 1;
    }
    assert(s@.take(s@.len() as int) =~= s@);
    n
}

/// Counts the line breaks in the leading whitespace of `s`.
fn leading_newlines_chars(s: &[char]) -> (n: usize)
    ensures
        n == leading_newlines(s@),
        n <= s@.len(),
{
    let mut n: usize = 0;
    let mut j: usize = 0;
    assert(s@.skip(0) =~= s@);
    while j < s.len() && char_is_ws(s[j])
        invariant
            j <= s@.len(),
            n <= j,
            leading_newlines(s@) == n + leading_newlines(s@.skip(j as int)),
        decreases s.len() - j,
    {
        proof {
            assert(s@.skip(j as int)[0] == s@[j as int]);
            assert(s@.skip(j as int).drop_first() =~= s@.skip(j + 1));
        }
        if s[j] == '\n' {
            n = n + 1;
        }
        j = j + 1;
    }
    proof {
        if j < s@.len() {
            assert(s@.skip(j as int)[0] == s@[j as int]);
        }
    }
    n
}

impl SrtParser {
    fn parse_block_chars(block: &[char], first_line: usize) -> (r: Result<
        Option<SubtitleEntry>,
        SubtitleError,
    >)
        requires
            first_line + block@.len() + 1 <= usize::MAX,
        ensures
            outcome_of(r, parse_block(block@, first_line as int)),
    {
        let b = trim_chars(block);
        if b.len() == 0 {
            return Ok(None);
        }
        let ls = lines_chars(b.as_slice());
        if ls.len() < 3 {
            return Ok(None);
        }
        let index_line = first_line + leading_newlines_chars(block);
        let first = trim_chars(ls[0].as_slice());
        let index = match parse_unsigned_chars(first.as_slice(), usize::MAX as u64) {
            Some(v) => v as usize,
            None => {
                return Err(
                    SubtitleError::Parse {
                        line: index_line,
                        message: quoted_message("Invalid index: '", ls[0].as_slice()),
                    },
                );
            },
        };
        let arrow = vec!['-', '-', '>'];
        assert(arrow@ =~= seq!['-', '-', '>']);
        let tp = split_chars(ls[1].as_slice(), arrow.as_slice());
        if tp.len() != 2 {
            return Err(
                SubtitleError::Parse {
                    line: index_line + 1,
                    message: quoted_message("Invalid timecode line: '", ls[1].as_slice()),
                },
            );
        }
        let start = match Timecode::parse_srt_chars(tp[0].as_slice()) {
            Some(t) => t,
            None => {
                return Err(
                    SubtitleError::Parse {
                        line: index_line + 1,
                        message: quoted_message("Invalid start timecode: '", tp[0].as_slice()),
                    },
                );
            },
        };
        let end = match Timecode::parse_srt_chars(tp[1].as_slice()) {
            Some(t) => t,
            None => {
                return Err(
                    SubtitleError::Parse {
                        line: index_line + 1,
                        message: quoted_message("Invalid end timecode: '", tp[1].as_slice()),
                    },
                );
            },
        };
        let primary = trim_chars(ls[2].as_slice());
        let secondary = if ls.len() > 3 {
            let mut rest: Vec<Vec<char>> = Vec::new();
            let mut k: usize = 3;
            while k < ls.len()
                invariant
                    3 <= k <= ls@.len(),
                    rest@.len() == k - 3,
                    forall|j: int| 0 <= j < rest@.len() ==> #[trigger] rest@[j]@ == ls@[j + 3]@,
                decreases ls.len() - k,
            {
                rest.push(crate::text::slice_range(ls[k].as_slice(), 0, ls[k].len()));
                proof {
                    assert(rest@[k - 3]@ =~= ls@[k as int]@);
                }
                k = k + 1;
            }
            let nl = vec!['\n'];
            let joined = join_chars(rest.as_slice(), nl.as_slice());
            proof {
                let lv = lines(b@);
                assert(rest@.map_values(|p: Vec<char>| p@) =~= lv.skip(3));
                assert(nl@ =~= seq!['\n']);
            }
            let t = trim_chars(joined.as_slice());
            Some(chars_to_string(t.as_slice()))
        } else {
            None
        };
        Ok(
            Some(
                SubtitleEntry {
                    index,
                    start,
                    end,
                    primary_text: chars_to_string(primary.as_slice()),
                    secondary_text: secondary,
                },
            ),
        )
    }

    /// Parses SRT text into entries. Blank blocks and blocks of fewer than
    /// three lines are skipped; the first malformed block stops parsing, and
    /// its error names the line of `content` that holds the faulty index or
    /// timing line.
    #[verifier::rlimit(40)]
    pub fn parse(content: &str) -> (r: Result<Vec<SubtitleEntry>, SubtitleError>)
        requires
            content@.len() < isize::MAX,
        ensures
            match (r, parse_srt_document(content@)) {
                (Ok(es), Ok(vs)) => entries_view(es@) == vs,
                (Err(SubtitleError::Parse { line, message }), Err((l, m))) => line == l
                    && message@ == m,
                _ => false,
            },
    {
        let chars = str_chars(content);
        let sep = vec!['\n', '\n'];
        assert(sep@ =~= seq!['\n', '\n']);
        let blocks = split_chars(chars.as_slice(), sep.as_slice());
        let ghost bs = split(content@, seq!['\n', '\n']);
        proof {
            lemma_split2_span(content@, seq!['\n', '\n']);
            assert(bs.skip(0) =~= bs);
        }
        let mut entries: Vec<SubtitleEntry> = Vec::new();
        let mut i: usize = 0;
        let mut line: usize = 1;
        assert(entries_view(entries@) =~= Seq::<EntryView>::empty());
        while i < blocks.len()
            invariant
                i <= blocks@.len(),
                bs == split(content@, seq!['\n', '\n']),
                blocks@.len() == bs.len(),
                blocks_span(bs) == content@.len() + 2,
                content@.len() < isize::MAX,
                line == block_first_line(bs, i as int),
                line + blocks_span(bs.skip(i as int)) <= blocks_span(bs) + 1,
                forall|j: int| 0 <= j < blocks@.len() ==> #[trigger] blocks@[j]@ == bs[j],
                parse_blocks(bs, i as int) == Ok::<Seq<EntryView>, (int, Seq<char>)>(
                    entries_view(entries@),
                ),
            decreases blocks.len() - i,
        {
            assert(blocks@[i as int]@ == bs[i as int]);
            proof {
                lemma_span_step(bs, i as int);
            }
            let r = Self::parse_block_chars(blocks[i].as_slice(), line);
            let ghost prev = entries_view(entries@);
            assert(parse_blocks(bs, i + 1) == match parse_block(
                bs[i as int],
                block_first_line(bs, i as int),
            ) {
                BlockOutcome::Skip => Ok::<Seq<EntryView>, (int, Seq<char>)>(prev),
                BlockOutcome::Entry(e) => Ok(prev.push(e)),
                BlockOutcome::Error(line, msg) => Err((line, msg)),
            });
            match r {
                Ok(None) => {},
                Ok(Some(e)) => {
                    let ghost old_entries = entries@;
                    entries.push(e);
                    assert(entries@ =~= old_entries.push(e));
                    assert(entries_view(old_entries.push(e)) =~= entries_view(old_entries).push(
                        e@,
                    ));
                },
                Err(err) => {
                    proof {
                        lemma_parse_blocks_error_sticks(bs, i + 1, bs.len() as int);
                    }
                    return Err(err);
                },
            }
            let breaks = count_newlines_chars(blocks[i].as_slice());
            line = line + breaks + 2;
            i = i + 1;
        }
        Ok(entries)
    }
}

} // verus!
