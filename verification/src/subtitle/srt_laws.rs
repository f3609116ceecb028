//! What SRT writing and parsing guarantee of each other: a document written by
//! `SrtWriter::write` parses back, through `SrtParser::parse`, to the very
//! entries it was written from, as long as the primary text is one non-empty
//! line and the secondary text, which may span several lines, is non-empty,
//! has no blank line and no surrounding whitespace: every line of the
//! secondary text comes back.

use crate::subtitle::srt::{
    block_first_line, lemma_parse_blocks_error_sticks, parse_block, parse_blocks, parse_srt_document, srt_document,
    srt_entry, BlockOutcome,
};
use crate::subtitle::types::{parse_srt_time, srt_time, EntryView, Timecode};
use crate::text::{
    all_digits, dec, dec_pad, digits_value, is_ws, join, lacks, lemma_dec_digits,
    lemma_digit_chars, lemma_no_match_first_char, lemma_parse_dec_pad, lemma_parse_digits,
    lemma_split_char_concat, lemma_split_char_none, lemma_split_concat, lemma_split_none,
    lemma_trim_end_take, lemma_trim_head_ws, lemma_trim_noop, lemma_trim_start_skip,
    lemma_trim_tail_ws, lines, no_match_before,
    parse_unsigned, split, starts_with, strip_cr, trim, trim_end, trim_start,
};
use vstd::prelude::*;

verus! {

/// A text line the SRT format carries unchanged.
pub open spec fn srt_clean_line(t: Seq<char>) -> bool {
    t.len() > 0 && lacks(t, '\n') && !is_ws(t[0]) && !is_ws(t.last())
}

/// A text, possibly of several lines, that the SRT format carries unchanged
/// as the secondary text: non-empty, without surrounding whitespace,
/// without a blank line, and without a carriage return before a line break.
pub open spec fn srt_clean_text(t: Seq<char>) -> bool {
    &&& t.len() > 0
    &&& !is_ws(t[0])
    &&& !is_ws(t.last())
    &&& no_blank_line(t)
    &&& cr_free_breaks(t)
}

/// No line break is preceded by a carriage return.
pub open spec fn cr_free_breaks(t: Seq<char>) -> bool {
    forall|i: int| 0 < i < t.len() && #[trigger] t[i] == '\n' ==> t[i - 1] != '\r'
}

/// An entry whose texts the SRT format carries unchanged: a one-line
/// primary text and a secondary text of one or more lines.
pub open spec fn srt_clean_entry(e: EntryView) -> bool {
    srt_clean_line(e.primary) && match e.secondary {
        Some(s) => srt_clean_text(s),
        None => true,
    }
}

/// The timing line of a cue.
pub open spec fn srt_time_line(e: EntryView) -> Seq<char> {
    srt_time(e.start) + seq![' ', '-', '-', '>', ' '] + srt_time(e.end)
}

/// A cue without its terminating blank line.
pub open spec fn srt_block(e: EntryView) -> Seq<char> {
    dec(e.index as nat) + seq!['\n'] + srt_time_line(e) + seq!['\n'] + e.primary + match e.secondary {
        Some(s) => seq!['\n'] + s,
        None => Seq::empty(),
    }
}

/// Every line break is followed by a character that is not a line break.
pub open spec fn no_blank_line(s: Seq<char>) -> bool {
    forall|i: int|
        0 <= i < s.len() && #[trigger] s[i] == '\n' ==> i + 1 < s.len() && s[i + 1] != '\n'
}

proof fn lemma_entry_block(e: EntryView)
    ensures
        srt_entry(e) == srt_block(e) + seq!['\n', '\n'],
{
    match e.secondary {
        Some(s) => {
            assert(srt_entry(e) =~= srt_block(e) + seq!['\n', '\n']);
        },
        None => {
            assert(srt_entry(e) =~= srt_block(e) + seq!['\n', '\n']);
        },
    }
}

pub proof fn lemma_no_blank_extend(x: Seq<char>, y: Seq<char>)
    requires
        no_blank_line(x),
        y.len() > 0,
        lacks(y, '\n'),
    ensures
        no_blank_line(x + seq!['\n'] + y),
{
    let s = x + seq!['\n'] + y;
    assert forall|i: int| 0 <= i < s.len() && #[trigger] s[i] == '\n' implies i + 1 < s.len()
        && s[i + 1] != '\n' by {
        if i < x.len() {
            assert(s[i] == x[i]);
            if i + 1 < x.len() {
                assert(s[i + 1] == x[i + 1]);
            } else {
                assert(false);
            }
        } else if i == x.len() {
            assert(s[i + 1] == y[0]);
        } else {
            assert(s[i] == y[i - x.len() - 1]);
        }
    }
}

pub proof fn lemma_no_blank_line_of(y: Seq<char>)
    requires
        lacks(y, '\n'),
    ensures
        no_blank_line(y),
{
}

/// Shape facts about an SRT timecode.
proof fn lemma_srt_time_shape(tc: Timecode)
    ensures
        srt_time(tc).len() > 0,
        !is_ws(srt_time(tc)[0]),
        !is_ws(srt_time(tc).last()),
        lacks(srt_time(tc), '\n'),
        lacks(srt_time(tc), '-'),
        lacks(srt_time(tc), ' '),
        lacks(srt_time(tc), '\r'),
{
    let a = dec_pad(tc.hours as nat, 2);
    let b = dec_pad(tc.minutes as nat, 2);
    let c = dec_pad(tc.seconds as nat, 2);
    let d = dec_pad(tc.milliseconds as nat, 3);
    lemma_parse_dec_pad(tc.hours as nat, 2, u32::MAX as nat);
    lemma_parse_dec_pad(tc.minutes as nat, 2, u32::MAX as nat);
    lemma_parse_dec_pad(tc.seconds as nat, 2, u32::MAX as nat);
    lemma_parse_dec_pad(tc.milliseconds as nat, 3, u32::MAX as nat);
    lemma_digit_chars(a);
    lemma_digit_chars(b);
    lemma_digit_chars(c);
    lemma_digit_chars(d);
    let t = srt_time(tc);
    assert(t[0] == a[0]);
    assert(t.last() == d.last());
    assert forall|i: int| 0 <= i < t.len() implies t[i] != '\n' && t[i] != '-' && t[i] != ' '
        && t[i] != '\r' by {
        if i < a.len() {
            assert(t[i] == a[i]);
        } else if i == a.len() {
        } else if i < a.len() + 1 + b.len() {
            assert(t[i] == b[i - a.len() - 1]);
        } else if i == a.len() + 1 + b.len() {
        } else if i < a.len() + 2 + b.len() + c.len() {
            assert(t[i] == c[i - a.len() - 2 - b.len()]);
        } else if i == a.len() + 2 + b.len() + c.len() {
        } else {
            assert(t[i] == d[i - a.len() - 3 - b.len() - c.len()]);
        }
    }
}

/// Trimming whitespace padding off a text that begins and ends with
/// non-whitespace gives back that text.
proof fn lemma_trim_padded(pre: Seq<char>, t: Seq<char>, post: Seq<char>)
    requires
        t.len() > 0,
        !is_ws(t[0]),
        !is_ws(t.last()),
        forall|i: int| 0 <= i < pre.len() ==> is_ws(#[trigger] pre[i]),
        forall|i: int| 0 <= i < post.len() ==> is_ws(#[trigger] post[i]),
    ensures
        trim(pre + t + post) == t,
{
    let x = pre + t + post;
    assert forall|j: int| 0 <= j < pre.len() implies is_ws(#[trigger] x[j]) by {
        assert(x[j] == pre[j]);
    }
    lemma_trim_start_skip(x, pre.len() as int);
    assert(x.skip(pre.len() as int) =~= t + post);
    assert((t + post)[0] == t[0]);
    assert(trim_start(t + post) == t + post);
    assert forall|j: int| t.len() <= j < (t + post).len() implies is_ws(#[trigger] (t + post)[j]) by {
        assert((t + post)[j] == post[j - t.len()]);
    }
    lemma_trim_end_take(t + post, t.len() as int);
    assert((t + post).take(t.len() as int) =~= t);
    assert(trim_end(t) == t);
    assert(trim(x) == t);
}

/// SRT timecode round trip: the `HH:MM:SS,mmm` text of any timecode, with
/// any whitespace before and after it, parses back to that very timecode.
pub proof fn lemma_srt_time_roundtrip(tc: Timecode, pre: Seq<char>, post: Seq<char>)
    requires
        forall|i: int| 0 <= i < pre.len() ==> is_ws(#[trigger] pre[i]),
        forall|i: int| 0 <= i < post.len() ==> is_ws(#[trigger] post[i]),
    ensures
        parse_srt_time(pre + srt_time(tc) + post) == Some(tc),
{
    let a = dec_pad(tc.hours as nat, 2);
    let b = dec_pad(tc.minutes as nat, 2);
    let c = dec_pad(tc.seconds as nat, 2);
    let d = dec_pad(tc.milliseconds as nat, 3);
    let t = srt_time(tc);
    lemma_srt_time_shape(tc);
    lemma_parse_dec_pad(tc.hours as nat, 2, u32::MAX as nat);
    lemma_parse_dec_pad(tc.minutes as nat, 2, u32::MAX as nat);
    lemma_parse_dec_pad(tc.seconds as nat, 2, u32::MAX as nat);
    lemma_parse_dec_pad(tc.milliseconds as nat, 3, u32::MAX as nat);
    lemma_digit_chars(a);
    lemma_digit_chars(b);
    lemma_digit_chars(c);
    lemma_digit_chars(d);
    lemma_trim_padded(pre, t, post);
    let cd = c + seq![','] + d;
    assert(lacks(cd, ':')) by {
        assert forall|i: int| 0 <= i < cd.len() implies cd[i] != ':' by {
            if i < c.len() {
                assert(cd[i] == c[i]);
            } else if i > c.len() {
                assert(cd[i] == d[i - c.len() - 1]);
            }
        }
    }
    assert(t =~= a + seq![':'] + (b + seq![':'] + cd));
    lemma_split_char_concat(a, ':', b + seq![':'] + cd);
    lemma_split_char_concat(b, ':', cd);
    lemma_split_char_none(cd, ':');
    assert(split(t, seq![':']) =~= seq![a, b, cd]);
    lemma_split_char_concat(c, ',', d);
    lemma_split_char_none(d, ',');
    assert(split(cd, seq![',']) =~= seq![c, d]);
}

/// Splitting `a + "-->" + b` where `a` holds no `-` and `b` holds no `-`.
proof fn lemma_split_arrow(a: Seq<char>, b: Seq<char>)
    requires
        lacks(a, '-'),
        lacks(b, '-'),
    ensures
        split(a + seq!['-', '-', '>'] + b, seq!['-', '-', '>']) == seq![a, b],
{
    let p = seq!['-', '-', '>'];
    let s = a + p + b;
    assert forall|i: int| 0 <= i < a.len() implies s[i] != p[0] by {
        assert(s[i] == a[i]);
    }
    lemma_no_match_first_char(s, p, a.len() as int);
    lemma_split_concat(a, p, b);
    lemma_no_match_first_char(b, p, b.len() as int);
    lemma_split_none(b, p);
}

/// Joining behind a first piece.
proof fn lemma_join_cons(x: Seq<char>, r: Seq<Seq<char>>, sep: Seq<char>)
    requires
        r.len() > 0,
    ensures
        join(seq![x] + r, sep) == x + sep + join(r, sep),
    decreases r.len(),
{
    let t = seq![x] + r;
    if r.len() == 1 {
        assert(t.drop_last() =~= seq![x]);
        assert(t.last() == r[0]);
        assert(join(seq![x], sep) == x);
        assert(join(r, sep) == r[0]);
        assert(join(t, sep) == join(t.drop_last(), sep) + sep + t.last());
    } else {
        lemma_join_cons(x, r.drop_last(), sep);
        assert(t.drop_last() =~= seq![x] + r.drop_last());
        assert(t.last() == r.last());
        assert(join(t, sep) =~= x + sep + join(r, sep));
    }
}

/// Joining after prefixing the first piece.
proof fn lemma_join_first(r: Seq<Seq<char>>, a: Seq<char>, sep: Seq<char>)
    requires
        r.len() > 0,
    ensures
        join(r.update(0, a + r[0]), sep) == a + join(r, sep),
    decreases r.len(),
{
    let t = r.update(0, a + r[0]);
    if r.len() == 1 {
    } else {
        lemma_join_first(r.drop_last(), a, sep);
        assert(t.drop_last() =~= r.drop_last().update(0, a + r.drop_last()[0]));
        assert(t.last() == r.last());
        assert(join(t, sep) =~= a + join(r, sep));
    }
}

/// The lines of a text with no carriage return before a break: joining them
/// gives the text back, no piece but the last ends with a carriage return,
/// and the last piece is not empty when the text does not end in a break.
proof fn lemma_split_lines(s: Seq<char>)
    requires
        cr_free_breaks(s),
    ensures
        split(s, seq!['\n']).len() > 0,
        join(split(s, seq!['\n']), seq!['\n']) == s,
        forall|k: int|
            0 <= k < split(s, seq!['\n']).len() - 1 ==> strip_cr(#[trigger] split(s, seq!['\n'])[k])
                == split(s, seq!['\n'])[k],
        s.len() > 0 && s.last() != '\n' ==> split(s, seq!['\n']).last().len() > 0,
    decreases s.len(),
{
    let nl = seq!['\n'];
    let ps = split(s, nl);
    if starts_with(s, nl) {
        let t = s.skip(1);
        assert forall|i: int| 0 < i < t.len() && #[trigger] t[i] == '\n' implies t[i - 1] != '\r' by {
            assert(t[i] == s[i + 1] && t[i - 1] == s[i]);
        }
        lemma_split_lines(t);
        let r = split(t, nl);
        assert(ps == seq![Seq::<char>::empty()] + r);
        lemma_join_cons(Seq::<char>::empty(), r, nl);
        assert(s.take(1)[0] == s[0]);
        assert(s[0] == '\n');
        assert(Seq::<char>::empty() + nl + t =~= s);
        assert forall|k: int| 0 <= k < ps.len() - 1 implies strip_cr(#[trigger] ps[k]) == ps[k] by {
            if k > 0 {
                assert(ps[k] == r[k - 1]);
            }
        }
        if s.len() > 0 && s.last() != '\n' {
            assert(t.len() > 0 && t.last() == s.last());
            assert(ps.last() == r.last());
        }
    } else if s.len() == 0 {
        assert(ps == seq![Seq::<char>::empty()]);
    } else {
        let t = s.drop_first();
        assert forall|i: int| 0 < i < t.len() && #[trigger] t[i] == '\n' implies t[i - 1] != '\r' by {
            assert(t[i] == s[i + 1] && t[i - 1] == s[i]);
        }
        lemma_split_lines(t);
        let r = split(t, nl);
        assert(ps == r.update(0, seq![s[0]] + r[0]));
        lemma_join_first(r, seq![s[0]], nl);
        assert(seq![s[0]] + t =~= s);
        assert forall|k: int| 0 <= k < ps.len() - 1 implies strip_cr(#[trigger] ps[k]) == ps[k] by {
            if k > 0 {
                assert(ps[k] == r[k]);
            } else {
                if r[0].len() == 0 {
                    assert(starts_with(t, nl)) by {
                        if !starts_with(t, nl) {
                            if t.len() > 0 {
                                let r2 = split(t.drop_first(), nl);
                                crate::text::lemma_split_nonempty(t.drop_first(), nl);
                                assert(r == r2.update(0, seq![t[0]] + r2[0]));
                            }
                        }
                    }
                    assert(t.take(1)[0] == t[0]);
                    assert(s[1] == '\n');
                    assert(s[0] != '\r');
                    assert(ps[0] =~= seq![s[0]]);
                } else {
                    assert(ps[0].last() == r[0].last());
                }
            }
        }
        if s.last() != '\n' {
            if t.len() == 0 {
                assert(r == seq![Seq::<char>::empty()]);
            } else {
                assert(t.last() == s.last());
            }
        }
    }
}

/// Adding a line break and a text with no blank line that does not begin
/// with a break keeps the text free of blank lines.
pub proof fn lemma_no_blank_join(x: Seq<char>, y: Seq<char>)
    requires
        no_blank_line(x),
        no_blank_line(y),
        y.len() > 0,
        y[0] != '\n',
    ensures
        no_blank_line(x + seq!['\n'] + y),
{
    let s = x + seq!['\n'] + y;
    assert forall|i: int| 0 <= i < s.len() && #[trigger] s[i] == '\n' implies i + 1 < s.len()
        && s[i + 1] != '\n' by {
        if i < x.len() {
            assert(s[i] == x[i]);
            if i + 1 < x.len() {
                assert(s[i + 1] == x[i + 1]);
            } else {
                assert(false);
            }
        } else if i == x.len() {
            assert(s[i + 1] == y[0]);
        } else {
            assert(s[i] == y[i - x.len() - 1]);
            assert(y[i - x.len() - 1] == '\n');
            assert(s[i + 1] == y[i - x.len()]);
        }
    }
}

/// The lines of a clean cue block.
pub open spec fn block_lines(e: EntryView) -> Seq<Seq<char>> {
    let base = seq![dec(e.index as nat), srt_time_line(e), e.primary];
    match e.secondary {
        Some(l3) => base + split(l3, seq!['\n']),
        None => base,
    }
}

proof fn lemma_time_line_shape(e: EntryView)
    ensures
        srt_time_line(e).len() > 0,
        lacks(srt_time_line(e), '\n'),
        lacks(srt_time_line(e), '\r'),
        !is_ws(srt_time_line(e).last()),
        !is_ws(srt_time_line(e)[0]),
{
    lemma_srt_time_shape(e.start);
    lemma_srt_time_shape(e.end);
    let l1 = srt_time_line(e);
    let ts = srt_time(e.start);
    let te = srt_time(e.end);
    let arrow = seq![' ', '-', '-', '>', ' '];
    assert forall|i: int| 0 <= i < l1.len() implies l1[i] != '\n' && l1[i] != '\r' by {
        if i < ts.len() {
            assert(l1[i] == ts[i]);
        } else if i < ts.len() + 5 {
            assert(l1[i] == arrow[i - ts.len()]);
        } else {
            assert(l1[i] == te[i - ts.len() - 5]);
        }
    }
    assert(l1.last() == te.last());
    assert(l1[0] == ts[0]);
}

#[verifier::rlimit(40)]
proof fn lemma_block_lines(e: EntryView)
    requires
        srt_clean_entry(e),
    ensures
        srt_block(e).len() > 0,
        no_blank_line(srt_block(e)),
        srt_block(e).last() != '\n',
        trim(srt_block(e)) == srt_block(e),
        lines(srt_block(e)) == block_lines(e),
{
    let l0 = dec(e.index as nat);
    let l1 = srt_time_line(e);
    let l2 = e.primary;
    let blk = srt_block(e);
    lemma_dec_digits(e.index as nat);
    lemma_digit_chars(l0);
    lemma_time_line_shape(e);
    let head = l0 + seq!['\n'] + l1 + seq!['\n'] + l2;
    lemma_no_blank_line_of(l0);
    lemma_no_blank_extend(l0, l1);
    lemma_no_blank_extend(l0 + seq!['\n'] + l1, l2);
    lemma_split_char_concat(l0, '\n', l1 + seq!['\n'] + l2);
    assert(l0 + seq!['\n'] + (l1 + seq!['\n'] + l2) =~= head);
    assert(blk[0] == l0[0]);
    assert(strip_cr(l0) == l0);
    assert(strip_cr(l1) == l1);
    match e.secondary {
        Some(l3) => {
            assert(blk =~= head + seq!['\n'] + l3);
            lemma_no_blank_join(head, l3);
            lemma_split_lines(l3);
            let p3 = split(l3, seq!['\n']);
            let t2 = l2 + seq!['\n'] + l3;
            let t1 = l1 + seq!['\n'] + t2;
            lemma_split_char_concat(l0, '\n', t1);
            lemma_split_char_concat(l1, '\n', t2);
            lemma_split_char_concat(l2, '\n', l3);
            assert(l0 + seq!['\n'] + t1 =~= blk);
            let ps = split(blk, seq!['\n']);
            assert(ps =~= seq![l0, l1, l2] + p3);
            assert(strip_cr(l2) == l2);
            assert(l3.last() != '\n');
            assert(ps.last() == p3.last());
            assert(ps.drop_last().map_values(|l: Seq<char>| strip_cr(l)) =~= seq![l0, l1, l2]
                + p3.drop_last()) by {
                assert forall|k: int| 0 <= k < p3.len() - 1 implies strip_cr(#[trigger] p3[k]) == p3[k] by {}
            }
            assert(lines(blk) =~= seq![l0, l1, l2] + p3);
            assert(blk.last() == l3.last());
            lemma_trim_noop(blk);
        },
        None => {
            assert(blk =~= head);
            lemma_split_char_concat(l1, '\n', l2);
            lemma_split_char_none(l2, '\n');
            assert(split(blk, seq!['\n']) =~= seq![l0, l1, l2]);
            assert(lines(blk) =~= seq![l0, l1, l2]);
            assert(blk.last() == l2.last());
            lemma_trim_noop(blk);
        },
    }
}

proof fn lemma_time_line_parts(e: EntryView)
    ensures
        split(srt_time_line(e), seq!['-', '-', '>']).len() == 2,
        parse_srt_time(split(srt_time_line(e), seq!['-', '-', '>'])[0]) == Some(e.start),
        parse_srt_time(split(srt_time_line(e), seq!['-', '-', '>'])[1]) == Some(e.end),
{
    let ts = srt_time(e.start);
    let te = srt_time(e.end);
    lemma_srt_time_shape(e.start);
    lemma_srt_time_shape(e.end);
    assert(srt_time_line(e) =~= (ts + seq![' ']) + seq!['-', '-', '>'] + (seq![' '] + te));
    assert(lacks(ts + seq![' '], '-')) by {
        assert forall|i: int| 0 <= i < ts.len() + 1 implies (ts + seq![' '])[i] != '-' by {
            if i < ts.len() {
                assert((ts + seq![' '])[i] == ts[i]);
            }
        }
    }
    assert(lacks(seq![' '] + te, '-')) by {
        assert forall|i: int| 0 <= i < te.len() + 1 implies (seq![' '] + te)[i] != '-' by {
            if i > 0 {
                assert((seq![' '] + te)[i] == te[i - 1]);
            }
        }
    }
    lemma_split_arrow(ts + seq![' '], seq![' '] + te);
    assert(is_ws(seq![' '][0]));
    lemma_srt_time_roundtrip(e.start, Seq::empty(), seq![' ']);
    lemma_srt_time_roundtrip(e.end, seq![' '], Seq::empty());
    assert(Seq::<char>::empty() + ts + seq![' '] =~= ts + seq![' ']);
    assert(seq![' '] + te + Seq::<char>::empty() =~= seq![' '] + te);
}

/// One clean cue block parses back to its entry.
proof fn lemma_parse_clean_block(e: EntryView, first_line: int)
    requires
        srt_clean_entry(e),
    ensures
        parse_block(srt_block(e), first_line) == BlockOutcome::Entry(e),
        srt_block(e).len() > 0,
        no_blank_line(srt_block(e)),
        srt_block(e).last() != '\n',
{
    lemma_block_lines(e);
    lemma_time_line_parts(e);
    let l0 = dec(e.index as nat);
    lemma_dec_digits(e.index as nat);
    lemma_digit_chars(l0);
    lemma_trim_noop(l0);
    lemma_trim_noop(e.primary);
    lemma_parse_digits(l0, usize::MAX as nat);
    let ls = lines(srt_block(e));
    assert(ls[0] == l0);
    assert(ls[1] == srt_time_line(e));
    assert(ls[2] == e.primary);
    match e.secondary {
        Some(l3) => {
            lemma_split_lines(l3);
            assert(ls.skip(3) =~= split(l3, seq!['\n']));
            lemma_trim_noop(l3);
        },
        None => {},
    }
}

/// The document of `es` begins with the cue of its first entry.
proof fn lemma_document_front(es: Seq<EntryView>)
    requires
        es.len() > 0,
    ensures
        srt_document(es) == srt_entry(es[0]) + srt_document(es.drop_first()),
    decreases es.len(),
{
    if es.len() == 1 {
        assert(es.drop_last() =~= Seq::<EntryView>::empty());
        assert(es.drop_first() =~= Seq::<EntryView>::empty());
        assert(srt_document(es.drop_last()) == Seq::<char>::empty());
        assert(srt_document(es.drop_first()) == Seq::<char>::empty());
        assert(es.last() == es[0]);
        assert(srt_document(es) =~= srt_entry(es[0]) + srt_document(es.drop_first()));
    } else {
        lemma_document_front(es.drop_last());
        assert(es.drop_last().drop_first() =~= es.drop_first().drop_last());
        assert(es.drop_first().last() == es.last());
        assert(srt_document(es) =~= srt_entry(es[0]) + srt_document(es.drop_first()));
    }
}

/// The blocks of a clean document are its cues followed by an empty block.
proof fn lemma_document_blocks(es: Seq<EntryView>)
    requires
        forall|i: int| 0 <= i < es.len() ==> srt_clean_entry(#[trigger] es[i]),
    ensures
        split(srt_document(es), seq!['\n', '\n']) == es.map_values(|e: EntryView| srt_block(e)).push(
            Seq::<char>::empty(),
        ),
    decreases es.len(),
{
    let p = seq!['\n', '\n'];
    if es.len() == 0 {
        lemma_split_none(Seq::<char>::empty(), p);
        assert(es.map_values(|e: EntryView| srt_block(e)).push(Seq::<char>::empty()) =~= seq![
            Seq::<char>::empty(),
        ]);
    } else {
        let rest = es.drop_first();
        assert forall|i: int| 0 <= i < rest.len() implies srt_clean_entry(#[trigger] rest[i]) by {
            assert(rest[i] == es[i + 1]);
        }
        lemma_document_blocks(rest);
        lemma_document_front(es);
        lemma_entry_block(es[0]);
        lemma_parse_clean_block(es[0], 0);
        let blk = srt_block(es[0]);
        let r = srt_document(rest);
        let s = blk + p + r;
        assert(srt_document(es) =~= s);
        assert forall|i: int| 0 <= i < blk.len() implies !#[trigger] starts_with(s.skip(i), p) by {
            if starts_with(s.skip(i), p) {
                assert(s.skip(i).take(2)[0] == s[i]);
                assert(s.skip(i).take(2)[1] == s[i + 1]);
                assert(s[i] == blk[i]);
                assert(blk[i] == '\n');
                assert(i + 1 < blk.len());
                assert(s[i + 1] == blk[i + 1]);
            }
        }
        lemma_split_concat(blk, p, r);
        assert(es.map_values(|e: EntryView| srt_block(e)).push(Seq::<char>::empty()) =~= seq![blk]
            + rest.map_values(|e: EntryView| srt_block(e)).push(Seq::<char>::empty()));
    }
}

/// Parsing the first `k` blocks of a clean document gives its first `k`
/// entries.
proof fn lemma_parse_prefix(es: Seq<EntryView>, k: int)
    requires
        forall|i: int| 0 <= i < es.len() ==> srt_clean_entry(#[trigger] es[i]),
        0 <= k <= es.len(),
    ensures
        parse_blocks(es.map_values(|e: EntryView| srt_block(e)).push(Seq::<char>::empty()), k) == Ok::<
            Seq<EntryView>,
            (int, Seq<char>),
        >(es.take(k)),
    decreases k,
{
    let bs = es.map_values(|e: EntryView| srt_block(e)).push(Seq::<char>::empty());
    if k == 0 {
        assert(es.take(0) =~= Seq::<EntryView>::empty());
    } else {
        lemma_parse_prefix(es, k - 1);
        assert(bs[k - 1] == srt_block(es[k - 1]));
        lemma_parse_clean_block(es[k - 1], block_first_line(bs, k - 1));
        assert(es.take(k) =~= es.take(k - 1).push(es[k - 1]));
    }
}

/// SRT round trip: parsing what the writer produced for clean entries gives
/// back exactly those entries, secondary texts of several lines included.
pub proof fn lemma_srt_write_parse_roundtrip(es: Seq<EntryView>)
    requires
        forall|i: int| 0 <= i < es.len() ==> srt_clean_entry(#[trigger] es[i]),
    ensures
        parse_srt_document(srt_document(es)) == Ok::<Seq<EntryView>, (int, Seq<char>)>(es),
{
    lemma_document_blocks(es);
    let bs = es.map_values(|e: EntryView| srt_block(e)).push(Seq::<char>::empty());
    lemma_parse_prefix(es, es.len() as int);
    assert(es.take(es.len() as int) =~= es);
    assert(bs[es.len() as int] == Seq::<char>::empty());
    assert(trim(Seq::<char>::empty()) =~= Seq::<char>::empty());
    assert(parse_block(Seq::<char>::empty(), block_first_line(bs, es.len() as int))
        == BlockOutcome::Skip);
}

} // verus!
