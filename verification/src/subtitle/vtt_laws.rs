//! What the WebVTT writer guarantees of its cues: every cue ends with a
//! blank line, and a cue of clean texts holds no other, so a document splits
//! at its blank lines into exactly one block per entry.

use crate::subtitle::srt_laws::{
    lemma_no_blank_extend, lemma_no_blank_join, lemma_no_blank_line_of, no_blank_line,
    srt_clean_entry,
};
use crate::subtitle::types::{vtt_time, EntryView, Timecode};
use crate::subtitle::vtt::{vtt_cues, vtt_entry};
use crate::text::{
    dec, dec_pad, ends_with, lacks, lemma_dec_digits, lemma_digit_chars, lemma_parse_dec_pad,
    lemma_split_concat, lemma_split_none, split, starts_with,
};
use vstd::prelude::*;

verus! {

/// The text of a cue without its closing blank line.
pub open spec fn vtt_block(e: EntryView) -> Seq<char> {
    vtt_entry(e).take(vtt_entry(e).len() - 2)
}

proof fn lemma_lacks_concat(a: Seq<char>, b: Seq<char>, c: char)
    requires
        lacks(a, c),
        lacks(b, c),
    ensures
        lacks(a + b, c),
{
    assert forall|i: int| 0 <= i < (a + b).len() implies (a + b)[i] != c by {
        if i < a.len() {
            assert((a + b)[i] == a[i]);
        } else {
            assert((a + b)[i] == b[i - a.len()]);
        }
    }
}

proof fn lemma_lacks_lit(s: Seq<char>)
    requires
        forall|i: int| 0 <= i < s.len() ==> #[trigger] s[i] != '\n',
    ensures
        lacks(s, '\n'),
{
}

/// A WebVTT time holds no line break.
proof fn lemma_vtt_time_one_line(tc: Timecode)
    ensures
        vtt_time(tc).len() > 0,
        lacks(vtt_time(tc), '\n'),
{
    let a = dec_pad(tc.hours as nat, 2);
    let b = dec_pad(tc.minutes as nat, 2);
    let c = dec_pad(tc.seconds as nat, 2);
    let d = dec_pad(tc.milliseconds as nat, 3);
    lemma_parse_dec_pad(tc.hours as nat, 2, u32::MAX as nat);
    lemma_parse_dec_pad(tc.minutes as nat, 2, u32::MAX as nat);
    lemma_parse_dec_pad(tc.seconds as nat, 2, u32::MAX as nat);
    lemma_parse_dec_pad(tc.milliseconds as nat, 3, u32::MAX as nat);
    lemma_digit_chars(a);
    lemma_digit_chars(b);
    lemma_digit_chars(c);
    lemma_digit_chars(d);
    lemma_lacks_concat(a, seq![':'], '\n');
    lemma_lacks_concat(a + seq![':'], b, '\n');
    lemma_lacks_concat(a + seq![':'] + b, seq![':'], '\n');
    lemma_lacks_concat(a + seq![':'] + b + seq![':'], c, '\n');
    lemma_lacks_concat(a + seq![':'] + b + seq![':'] + c, seq!['.'], '\n');
    lemma_lacks_concat(a + seq![':'] + b + seq![':'] + c + seq!['.'], d, '\n');
}

/// Every cue ends with a blank line, whatever its texts.
pub proof fn lemma_vtt_cue_ends_with_blank_line(e: EntryView)
    ensures
        ends_with(vtt_entry(e), seq!['\n', '\n']),
        vtt_entry(e) == vtt_block(e) + seq!['\n', '\n'],
{
    let v = vtt_entry(e);
    let tail = match e.secondary {
        Some(s) => s + seq!['\n'],
        None => Seq::<char>::empty(),
    };
    let head = "cue-"@ + dec(e.index as nat) + seq!['\n'] + vtt_time(e.start) + " --> "@ + vtt_time(e.end)
        + seq!['\n'] + e.primary;
    assert(v =~= head + seq!['\n'] + tail + seq!['\n']);
    assert(v.len() >= 2);
    assert(v[v.len() - 1] == '\n');
    match e.secondary {
        Some(s) => {
            assert(v[v.len() - 2] == (head + seq!['\n'] + tail)[v.len() - 2]);
            assert(v[v.len() - 2] == '\n');
        },
        None => {
            assert(v[v.len() - 2] == '\n');
        },
    }
    assert(v.skip(v.len() - 2) =~= seq!['\n', '\n']);
    assert(v =~= vtt_block(e) + seq!['\n', '\n']);
}

/// A cue of clean texts holds no blank line before its closing one, and its
/// text does not end in a line break.
pub proof fn lemma_vtt_clean_cue(e: EntryView)
    requires
        srt_clean_entry(e),
    ensures
        vtt_block(e).len() > 0,
        no_blank_line(vtt_block(e)),
        vtt_block(e).last() != '\n',
{
    lemma_vtt_cue_ends_with_blank_line(e);
    reveal_strlit("cue-");
    reveal_strlit(" --> ");
    let l0 = "cue-"@ + dec(e.index as nat);
    let l1 = vtt_time(e.start) + " --> "@ + vtt_time(e.end);
    let l2 = e.primary;
    lemma_dec_digits(e.index as nat);
    lemma_digit_chars(dec(e.index as nat));
    lemma_lacks_lit("cue-"@);
    lemma_lacks_concat("cue-"@, dec(e.index as nat), '\n');
    lemma_vtt_time_one_line(e.start);
    lemma_vtt_time_one_line(e.end);
    lemma_lacks_lit(" --> "@);
    lemma_lacks_concat(vtt_time(e.start), " --> "@, '\n');
    lemma_lacks_concat(vtt_time(e.start) + " --> "@, vtt_time(e.end), '\n');
    lemma_no_blank_line_of(l0);
    lemma_no_blank_extend(l0, l1);
    lemma_no_blank_extend(l0 + seq!['\n'] + l1, l2);
    let head = l0 + seq!['\n'] + l1 + seq!['\n'] + l2;
    let b = vtt_block(e);
    match e.secondary {
        Some(s) => {
            assert(vtt_entry(e) =~= (head + seq!['\n'] + s) + seq!['\n', '\n']);
            assert(b =~= head + seq!['\n'] + s);
            lemma_no_blank_join(head, s);
            assert(b.last() == s.last());
        },
        None => {
            assert(vtt_entry(e) =~= head + seq!['\n', '\n']);
            assert(b =~= head);
            assert(b.last() == l2.last());
        },
    }
}

/// The cues of `es` begin with the cue of its first entry.
proof fn lemma_cues_front(es: Seq<EntryView>)
    requires
        es.len() > 0,
    ensures
        vtt_cues(es) == vtt_entry(es[0]) + vtt_cues(es.drop_first()),
    decreases es.len(),
{
    if es.len() == 1 {
        assert(es.drop_last() =~= Seq::<EntryView>::empty());
        assert(es.drop_first() =~= Seq::<EntryView>::empty());
        assert(vtt_cues(es.drop_last()) == Seq::<char>::empty());
        assert(vtt_cues(es.drop_first()) == Seq::<char>::empty());
        assert(vtt_cues(es) =~= vtt_entry(es[0]) + vtt_cues(es.drop_first()));
    } else {
        lemma_cues_front(es.drop_last());
        assert(es.drop_last().drop_first() =~= es.drop_first().drop_last());
        assert(es.drop_first().last() == es.last());
        assert(vtt_cues(es) =~= vtt_entry(es[0]) + vtt_cues(es.drop_first()));
    }
}

/// The cues of clean entries split at their blank lines into exactly one
/// block per entry, in order, followed by nothing.
pub proof fn lemma_vtt_cues_blocks(es: Seq<EntryView>)
    requires
        forall|i: int| 0 <= i < es.len() ==> srt_clean_entry(#[trigger] es[i]),
    ensures
        split(vtt_cues(es), seq!['\n', '\n']) == es.map_values(|e: EntryView| vtt_block(e)).push(
            Seq::<char>::empty(),
        ),
    decreases es.len(),
{
    let p = seq!['\n', '\n'];
    if es.len() == 0 {
        lemma_split_none(Seq::<char>::empty(), p);
        assert(es.map_values(|e: EntryView| vtt_block(e)).push(Seq::<char>::empty()) =~= seq![
            Seq::<char>::empty(),
        ]);
    } else {
        let rest = es.drop_first();
        assert forall|i: int| 0 <= i < rest.len() implies srt_clean_entry(#[trigger] rest[i]) by {
            assert(rest[i] == es[i + 1]);
        }
        lemma_vtt_cues_blocks(rest);
        lemma_cues_front(es);
        lemma_vtt_cue_ends_with_blank_line(es[0]);
        lemma_vtt_clean_cue(es[0]);
        let blk = vtt_block(es[0]);
        let r = vtt_cues(rest);
        let s = blk + p + r;
        assert(vtt_cues(es) =~= s);
        assert forall|i: int| 0 <= i < blk.len() implies !#[trigger] starts_with(s.skip(i), p) by {
            if starts_with(s.skip(i), p) {
                assert(s.skip(i).take(2)[0] == s[i]);
                assert(s.skip(i).take(2)[1] == s[i + 1]);
                assert(s[i] == blk[i]);
                assert(blk[i] == '\n');
                assert(i + 1 < blk.len());
                assert(s[i + 1] == blk[i + 1]);
            }
        }
        lemma_split_concat(blk, p, r);
        assert(es.map_values(|e: EntryView| vtt_block(e)).push(Seq::<char>::empty()) =~= seq![blk]
            + rest.map_values(|e: EntryView| vtt_block(e)).push(Seq::<char>::empty()));
    }
}

} // verus!
