//! Character-level text utilities shared by the subtitle formats and the
//! translation helpers. Every operation is specified over `Seq<char>` views
//! with the semantics of the corresponding `str` operation.

use vstd::prelude::*;

verus! {

// ---------------------------------------------------------------------------
// Specifications
// ---------------------------------------------------------------------------

/// Unicode `White_Space` property, as used by `char::is_whitespace`.
pub open spec fn is_ws(c: char) -> bool {
    ||| ('\u{9}' <= c && c <= '\u{d}')
    ||| c == ' '
    ||| c == '\u{85}'
    ||| c == '\u{a0}'
    ||| c == '\u{1680}'
    ||| ('\u{2000}' <= c && c <= '\u{200a}')
    ||| c == '\u{2028}'
    ||| c == '\u{2029}'
    ||| c == '\u{202f}'
    ||| c == '\u{205f}'
    ||| c == '\u{3000}'
}

/// `str::trim_start`: drops leading whitespace.
pub open spec fn trim_start(s: Seq<char>) -> Seq<char>
    decreases s.len(),
{
    if s.len() > 0 && is_ws(s[0]) {
        trim_start(s.drop_first())
    } else {
        s
    }
}

/// `str::trim_end`: drops trailing whitespace.
pub open spec fn trim_end(s: Seq<char>) -> Seq<char>
    decreases s.len(),
{
    if s.len() > 0 && is_ws(s.last()) {
        trim_end(s.drop_last())
    } else {
        s
    }
}

/// `str::trim`: drops leading and trailing whitespace.
pub open spec fn trim(s: Seq<char>) -> Seq<char> {
    trim_end(trim_start(s))
}

/// `s` begins with `p`.
pub open spec fn starts_with(s: Seq<char>, p: Seq<char>) -> bool {
    p.len() <= s.len() && s.take(p.len() as int) == p
}

/// `s` ends with `p`.
pub open spec fn ends_with(s: Seq<char>, p: Seq<char>) -> bool {
    p.len() <= s.len() && s.skip(s.len() - p.len()) == p
}

/// `str::split` with a non-empty pattern: leftmost, non-overlapping matches.
pub open spec fn split(s: Seq<char>, p: Seq<char>) -> Seq<Seq<char>>
    decreases s.len(),
{
    if p.len() > 0 && starts_with(s, p) {
        seq![Seq::<char>::empty()] + split(s.skip(p.len() as int), p)
    } else if s.len() == 0 {
        seq![Seq::<char>::empty()]
    } else {
        let r = split(s.drop_first(), p);
        r.update(0, seq![s[0]] + r[0])
    }
}

/// Removes one trailing carriage return.
pub open spec fn strip_cr(s: Seq<char>) -> Seq<char> {
    if s.len() > 0 && s.last() == '\r' {
        s.drop_last()
    } else {
        s
    }
}

/// `str::lines`: split at `\n`, drop a `\r` that precedes a `\n`, and do not
/// yield an empty last line.
pub open spec fn lines(s: Seq<char>) -> Seq<Seq<char>> {
    let ps = split(s, seq!['\n']);
    let body = ps.drop_last().map_values(|l: Seq<char>| strip_cr(l));
    if ps.last().len() == 0 {
        body
    } else {
        body.push(ps.last())
    }
}

/// `[T]::join` for character sequences.
pub open spec fn join(parts: Seq<Seq<char>>, sep: Seq<char>) -> Seq<char>
    decreases parts.len(),
{
    if parts.len() == 0 {
        Seq::empty()
    } else if parts.len() == 1 {
        parts[0]
    } else {
        join(parts.drop_last(), sep) + sep + parts.last()
    }
}

/// ASCII decimal digit.
pub open spec fn is_digit(c: char) -> bool {
    '0' <= c && c <= '9'
}

pub open spec fn digit_value(c: char) -> nat {
    (c as int - '0' as int) as nat
}

pub open spec fn digit_char(d: nat) -> char {
    (d + '0' as int) as char
}

pub open spec fn all_digits(s: Seq<char>) -> bool {
    forall|i: int| 0 <= i < s.len() ==> #[trigger] is_digit(s[i])
}

/// Value of a string of decimal digits.
pub open spec fn digits_value(s: Seq<char>) -> nat
    decreases s.len(),
{
    if s.len() == 0 {
        0
    } else {
        digits_value(s.drop_last()) * 10 + digit_value(s.last())
    }
}

/// `<uN as FromStr>::from_str` for an unsigned type whose largest value is
/// `max`: an optional `+`, then at least one decimal digit, and no overflow.
pub open spec fn parse_unsigned(s: Seq<char>, max: nat) -> Option<nat> {
    let d = if s.len() > 0 && s[0] == '+' {
        s.drop_first()
    } else {
        s
    };
    if d.len() > 0 && all_digits(d) && digits_value(d) <= max {
        Some(digits_value(d))
    } else {
        None
    }
}

/// Decimal representation of a natural number (`{}`).
pub open spec fn dec(n: nat) -> Seq<char>
    decreases n,
{
    if n < 10 {
        seq![digit_char(n)]
    } else {
        dec(n / 10).push(digit_char(n % 10))
    }
}

/// Left padding with `'0'` up to `width` characters (`{:0width$}`).
pub open spec fn pad_zero(s: Seq<char>, width: nat) -> Seq<char> {
    if s.len() < width {
        Seq::new((width - s.len()) as nat, |i: int| '0') + s
    } else {
        s
    }
}

/// `{:0width$}` of a natural number.
pub open spec fn dec_pad(n: nat, width: nat) -> Seq<char> {
    pad_zero(dec(n), width)
}

// ---------------------------------------------------------------------------
// Lemmas
// ---------------------------------------------------------------------------

pub proof fn lemma_digits_value_bound(s: Seq<char>)
    requires
        all_digits(s),
    ensures
        digits_value(s) < pow10(s.len()),
    decreases s.len(),
{
    if s.len() > 0 {
        lemma_digits_value_bound(s.drop_last());
        assert(is_digit(s[s.len() - 1]));
    }
}

pub open spec fn pow10(n: nat) -> nat
    decreases n,
{
    if n == 0 {
        1
    } else {
        10 * pow10((n - 1) as nat)
    }
}

/// The decimal digits of `n` are digits and read back as `n`.
pub proof fn lemma_dec_digits(n: nat)
    ensures
        dec(n).len() > 0,
        all_digits(dec(n)),
        digits_value(dec(n)) == n,
    decreases n,
{
    if n < 10 {
        assert(digit_value(digit_char(n)) == n);
        assert(dec(n).drop_last() =~= Seq::<char>::empty());
        assert(digits_value(Seq::<char>::empty()) == 0);
    } else {
        lemma_dec_digits(n / 10);
        let d = dec(n / 10);
        assert(dec(n).drop_last() =~= d);
        assert(digit_value(digit_char(n % 10)) == n % 10);
        assert(dec(n).last() == digit_char(n % 10));
        assert((n / 10) * 10 + n % 10 == n);
        assert(digits_value(dec(n)) == digits_value(dec(n).drop_last()) * 10 + digit_value(
            dec(n).last(),
        ));
        assert forall|i: int| 0 <= i < dec(n).len() implies #[trigger] is_digit(dec(n)[i]) by {
            if i < d.len() {
                assert(dec(n)[i] == d[i]);
            }
        }
    }
}

pub proof fn lemma_pad_zero_digits(s: Seq<char>, width: nat)
    requires
        all_digits(s),
    ensures
        all_digits(pad_zero(s, width)),
        digits_value(pad_zero(s, width)) == digits_value(s),
        pad_zero(s, width).len() >= s.len(),
        pad_zero(s, width).len() >= width,
{
    if s.len() < width {
        let z = Seq::new((width - s.len()) as nat, |i: int| '0');
        lemma_zero_prefix_value(z, s);
        let t = z + s;
        assert forall|i: int| 0 <= i < t.len() implies #[trigger] is_digit(t[i]) by {
            if i < z.len() {
                assert(t[i] == '0');
            } else {
                assert(t[i] == s[i - z.len()]);
            }
        }
    }
}

/// Leading zeros do not change the value of a digit string.
pub proof fn lemma_zero_prefix_value(z: Seq<char>, s: Seq<char>)
    requires
        forall|i: int| 0 <= i < z.len() ==> z[i] == '0',
    ensures
        digits_value(z + s) == digits_value(s),
    decreases s.len(),
{
    if s.len() == 0 {
        assert(z + s =~= z);
        lemma_zeros_value(z);
    } else {
        lemma_zero_prefix_value(z, s.drop_last());
        assert((z + s).drop_last() =~= z + s.drop_last());
    }
}

pub proof fn lemma_zeros_value(z: Seq<char>)
    requires
        forall|i: int| 0 <= i < z.len() ==> z[i] == '0',
    ensures
        digits_value(z) == 0,
    decreases z.len(),
{
    if z.len() > 0 {
        lemma_zeros_value(z.drop_last());
    }
}

/// Trimming never yields leading or trailing whitespace and keeps a slice.
pub proof fn lemma_trim_start_skip(s: Seq<char>, i: int)
    requires
        0 <= i <= s.len(),
        forall|j: int| 0 <= j < i ==> is_ws(#[trigger] s[j]),
    ensures
        trim_start(s) == trim_start(s.skip(i)),
    decreases i,
{
    if i > 0 {
        assert(is_ws(s[0]));
        assert(s.drop_first().skip(i - 1) =~= s.skip(i));
        lemma_trim_start_skip(s.drop_first(), i - 1);
    } else {
        assert(s.skip(0) =~= s);
    }
}

pub proof fn lemma_trim_end_take(s: Seq<char>, i: int)
    requires
        0 <= i <= s.len(),
        forall|j: int| i <= j < s.len() ==> is_ws(#[trigger] s[j]),
    ensures
        trim_end(s) == trim_end(s.take(i)),
    decreases s.len() - i,
{
    if i < s.len() {
        assert(is_ws(s.last()));
        assert(s.drop_last().take(i) =~= s.take(i));
        lemma_trim_end_take(s.drop_last(), i);
    } else {
        assert(s.take(i) =~= s);
    }
}

/// A string that neither begins nor ends with whitespace is its own trim.
pub proof fn lemma_trim_noop(s: Seq<char>)
    requires
        s.len() == 0 || (!is_ws(s[0]) && !is_ws(s.last())),
    ensures
        trim(s) == s,
{
}

// ---------------------------------------------------------------------------
// Executable helpers
// ---------------------------------------------------------------------------

/// Copies the characters of a string slice into a vector.
pub fn str_chars(s: &str) -> (v: Vec<char>)
    ensures
        v@ == s@,
{
    let mut v: Vec<char> = Vec::new();
    for c in it: s.chars()
        invariant
            v@ == it.seq().take(it.index() as int),
    {
        v.push(c);
    }
    v
}

/// Builds a `String` from characters (`Iterator::collect`).
#[verifier::external_body]
pub(crate) fn chars_to_string(chars: &[char]) -> (s: String)
    ensures
        s@ == chars@,
{
    chars.iter().collect()
}

/// `char::is_whitespace`.
pub fn char_is_ws(c: char) -> (b: bool)
    ensures
        b == is_ws(c),
{
    ('\u{9}' <= c && c <= '\u{d}') || c == ' ' || c == '\u{85}' || c == '\u{a0}' || c
        == '\u{1680}' || ('\u{2000}' <= c && c <= '\u{200a}') || c == '\u{2028}' || c
        == '\u{2029}' || c == '\u{202f}' || c == '\u{205f}' || c == '\u{3000}'
}

/// Appends all characters of `src` to `dst`.
pub fn push_all(dst: &mut Vec<char>, src: &[char])
    ensures
        final(dst)@ == old(dst)@ + src@,
{
    let ghost d0 = dst@;
    let mut i: usize = 0;
    while i < src.len()
        invariant
            i <= src@.len(),
            dst@ == d0 + src@.take(i as int),
        decreases src.len() - i,
    {
        dst.push(src[i]);
        i = i + 1;
        assert(src@.take(i as int) =~= src@.take(i - 1).push(src@[i - 1]));
    }
    assert(src@.take(src@.len() as int) =~= src@);
}

/// Appends the characters of a string slice to `dst`.
pub fn push_str(dst: &mut Vec<char>, src: &str)
    ensures
        final(dst)@ == old(dst)@ + src@,
{
    let chars = str_chars(src);
    push_all(dst, chars.as_slice());
}

/// Appends the characters of a `String` to `dst`.
pub fn push_string(dst: &mut Vec<char>, s: &String)
    ensures
        final(dst)@ == old(dst)@ + s@,
{
    push_str(dst, s.as_str());
}

/// Character-wise equality of two vectors.
pub fn chars_eq(a: &[char], b: &[char]) -> (r: bool)
    ensures
        r == (a@ == b@),
{
    if a.len() != b.len() {
        return false;
    }
    let mut i: usize = 0;
    while i < a.len()
        invariant
            i <= a@.len() == b@.len(),
            a@.take(i as int) == b@.take(i as int),
        decreases a.len() - i,
    {
        if a[i] != b[i] {
            return false;
        }
        i = i + 1;
        proof {
            assert(a@.take(i as int) =~= a@.take(i - 1).push(a@[i - 1]));
            assert(b@.take(i as int) =~= b@.take(i - 1).push(b@[i - 1]));
        }
    }
    assert(a@ =~= a@.take(i as int));
    assert(b@ =~= b@.take(i as int));
    true
}

/// Equality of two string slices.
pub fn str_eq(a: &str, b: &str) -> (r: bool)
    ensures
        r == (a@ == b@),
{
    let x = str_chars(a);
    let y = str_chars(b);
    chars_eq(x.as_slice(), y.as_slice())
}

/// The character sequences of a list of strings.
pub open spec fn string_views(v: Seq<String>) -> Seq<Seq<char>> {
    v.map_values(|s: String| s@)
}

/// `str::starts_with`.
pub fn str_starts_with(s: &str, p: &str) -> (b: bool)
    ensures
        b == starts_with(s@, p@),
{
    let x = str_chars(s);
    let y = str_chars(p);
    let r = matches_at(x.as_slice(), 0, y.as_slice());
    assert(x@.skip(0) =~= x@);
    r
}

/// `str::ends_with`.
pub fn str_ends_with(s: &str, p: &str) -> (b: bool)
    ensures
        b == ends_with(s@, p@),
{
    let x = str_chars(s);
    let y = str_chars(p);
    if y.len() > x.len() {
        return false;
    }
    let r = matches_at(x.as_slice(), x.len() - y.len(), y.as_slice());
    proof {
        let t = x@.skip(x@.len() - y@.len());
        assert(t.len() == y@.len());
        assert(t.take(y@.len() as int) =~= t);
    }
    r
}

/// Sub-slice `s[lo..hi]` as a new vector.
pub fn slice_range(s: &[char], lo: usize, hi: usize) -> (r: Vec<char>)
    requires
        lo <= hi <= s@.len(),
    ensures
        r@ == s@.subrange(lo as int, hi as int),
{
    let mut r: Vec<char> = Vec::new();
    let mut i = lo;
    while i < hi
        invariant
            lo <= i <= hi <= s@.len(),
            r@ == s@.subrange(lo as int, i as int),
        decreases hi - i,
    {
        r.push(s[i]);
        i = i + 1;
        assert(s@.subrange(lo as int, i as int) =~= s@.subrange(lo as int, i - 1).push(
            s@[i - 1],
        ));
    }
    r
}

/// `str::trim` on characters.
pub fn trim_chars(s: &[char]) -> (r: Vec<char>)
    ensures
        r@ == trim(s@),
{
    let mut lo: usize = 0;
    while lo < s.len() && char_is_ws(s[lo])
        invariant
            lo <= s@.len(),
            forall|j: int| 0 <= j < lo ==> is_ws(#[trigger] s@[j]),
        decreases s.len() - lo,
    {
        lo = lo + 1;
    }
    proof {
        lemma_trim_start_skip(s@, lo as int);
        if (lo as int) < s@.len() {
            assert(s@.skip(lo as int)[0] == s@[lo as int]);
        }
    }
    let ghost t = s@.skip(lo as int);
    assert(trim_start(s@) == t);
    let mut hi: usize = s.len();
    while hi > lo && char_is_ws(s[hi - 1])
        invariant
            lo <= hi <= s@.len(),
            forall|j: int| hi <= j < s@.len() ==> is_ws(#[trigger] s@[j]),
        decreases hi,
    {
        hi = hi - 1;
    }
    proof {
        let k = (hi - lo) as int;
        assert forall|j: int| k <= j < t.len() implies is_ws(#[trigger] t[j]) by {
            assert(t[j] == s@[j + lo]);
        }
        lemma_trim_end_take(t, k);
        assert(t.take(k) =~= s@.subrange(lo as int, hi as int));
        if k > 0 {
            assert(t.take(k).last() == s@[hi - 1]);
        }
    }
    slice_range(s, lo, hi)
}

/// `s` begins with `p` at position `at`.
pub fn matches_at(s: &[char], at: usize, p: &[char]) -> (b: bool)
    requires
        at <= s@.len(),
    ensures
        b == starts_with(s@.skip(at as int), p@),
{
    let slen = s.len();
    if p.len() > slen - at {
        return false;
    }
    let mut k: usize = 0;
    while k < p.len()
        invariant
            slen == s@.len(),
            k <= p@.len(),
            at <= s@.len(),
            at + p@.len() <= s@.len(),
            forall|j: int| 0 <= j < k ==> s@[at + j] == p@[j],
        decreases p.len() - k,
    {
        assert(at + k < s@.len());
        if s[at + k] != p[k] {
            assert(s@.skip(at as int).take(p@.len() as int)[k as int] != p@[k as int]);
            return false;
        }
        k = k + 1;
    }
    assert(s@.skip(at as int).take(p@.len() as int) =~= p@);
    true
}

/// `str::split` with a non-empty pattern.
pub fn split_chars(s: &[char], p: &[char]) -> (r: Vec<Vec<char>>)
    requires
        p@.len() > 0,
    ensures
        r@.len() == split(s@, p@).len(),
        forall|i: int| 0 <= i < r@.len() ==> #[trigger] r@[i]@ == split(s@, p@)[i],
{
    let mut done: Vec<Vec<char>> = Vec::new();
    let mut cur: Vec<char> = Vec::new();
    let mut i: usize = 0;
    proof {
        assert(s@.skip(0) =~= s@);
        lemma_split_nonempty(s@, p@);
        assert(cur@ + split(s@, p@)[0] =~= split(s@, p@)[0]);
    }
    while i < s.len()
        invariant
            i <= s@.len(),
            p@.len() > 0,
            ({
                let rest = split(s@.skip(i as int), p@);
                let whole = split(s@, p@);
                &&& whole.len() == done@.len() + rest.len()
                &&& forall|j: int| 0 <= j < done@.len() ==> #[trigger] done@[j]@ == whole[j]
                &&& whole[done@.len() as int] == cur@ + rest[0]
                &&& forall|j: int|
                    done@.len() < j < whole.len() ==> #[trigger] whole[j] == rest[j
                        - done@.len()]
            }),
        decreases s.len() - i,
    {
        let ghost rest = split(s@.skip(i as int), p@);
        proof {
            lemma_split_nonempty(s@.skip(i as int), p@);
        }
        if matches_at(s, i, p) {
            let ghost rest2 = split(s@.skip(i + p@.len()), p@);
            assert(s@.skip(i as int).skip(p@.len() as int) =~= s@.skip(i + p@.len()));
            assert(rest == seq![Seq::<char>::empty()] + rest2);
            proof {
                lemma_split_nonempty(s@.skip(i + p@.len()), p@);
            }
            let piece = cur;
            done.push(piece);
            cur = Vec::new();
            i = i + p.len();
            assert(cur@ + rest2[0] =~= rest2[0]);
        } else {
            let c = s[i];
            let ghost cur0 = cur@;
            let ghost rest2 = split(s@.skip(i + 1), p@);
            assert(s@.skip(i as int).drop_first() =~= s@.skip(i + 1));
            assert(s@.skip(i as int).len() > 0);
            proof {
                lemma_split_nonempty(s@.skip(i + 1), p@);
            }
            assert(rest == rest2.update(0, seq![c] + rest2[0]));
            cur.push(c);
            i = i + 1;
            assert(cur@ + rest2[0] =~= cur0 + (seq![c] + rest2[0]));
        }
    }
    assert(s@.skip(i as int) =~= Seq::<char>::empty());
    assert(cur@ + Seq::<char>::empty() =~= cur@);
    done.push(cur);
    done
}

pub proof fn lemma_split_nonempty(s: Seq<char>, p: Seq<char>)
    requires
        p.len() > 0,
    ensures
        split(s, p).len() > 0,
    decreases s.len(),
{
    if starts_with(s, p) {
    } else if s.len() > 0 {
        lemma_split_nonempty(s.drop_first(), p);
    }
}

/// Removes one trailing carriage return.
pub fn strip_cr_chars(s: Vec<char>) -> (r: Vec<char>)
    ensures
        r@ == strip_cr(s@),
{
    let mut s = s;
    if s.len() > 0 && s[s.len() - 1] == '\r' {
        s.pop();
    }
    s
}

/// `str::lines` on characters.
pub fn lines_chars(s: &[char]) -> (r: Vec<Vec<char>>)
    ensures
        r@.len() == lines(s@).len(),
        forall|i: int| 0 <= i < r@.len() ==> #[trigger] r@[i]@ == lines(s@)[i],
{
    let nl = vec!['\n'];
    let mut ps = split_chars(s, nl.as_slice());
    proof {
        assert(nl@ =~= seq!['\n']);
        lemma_split_nonempty(s@, nl@);
    }
    let ghost sp = split(s@, seq!['\n']);
    let last = ps.pop().unwrap();
    let ghost body = sp.drop_last().map_values(|l: Seq<char>| strip_cr(l));
    let mut out: Vec<Vec<char>> = Vec::new();
    let n = ps.len();
    let mut i: usize = 0;
    while i < n
        invariant
            n == ps@.len(),
            n == sp.len() - 1,
            sp == split(s@, seq!['\n']),
            body == sp.drop_last().map_values(|l: Seq<char>| strip_cr(l)),
            out@.len() == i,
            i <= n,
            forall|j: int| 0 <= j < i ==> #[trigger] out@[j]@ == body[j],
            forall|j: int| 0 <= j < n ==> #[trigger] ps@[j]@ == sp[j],
        decreases n - i,
    {
        let piece = slice_range(ps[i].as_slice(), 0, ps[i].len());
        assert(piece@ =~= sp[i as int]);
        let line = strip_cr_chars(piece);
        out.push(line);
        i = i + 1;
    }
    if last.len() > 0 {
        out.push(last);
    }
    out
}

/// A digit string's prefix is never worth more than the whole.
pub proof fn lemma_digits_prefix_le(s: Seq<char>, i: int)
    requires
        all_digits(s),
        0 <= i <= s.len(),
    ensures
        digits_value(s.take(i)) <= digits_value(s),
    decreases s.len() - i,
{
    if i < s.len() {
        lemma_digits_prefix_le(s.drop_last(), if i < s.len() { i } else { 0 });
        assert(s.drop_last().take(i) =~= s.take(i));
        assert(all_digits(s.drop_last())) by {
            assert forall|j: int| 0 <= j < s.drop_last().len() implies #[trigger] is_digit(
                s.drop_last()[j],
            ) by {
                assert(s.drop_last()[j] == s[j]);
            }
        }
    } else {
        assert(s.take(i) =~= s);
    }
}

/// `<u64 as FromStr>::from_str` restricted to values up to `max`
/// (the parse of a narrower unsigned type).
pub fn parse_unsigned_chars(s: &[char], max: u64) -> (r: Option<u64>)
    ensures
        match parse_unsigned(s@, max as nat) {
            Some(v) => r == Some(v as u64),
            None => r is None,
        },
{
    let mut start: usize = 0;
    if s.len() > 0 && s[0] == '+' {
        start = 1;
    }
    let ghost d = if s@.len() > 0 && s@[0] == '+' {
        s@.drop_first()
    } else {
        s@
    };
    assert(d =~= s@.skip(start as int));
    if start >= s.len() {
        return None;
    }
    let mut v: u64 = 0;
    let mut i: usize = start;
    while i < s.len()
        invariant
            start <= i <= s@.len(),
            d == s@.skip(start as int),
            d == (if s@.len() > 0 && s@[0] == '+' {
                s@.drop_first()
            } else {
                s@
            }),
            all_digits(d.take(i - start)),
            digits_value(d.take(i - start)) == v as nat,
            v <= max,
        decreases s.len() - i,
    {
        let c = s[i];
        if !('0' <= c && c <= '9') {
            assert(d[i - start] == c);
            assert(!is_digit(d[i - start]));
            return None;
        }
        let dv = (c as u32 - '0' as u32) as u64;
        let ghost k = (i - start) as int;
        assert(d.take(k + 1).drop_last() =~= d.take(k));
        assert(d.take(k + 1).last() == c);
        assert(all_digits(d.take(k + 1))) by {
            assert forall|j: int| 0 <= j < k + 1 implies #[trigger] is_digit(d.take(k + 1)[j]) by {
                if j < k {
                    assert(d.take(k + 1)[j] == d.take(k)[j]);
                }
            }
        }
        if dv > max || v > (max - dv) / 10 {
            proof {
                assert(digits_value(d.take(k + 1)) == v * 10 + dv);
                assert(v * 10 + dv > max) by (nonlinear_arith)
                    requires
                        dv > max || v > (max - dv) / 10,
                ;
                if all_digits(d) {
                    lemma_digits_prefix_le(d, k + 1);
                }
            }
            return None;
        }
        proof {
            assert(v * 10 + dv <= max) by (nonlinear_arith)
                requires
                    v <= (max - dv) / 10,
                    dv <= 9,
                    v <= max,
            ;
        }
        v = v * 10 + dv;
        i = i + 1;
    }
    assert(d.take(d.len() as int) =~= d);
    Some(v)
}

/// Appends `dec(n)`.
pub fn push_dec(out: &mut Vec<char>, n: u64)
    ensures
        final(out)@ == old(out)@ + dec(n as nat),
    decreases n,
{
    if n >= 10 {
        push_dec(out, n / 10);
    }
    let c = (48u8 + (n % 10) as u8) as char;
    assert(c == digit_char((n % 10) as nat));
    out.push(c);
    proof {
        if n >= 10 {
            assert(dec(n as nat) == dec((n / 10) as nat).push(digit_char((n % 10) as nat)));
        }
    }
}

/// Appends `{:0width$}` of `n`.
pub fn push_dec_pad(out: &mut Vec<char>, n: u64, width: usize)
    ensures
        final(out)@ == old(out)@ + dec_pad(n as nat, width as nat),
{
    let mut digits: Vec<char> = Vec::new();
    push_dec(&mut digits, n);
    assert(digits@ =~= dec(n as nat));
    let ghost o0 = out@;
    if digits.len() < width {
        let pad = width - digits.len();
        let mut k: usize = 0;
        while k < pad
            invariant
                k <= pad,
                out@ == o0 + Seq::new(k as nat, |i: int| '0'),
            decreases pad - k,
        {
            out.push('0');
            k = k + 1;
            assert(o0 + Seq::new(k as nat, |i: int| '0') =~= (o0 + Seq::new(
                (k - 1) as nat,
                |i: int| '0',
            )).push('0'));
        }
    }
    let ghost o1 = out@;
    push_all(out, digits.as_slice());
    assert(out@ =~= o0 + dec_pad(n as nat, width as nat));
}

/// `[T]::join` for character vectors.
pub fn join_chars(parts: &[Vec<char>], sep: &[char]) -> (r: Vec<char>)
    ensures
        r@ == join(parts@.map_values(|p: Vec<char>| p@), sep@),
{
    let ghost views = parts@.map_values(|p: Vec<char>| p@);
    let mut out: Vec<char> = Vec::new();
    let mut i: usize = 0;
    while i < parts.len()
        invariant
            i <= parts@.len(),
            views == parts@.map_values(|p: Vec<char>| p@),
            out@ == join(views.take(i as int), sep@),
        decreases parts.len() - i,
    {
        assert(views.take(i + 1).drop_last() =~= views.take(i as int));
        if i > 0 {
            push_all(&mut out, sep);
        } else {
            assert(out@ =~= Seq::<char>::empty());
        }
        push_all(&mut out, parts[i].as_slice());
        i = i + 1;
        assert(views.take(i as int).last() == parts@[i - 1]@);
        if i == 1 {
            assert(out@ =~= views.take(1)[0]);
        }
    }
    assert(views.take(parts@.len() as int) =~= views);
    out
}

// ---------------------------------------------------------------------------
// Lemmas about splitting known shapes
// ---------------------------------------------------------------------------

/// No occurrence of `p` begins at any of the first `k` positions of `s`.
pub open spec fn no_match_before(s: Seq<char>, p: Seq<char>, k: int) -> bool {
    forall|i: int| 0 <= i < k ==> !#[trigger] starts_with(s.skip(i), p)
}

/// Splitting `x + p + r` where `p` does not occur before the end of `x`.
pub proof fn lemma_split_concat(x: Seq<char>, p: Seq<char>, r: Seq<char>)
    requires
        p.len() > 0,
        no_match_before(x + p + r, p, x.len() as int),
    ensures
        split(x + p + r, p) == seq![x] + split(r, p),
    decreases x.len(),
{
    let s = x + p + r;
    if x.len() == 0 {
        assert(s =~= p + r);
        assert(s.take(p.len() as int) =~= p);
        assert(s.skip(p.len() as int) =~= r);
        assert(x =~= Seq::<char>::empty());
    } else {
        assert(s.skip(0) =~= s);
        assert(!starts_with(s.skip(0), p));
        let x1 = x.drop_first();
        assert(s.drop_first() =~= x1 + p + r);
        assert forall|i: int| 0 <= i < x1.len() implies !#[trigger] starts_with(
            (x1 + p + r).skip(i),
            p,
        ) by {
            assert((x1 + p + r).skip(i) =~= s.skip(i + 1));
            assert(!starts_with(s.skip(i + 1), p));
        }
        lemma_split_concat(x1, p, r);
        let rr = split(s.drop_first(), p);
        assert(rr == seq![x1] + split(r, p));
        assert(split(s, p) == rr.update(0, seq![s[0]] + rr[0]));
        assert(seq![s[0]] + x1 =~= x);
        assert(rr.update(0, seq![s[0]] + rr[0]) =~= seq![x] + split(r, p));
    }
}

/// Splitting a string in which `p` never occurs yields the string itself.
pub proof fn lemma_split_none(s: Seq<char>, p: Seq<char>)
    requires
        p.len() > 0,
        no_match_before(s, p, s.len() as int),
    ensures
        split(s, p) == seq![s],
    decreases s.len(),
{
    if s.len() == 0 {
        assert(!starts_with(s, p));
        assert(s =~= Seq::<char>::empty());
    } else {
        assert(s.skip(0) =~= s);
        let s1 = s.drop_first();
        assert forall|i: int| 0 <= i < s1.len() implies !#[trigger] starts_with(s1.skip(i), p) by {
            assert(s1.skip(i) =~= s.skip(i + 1));
        }
        lemma_split_none(s1, p);
        assert(seq![s[0]] + s1 =~= s);
        assert(seq![s1].update(0, seq![s[0]] + s1) =~= seq![s]);
    }
}

/// `p` cannot begin at a position whose character differs from `p[0]`.
pub proof fn lemma_no_match_first_char(s: Seq<char>, p: Seq<char>, k: int)
    requires
        p.len() > 0,
        0 <= k <= s.len(),
        forall|i: int| 0 <= i < k ==> s[i] != p[0],
    ensures
        no_match_before(s, p, k),
{
    assert forall|i: int| 0 <= i < k implies !#[trigger] starts_with(s.skip(i), p) by {
        if starts_with(s.skip(i), p) {
            assert(s.skip(i).take(p.len() as int)[0] == p[0]);
        }
    }
}

/// A character does not occur in a string.
pub open spec fn lacks(s: Seq<char>, c: char) -> bool {
    forall|i: int| 0 <= i < s.len() ==> s[i] != c
}

/// Splitting `x + [c] + r` at `c` when `x` lacks `c`.
pub proof fn lemma_split_char_concat(x: Seq<char>, c: char, r: Seq<char>)
    requires
        lacks(x, c),
    ensures
        split(x + seq![c] + r, seq![c]) == seq![x] + split(r, seq![c]),
{
    let s = x + seq![c] + r;
    assert forall|i: int| 0 <= i < x.len() implies s[i] != seq![c][0] by {
        assert(s[i] == x[i]);
    }
    lemma_no_match_first_char(s, seq![c], x.len() as int);
    lemma_split_concat(x, seq![c], r);
}

/// Splitting at `c` a string that lacks `c`.
pub proof fn lemma_split_char_none(s: Seq<char>, c: char)
    requires
        lacks(s, c),
    ensures
        split(s, seq![c]) == seq![s],
{
    lemma_no_match_first_char(s, seq![c], s.len() as int);
    lemma_split_none(s, seq![c]);
}

/// Decimal digits are not whitespace and contain no separators.
pub proof fn lemma_digit_chars(s: Seq<char>)
    requires
        all_digits(s),
    ensures
        forall|i: int| 0 <= i < s.len() ==> !is_ws(#[trigger] s[i]),
        lacks(s, '\n'),
        lacks(s, ':'),
        lacks(s, ','),
        lacks(s, '-'),
        lacks(s, '+'),
        lacks(s, '\r'),
        lacks(s, ' '),
{
    assert forall|i: int| 0 <= i < s.len() implies !is_ws(#[trigger] s[i]) && s[i] != '\n'
        && s[i] != ':' && s[i] != ',' && s[i] != '-' && s[i] != '+' && s[i] != '\r' && s[i]
        != ' ' by {
        assert(is_digit(s[i]));
    }
}

/// A non-empty digit string parses back to its value.
pub proof fn lemma_parse_digits(s: Seq<char>, max: nat)
    requires
        s.len() > 0,
        all_digits(s),
        digits_value(s) <= max,
    ensures
        parse_unsigned(s, max) == Some(digits_value(s)),
{
    lemma_digit_chars(s);
    assert(s[0] != '+');
}

/// `{:0w$}` output parses back to the number.
pub proof fn lemma_parse_dec_pad(n: nat, w: nat, max: nat)
    requires
        n <= max,
    ensures
        parse_unsigned(dec_pad(n, w), max) == Some(n),
        dec_pad(n, w).len() > 0,
        all_digits(dec_pad(n, w)),
{
    lemma_dec_digits(n);
    lemma_pad_zero_digits(dec(n), w);
    lemma_parse_digits(dec_pad(n, w), max);
}

/// Trimming a string that starts and ends with non-whitespace is a no-op,
/// and trailing whitespace is removed.
pub proof fn lemma_trim_tail_ws(s: Seq<char>, t: Seq<char>)
    requires
        s.len() > 0,
        !is_ws(s[0]),
        !is_ws(s.last()),
        forall|i: int| 0 <= i < t.len() ==> is_ws(#[trigger] t[i]),
    ensures
        trim(s + t) == s,
{
    let st = s + t;
    assert(st[0] == s[0]);
    assert(trim_start(st) == st);
    lemma_trim_end_take(st, s.len() as int);
    assert(st.take(s.len() as int) =~= s);
    assert(s.last() == s[s.len() - 1]);
}

/// Trimming a string that starts and ends with non-whitespace is a no-op,
/// also with leading whitespace.
pub proof fn lemma_trim_head_ws(t: Seq<char>, s: Seq<char>)
    requires
        s.len() > 0,
        !is_ws(s[0]),
        !is_ws(s.last()),
        forall|i: int| 0 <= i < t.len() ==> is_ws(#[trigger] t[i]),
    ensures
        trim(t + s) == s,
{
    let ts = t + s;
    lemma_trim_start_skip(ts, t.len() as int);
    assert(ts.skip(t.len() as int) =~= s);
    assert(trim_start(s) == s);
}

} // verus!
