//! Pieces shared by the services: the translation prompt, base addresses,
//! address checks and reading line-per-segment replies.

use crate::text::{
    chars_to_string, dec, ends_with, join, lines, lines_chars, push_all, push_dec, push_str,
    push_string, starts_with, str_chars, str_ends_with, str_starts_with, string_views, trim,
    trim_chars,
};
use crate::translate::engine::TranslateRequest;
use crate::translate::service::HealthStatus;
use crate::translate::service::{is_blank, must_not_be_empty};
use vstd::prelude::*;

verus! {

/// A chat message of an OpenAI-compatible API.
#[derive(Debug, Clone)]
pub struct ChatMessage {
    pub role: String,
    pub content: String,
}

/// The reply of an OpenAI-compatible chat completion.
#[derive(Debug, Clone)]
pub struct ChatCompletionResponse {
    pub choices: Vec<ChatChoice>,
}

/// One choice of a chat completion.
#[derive(Debug, Clone)]
pub struct ChatChoice {
    pub message: ChatMessage,
}

/// `[n] text`, numbering from one.
pub open spec fn numbered_line(i: int, t: Seq<char>) -> Seq<char> {
    seq!['['] + dec((i + 1) as nat) + seq![']', ' '] + t
}

/// The texts numbered from one, one per line.
pub open spec fn numbered_lines(texts: Seq<Seq<char>>) -> Seq<char> {
    join(Seq::new(texts.len(), |i: int| numbered_line(i, texts[i])), seq!['\n'])
}

/// The context paragraph: present only for a hint that is not blank.
pub open spec fn context_block(hint: Option<String>) -> Seq<char> {
    match hint {
        Some(h) => if trim(h@).len() > 0 {
            "Context: "@ + h@ + seq!['\n', '\n']
        } else {
            Seq::empty()
        },
        None => Seq::empty(),
    }
}

/// The prompt asking for a line-by-line translation of the request.
pub open spec fn translation_prompt(r: TranslateRequest) -> Seq<char> {
    "You are a subtitle translation engine.\nTranslate from "@ + r.source_lang@ + " to "@
        + r.target_lang@
        + ".\nKeep the number of lines exactly the same.\nReturn only one translated line per input line, in order, with no extra notes.\n\n"@
        + context_block(r.context_hint) + numbered_lines(string_views(r.texts@))
}

/// `s` without any trailing `c`.
pub open spec fn strip_trailing(s: Seq<char>, c: char) -> Seq<char>
    decreases s.len(),
{
    if s.len() > 0 && s.last() == c {
        strip_trailing(s.drop_last(), c)
    } else {
        s
    }
}

/// The trimmed, non-blank lines of a reply.
pub open spec fn nonblank_lines(ls: Seq<Seq<char>>) -> Seq<Seq<char>>
    decreases ls.len(),
{
    if ls.len() == 0 {
        Seq::empty()
    } else {
        let rest = nonblank_lines(ls.drop_last());
        let t = trim(ls.last());
        if t.len() > 0 {
            rest.push(t)
        } else {
            rest
        }
    }
}

/// Exactly `n` lines: extra lines dropped, missing ones filled with
/// `[Translation Error]`.
pub open spec fn fit_lines(v: Seq<Seq<char>>, n: nat) -> Seq<Seq<char>> {
    if v.len() >= n {
        v.take(n as int)
    } else {
        v + Seq::new((n - v.len()) as nat, |_i: int| "[Translation Error]"@)
    }
}

/// Appends `[n] text`.
fn push_numbered(out: &mut Vec<char>, i: usize, text: &String)
    requires
        i < usize::MAX,
    ensures
        final(out)@ == old(out)@ + numbered_line(i as int, text@),
{
    let ghost o0 = out@;
    out.push('[');
    push_dec(out, (i + 1) as u64);
    out.push(']');
    out.push(' ');
    push_string(out, text);
    assert(out@ =~= o0 + numbered_line(i as int, text@));
}

/// The prompt for an OpenAI-compatible model: the language pair, the rules
/// of the reply, the context hint when it is not blank, and the texts
/// numbered from one.
pub fn build_translation_prompt(request: &TranslateRequest) -> (s: String)
    ensures
        s@ == translation_prompt(*request),
{
    let mut out: Vec<char> = Vec::new();
    push_str(&mut out, "You are a subtitle translation engine.\nTranslate from ");
    push_string(&mut out, &request.source_lang);
    push_str(&mut out, " to ");
    push_string(&mut out, &request.target_lang);
    push_str(
        &mut out,
        ".\nKeep the number of lines exactly the same.\nReturn only one translated line per input line, in order, with no extra notes.\n\n",
    );
    match &request.context_hint {
        Some(h) => {
            if !is_blank(h.as_str()) {
                push_str(&mut out, "Context: ");
                push_string(&mut out, h);
                out.push('\n');
                out.push('\n');
            }
        },
        None => {},
    }
    let ghost head = out@;
    let ghost texts = string_views(request.texts@);
    let ghost parts = Seq::new(texts.len(), |i: int| numbered_line(i, texts[i]));
    let mut i: usize = 0;
    while i < request.texts.len()
        invariant
            i <= request.texts@.len(),
            texts == string_views(request.texts@),
            parts == Seq::new(texts.len(), |k: int| numbered_line(k, texts[k])),
            out@ == head + join(parts.take(i as int), seq!['\n']),
        decreases request.texts.len() - i,
    {
        let ghost before = out@;
        if i > 0 {
            out.push('\n');
        }
        push_numbered(&mut out, i, &request.texts[i]);
        proof {
            assert(parts.take(i + 1).drop_last() =~= parts.take(i as int));
            assert(parts.take(i + 1).last() == numbered_line(i as int, texts[i as int]));
            if i == 0 {
                assert(parts.take(1) =~= seq![parts[0]]);
                assert(out@ =~= head + join(parts.take(1), seq!['\n']));
            } else {
                assert(out@ =~= head + join(parts.take(i + 1), seq!['\n']));
            }
        }
        i = i + 1;
    }
    assert(parts.take(texts.len() as int) =~= parts);
    chars_to_string(out.as_slice())
}

/// `base` without its trailing slashes, followed by `route`.
pub fn endpoint_at(base: &str, route: &str) -> (s: String)
    ensures
        s@ == strip_trailing(base@, '/') + route@,
{
    let chars = str_chars(base);
    let mut end = chars.len();
    assert(chars@.take(end as int) =~= chars@);
    while end > 0 && chars[end - 1] == '/'
        invariant
            end <= chars@.len(),
            strip_trailing(chars@.take(end as int), '/') == strip_trailing(chars@, '/'),
        decreases end,
    {
        proof {
            assert(chars@.take(end as int).drop_last() =~= chars@.take(end - 1));
        }
        end = end - 1;
    }
    let mut out: Vec<char> = Vec::new();
    let mut i: usize = 0;
    while i < end
        invariant
            i <= end <= chars@.len(),
            out@ == chars@.take(i as int),
        decreases end - i,
    {
        out.push(chars[i]);
        i = i + 1;
        proof {
            assert(chars@.take(i as int) =~= chars@.take(i - 1).push(chars@[i - 1]));
        }
    }
    proof {
        let u = chars@.take(end as int);
        assert(strip_trailing(u, '/') == u);
    }
    push_str(&mut out, route);
    chars_to_string(out.as_slice())
}

/// The health a service's reply shows: a 2xx status is healthy; the status
/// with which the service rejects its key (if it has one) makes it
/// unhealthy; any other status degrades it, shown as `HTTP <status_text>`.
pub fn health_of_reply(status: u16, key_rejected: Option<u16>, status_text: &str) -> (h: HealthStatus)
    ensures
        200 <= status < 300 ==> h is Healthy,
        !(200 <= status < 300) && key_rejected == Some(status) ==> (h matches HealthStatus::Unhealthy(m)
            && m@ == "API Key 无效"@),
        !(200 <= status < 300) && key_rejected != Some(status) ==> (h matches HealthStatus::Degraded(m)
            && m@ == "HTTP "@ + status_text@),
{
    if 200 <= status && status < 300 {
        return HealthStatus::Healthy;
    }
    match key_rejected {
        Some(k) => {
            if k == status {
                return HealthStatus::Unhealthy("API Key 无效".to_owned());
            }
        },
        None => {},
    }
    let mut out: Vec<char> = Vec::new();
    push_str(&mut out, "HTTP ");
    push_str(&mut out, status_text);
    HealthStatus::Degraded(chars_to_string(out.as_slice()))
}

/// The pieces that are there, joined in order.
pub open spec fn joined_present(parts: Seq<Option<String>>) -> Seq<char>
    decreases parts.len(),
{
    if parts.len() == 0 {
        Seq::empty()
    } else {
        joined_present(parts.drop_last()) + match parts.last() {
            Some(p) => p@,
            None => Seq::empty(),
        }
    }
}

/// The pieces that are there, joined in order (see `joined_present`).
pub fn join_present(parts: &[Option<String>]) -> (s: String)
    ensures
        s@ == joined_present(parts@),
{
    let mut out: Vec<char> = Vec::new();
    let mut i: usize = 0;
    while i < parts.len()
        invariant
            i <= parts@.len(),
            out@ == joined_present(parts@.take(i as int)),
        decreases parts.len() - i,
    {
        proof {
            assert(parts@.take(i + 1).drop_last() =~= parts@.take(i as int));
        }
        match &parts[i] {
            Some(p) => push_string(&mut out, p),
            None => {},
        }
        i = i + 1;
    }
    assert(parts@.take(parts@.len() as int) =~= parts@);
    chars_to_string(out.as_slice())
}

/// The address trimmed and without trailing slashes.
pub fn normalize_base_url(base_url: &str) -> (s: String)
    ensures
        s@ == strip_trailing(trim(base_url@), '/'),
{
    let chars = str_chars(base_url);
    let t = trim_chars(chars.as_slice());
    let mut end = t.len();
    assert(t@.take(end as int) =~= t@);
    while end > 0 && t[end - 1] == '/'
        invariant
            end <= t@.len(),
            strip_trailing(t@.take(end as int), '/') == strip_trailing(t@, '/'),
        decreases end,
    {
        proof {
            assert(t@.take(end as int).drop_last() =~= t@.take(end - 1));
        }
        end = end - 1;
    }
    let mut out: Vec<char> = Vec::new();
    let mut i: usize = 0;
    while i < end
        invariant
            i <= end <= t@.len(),
            out@ == t@.take(i as int),
        decreases end - i,
    {
        out.push(t[i]);
        i = i + 1;
        proof {
            assert(t@.take(i as int) =~= t@.take(i - 1).push(t@[i - 1]));
        }
    }
    proof {
        let u = t@.take(end as int);
        assert(!(u.len() > 0 && u.last() == '/'));
        assert(strip_trailing(u, '/') == u);
    }
    assert(t@.take(end as int) =~= t@.take(end as int));
    chars_to_string(out.as_slice())
}

/// Checks that `value` is an `http://` or `https://` address; the message
/// names the field.
pub fn validate_http_url(field_name: &str, value: &str) -> (r: Result<(), String>)
    ensures
        match r {
            Ok(()) => trim(value@).len() > 0 && (starts_with(value@, "http://"@) || starts_with(
                value@,
                "https://"@,
            )),
            Err(m) => if trim(value@).len() == 0 {
                m@ == field_name@ + "不能为空"@
            } else {
                !starts_with(value@, "http://"@) && !starts_with(value@, "https://"@) && m@
                    == field_name@ + "必须以 http:// 或 https:// 开头"@
            },
        },
{
    if is_blank(value) {
        return Err(must_not_be_empty(field_name));
    }
    if !(str_starts_with(value, "http://") || str_starts_with(value, "https://")) {
        let mut out: Vec<char> = Vec::new();
        push_str(&mut out, field_name);
        push_str(&mut out, "必须以 http:// 或 https:// 开头");
        return Err(chars_to_string(out.as_slice()));
    }
    Ok(())
}

/// The trimmed non-blank lines of `content`, cut or filled (with
/// `[Translation Error]`) to exactly `expected_count` lines.
pub fn parse_multiline_translation(content: &str, expected_count: usize) -> (v: Vec<String>)
    ensures
        string_views(v@) == fit_lines(nonblank_lines(lines(content@)), expected_count as nat),
{
    let chars = str_chars(content);
    let ls = lines_chars(chars.as_slice());
    let ghost lv = lines(content@);
    let mut kept: Vec<String> = Vec::new();
    let mut i: usize = 0;
    while i < ls.len()
        invariant
            i <= ls@.len() == lv.len(),
            lv == lines(content@),
            forall|k: int| 0 <= k < ls@.len() ==> #[trigger] ls@[k]@ == lv[k],
            string_views(kept@) == nonblank_lines(lv.take(i as int)),
        decreases ls.len() - i,
    {
        let t = trim_chars(ls[i].as_slice());
        proof {
            assert(lv.take(i + 1).drop_last() =~= lv.take(i as int));
            assert(lv.take(i + 1).last() == lv[i as int]);
        }
        if t.len() > 0 {
            let ghost before = kept@;
            kept.push(chars_to_string(t.as_slice()));
            assert(string_views(kept@) =~= string_views(before).push(t@));
        }
        i = i + 1;
    }
    assert(lv.take(lv.len() as int) =~= lv);
    let ghost nb = string_views(kept@);
    if kept.len() >= expected_count {
        let mut out: Vec<String> = Vec::new();
        let mut k: usize = 0;
        while k < expected_count
            invariant
                k <= expected_count <= kept@.len(),
                string_views(out@) == string_views(kept@).take(k as int),
            decreases expected_count - k,
        {
            let ghost before = out@;
            let item = kept[k].clone();
            assert(item@ == kept@[k as int]@);
            out.push(item);
            assert(string_views(out@) =~= string_views(before).push(kept@[k as int]@));
            k = k + 1;
            assert(string_views(out@) =~= string_views(kept@).take(k as int));
        }
        out
    } else {
        let n0 = kept.len();
        while kept.len() < expected_count
            invariant
                n0 <= kept@.len() <= expected_count,
                string_views(kept@) == nb + Seq::new(
                    (kept@.len() - n0) as nat,
                    |_i: int| "[Translation Error]"@,
                ),
                nb.len() == n0,
            decreases expected_count - kept.len(),
        {
            let ghost before = kept@;
            let filler = "[Translation Error]".to_owned();
            assert(filler@ == "[Translation Error]"@);
            kept.push(filler);
            assert(string_views(kept@) =~= string_views(before).push("[Translation Error]"@));
            assert(string_views(kept@) =~= nb + Seq::new(
                (kept@.len() - n0) as nat,
                |_i: int| "[Translation Error]"@,
            ));
        }
        kept
    }
}

/// `s` without any repetitions of `p` at its end (`str::trim_end_matches`).
pub open spec fn strip_suffix_all(s: Seq<char>, p: Seq<char>) -> Seq<char>
    decreases s.len(),
{
    if p.len() > 0 && ends_with(s, p) {
        strip_suffix_all(s.take(s.len() - p.len()), p)
    } else {
        s
    }
}

/// The address of a status route next to an OpenAI-compatible base: a
/// trailing `/v1` (repeated or not) is dropped before the route is added.
pub open spec fn sibling_route(base: Seq<char>, route: Seq<char>) -> Seq<char> {
    if ends_with(base, "/v1"@) {
        strip_suffix_all(base, "/v1"@) + route
    } else {
        base + route
    }
}

/// `base` with the route beside its `/v1` API, as `sibling_route`.
pub fn route_beside_api(base: &str, route: &str) -> (s: String)
    ensures
        s@ == sibling_route(base@, route@),
{
    let chars = str_chars(base);
    let suffix = str_chars("/v1");
    let mut end = chars.len();
    let ends = str_ends_with(base, "/v1");
    proof {
        reveal_strlit("/v1");
    }
    if ends {
        assert(chars@.take(end as int) =~= chars@);
        while end >= 3 && crate::text::matches_at(chars.as_slice(), end - 3, suffix.as_slice())
            invariant
                end <= chars@.len(),
                suffix@ == "/v1"@,
                strip_suffix_all(chars@.take(end as int), "/v1"@) == strip_suffix_all(chars@, "/v1"@),
            decreases end,
        {
            proof {
                reveal_strlit("/v1");
                let t = chars@.take(end as int);
                assert(t.skip(t.len() - 3) =~= chars@.skip(end - 3).take(3));
                assert(t.take(t.len() - 3) =~= chars@.take(end - 3));
                assert(ends_with(t, "/v1"@));
                assert(strip_suffix_all(t, "/v1"@) == strip_suffix_all(t.take(t.len() - 3), "/v1"@));
            }
            end = end - 3;
        }
        proof {
            reveal_strlit("/v1");
            let t = chars@.take(end as int);
            if ends_with(t, "/v1"@) {
                assert(t.skip(t.len() - 3) =~= chars@.skip(end - 3).take(3));
            }
        }
    }
    let mut out: Vec<char> = Vec::new();
    let mut i: usize = 0;
    while i < end
        invariant
            i <= end <= chars@.len(),
            out@ == chars@.take(i as int),
        decreases end - i,
    {
        out.push(chars[i]);
        i = i + 1;
        proof {
            assert(chars@.take(i as int) =~= chars@.take(i - 1).push(chars@[i - 1]));
        }
    }
    push_str(&mut out, route);
    proof {
        if !ends {
            assert(chars@.take(end as int) =~= chars@);
        }
    }
    chars_to_string(out.as_slice())
}

/// The chat-completions address of an OpenAI-compatible base.
pub fn chat_completions_endpoint(base_url: &str) -> (s: String)
    ensures
        s@ == strip_trailing(trim(base_url@), '/') + "/chat/completions"@,
{
    let base = normalize_base_url(base_url);
    let mut out: Vec<char> = Vec::new();
    push_string(&mut out, &base);
    push_str(&mut out, "/chat/completions");
    chars_to_string(out.as_slice())
}

/// The authorization header value: `Bearer <key>` for a key that is not
/// blank.
pub fn bearer_header(api_key: Option<&str>) -> (h: Option<String>)
    ensures
        match api_key {
            Some(k) => if trim(k@).len() > 0 {
                h matches Some(v) && v@ == "Bearer "@ + k@
            } else {
                h is None
            },
            None => h is None,
        },
{
    match api_key {
        Some(k) => {
            if is_blank(k) {
                None
            } else {
                let mut out: Vec<char> = Vec::new();
                push_str(&mut out, "Bearer ");
                push_str(&mut out, k);
                Some(chars_to_string(out.as_slice()))
            }
        },
        None => None,
    }
}

/// What a text-by-text translation loop does around item `index`: a blank
/// text is skipped (left empty, with no request, report or pause); otherwise
/// progress is reported after items 0, 5, 10, ... and after the last one,
/// and the loop pauses for `pause_ms` milliseconds after every
/// `pause_every`-th item.
#[derive(Debug, Clone, Copy, PartialEq, Eq, Structural)]
pub struct ItemStep {
    pub skip: bool,
    pub report: bool,
    pub pause_ms: u64,
}

pub open spec fn item_step_of(
    index: int,
    total: int,
    text: Seq<char>,
    pause_every: int,
    pause_ms: u64,
) -> ItemStep {
    if trim(text).len() == 0 {
        ItemStep { skip: true, report: false, pause_ms: 0 }
    } else {
        ItemStep {
            skip: false,
            report: index % 5 == 0 || index == total - 1,
            pause_ms: if index % pause_every == pause_every - 1 {
                pause_ms
            } else {
                0
            },
        }
    }
}

/// The step for item `index` of `total` (see `ItemStep`).
pub fn item_step(index: usize, total: usize, text: &str, pause_every: usize, pause_ms: u64) -> (s: ItemStep)
    requires
        index < total,
        pause_every > 0,
    ensures
        s == item_step_of(index as int, total as int, text@, pause_every as int, pause_ms),
{
    if is_blank(text) {
        return ItemStep { skip: true, report: false, pause_ms: 0 };
    }
    ItemStep {
        skip: false,
        report: index % 5 == 0 || index == total - 1,
        pause_ms: if index % pause_every == pause_every - 1 {
            pause_ms
        } else {
            0
        },
    }
}

/// The error for a failed completion request: an invalid key on 401 or
/// 403, otherwise the status and body.
pub fn completion_status_error(status: u16, message: String) -> (e: crate::error::TranslateError)
    ensures
        (status == 401 || status == 403) ==> e is InvalidApiKey,
        !(status == 401 || status == 403) ==> (e matches crate::error::TranslateError::Api { status: s, message: m }
            && s == status && m == message),
{
    if status == 401 || status == 403 {
        crate::error::TranslateError::InvalidApiKey
    } else {
        crate::error::TranslateError::Api { status, message }
    }
}

/// The text of the first choice of a reply, empty when there is none.
pub fn first_choice_text(response: &ChatCompletionResponse) -> (s: &str)
    ensures
        response.choices@.len() > 0 ==> s@ == response.choices@[0].message.content@,
        response.choices@.len() == 0 ==> s@ == Seq::<char>::empty(),
{
    if response.choices.len() > 0 {
        response.choices[0].message.content.as_str()
    } else {
        proof {
            reveal_strlit("");
        }
        ""
    }
}

/// The result of a completion: one translation per requested text, read
/// from the first choice, credited to the model.
pub fn completion_result(response: &ChatCompletionResponse, expected: usize, model: &str) -> (r: crate::translate::engine::TranslateResult)
    ensures
        string_views(r.texts@) == fit_lines(
            nonblank_lines(
                lines(
                    if response.choices@.len() > 0 {
                        response.choices@[0].message.content@
                    } else {
                        Seq::<char>::empty()
                    },
                ),
            ),
            expected as nat,
        ),
        r.engine@ == model@,
{
    let content = first_choice_text(response);
    let texts = parse_multiline_translation(content, expected);
    crate::translate::engine::TranslateResult { texts, engine: model.to_owned() }
}

/// A reply yields exactly one translation per requested text, whatever
/// the model returned: the lines it gave first, in order, then fillers.
pub proof fn lemma_one_line_per_text(v: Seq<Seq<char>>, n: nat)
    ensures
        fit_lines(v, n).len() == n,
        forall|i: int| 0 <= i < n && i < v.len() ==> #[trigger] fit_lines(v, n)[i] == v[i],
        forall|i: int| v.len() <= i < n ==> #[trigger] fit_lines(v, n)[i] == "[Translation Error]"@,
{
}

} // verus!
