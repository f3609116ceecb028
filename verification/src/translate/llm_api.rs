//! Translation with an OpenAI-compatible language model: settings, the
//! prompt, batching, rate-limit handling and reading the reply.

use crate::error::TranslateError;
use crate::text::{chars_to_string, dec, lines, push_dec, push_str, string_views};
use crate::translate::shared::{fit_lines, nonblank_lines, numbered_lines, numbered_line, parse_multiline_translation};
use crate::text::join;
use vstd::prelude::*;

verus! {

/// Where and how the model is reached.
#[derive(Debug, Clone)]
pub struct LlmConfig {
    pub api_key: String,
    pub api_base: String,
    pub model: String,
    /// Segments per request.
    pub batch_size: usize,
    /// Retries of a rate-limited request.
    pub max_retries: u32,
}

impl Default for LlmConfig {
    fn default() -> (c: Self)
        ensures
            c.api_key@ == Seq::<char>::empty(),
            c.api_base@ == "https://api.openai.com/v1"@,
            c.model@ == "gpt-4o-mini"@,
            c.batch_size == 20,
            c.max_retries == 3,
    {
        LlmConfig {
            api_key: String::new(),
            api_base: "https://api.openai.com/v1".to_owned(),
            model: "gpt-4o-mini".to_owned(),
            batch_size: 20,
            max_retries: 3,
        }
    }
}

/// The translation engine's settings.
pub struct LlmTranslateEngine {
    pub config: LlmConfig,
}

/// The prompt of the professional-translator style: language pair, optional
/// context, the rules (`order` names how the order is stressed), the count
/// and the numbered segments.
pub open spec fn translator_prompt(
    src: Seq<char>,
    tgt: Seq<char>,
    context: Option<Seq<char>>,
    order: Seq<char>,
    texts: Seq<Seq<char>>,
) -> Seq<char> {
    "You are a professional subtitle translator specializing in "@ + src + " to "@ + tgt
        + " translation.\n"@ + match context {
        Some(c) => "\nContext: "@ + c + seq!['\n'],
        None => Seq::empty(),
    } + "\nRules:\n1. Maintain the original meaning, tone, and register\n2. Keep translations concise and natural for subtitle display\n3. Preserve proper nouns, brand names, and technical terms appropriately\n4. Return ONLY the translated text, one line per segment, in the "@
        + order
        + "\n5. Do NOT include segment numbers, brackets, or any extra formatting\n6. Do NOT add explanations or notes\n\nTranslate the following "@
        + dec(texts.len()) + " subtitle segments:\n\n"@ + numbered_lines(texts)
}

pub open spec fn opt_str_view(o: Option<&str>) -> Option<Seq<char>> {
    match o {
        Some(s) => Some(s@),
        None => None,
    }
}

/// The prompt of the professional-translator style (see
/// `translator_prompt`).
pub fn translator_prompt_text(
    texts: &[String],
    source_lang: &str,
    target_lang: &str,
    context_hint: Option<&str>,
    order: &str,
) -> (s: String)
    ensures
        s@ == translator_prompt(
            source_lang@,
            target_lang@,
            opt_str_view(context_hint),
            order@,
            string_views(texts@),
        ),
{
    let mut out: Vec<char> = Vec::new();
    push_str(&mut out, "You are a professional subtitle translator specializing in ");
    push_str(&mut out, source_lang);
    push_str(&mut out, " to ");
    push_str(&mut out, target_lang);
    push_str(&mut out, " translation.\n");
    match context_hint {
        Some(c) => {
            push_str(&mut out, "\nContext: ");
            push_str(&mut out, c);
            out.push('\n');
        },
        None => {},
    }
    push_str(
        &mut out,
        "\nRules:\n1. Maintain the original meaning, tone, and register\n2. Keep translations concise and natural for subtitle display\n3. Preserve proper nouns, brand names, and technical terms appropriately\n4. Return ONLY the translated text, one line per segment, in the ",
    );
    push_str(&mut out, order);
    push_str(
        &mut out,
        "\n5. Do NOT include segment numbers, brackets, or any extra formatting\n6. Do NOT add explanations or notes\n\nTranslate the following ",
    );
    push_dec(&mut out, texts.len() as u64);
    push_str(&mut out, " subtitle segments:\n\n");
    let ghost head = out@;
    let ghost tv = string_views(texts@);
    let ghost parts = Seq::new(tv.len(), |i: int| numbered_line(i, tv[i]));
    let mut i: usize = 0;
    while i < texts.len()
        invariant
            i <= texts@.len(),
            tv == string_views(texts@),
            parts == Seq::new(tv.len(), |k: int| numbered_line(k, tv[k])),
            out@ == head + join(parts.take(i as int), seq!['\n']),
        decreases texts.len() - i,
    {
        if i > 0 {
            out.push('\n');
        }
        let ghost o1 = out@;
        out.push('[');
        push_dec(&mut out, (i + 1) as u64);
        out.push(']');
        out.push(' ');
        crate::text::push_string(&mut out, &texts[i]);
        proof {
            assert(out@ =~= o1 + numbered_line(i as int, tv[i as int]));
            assert(parts.take(i + 1).drop_last() =~= parts.take(i as int));
            assert(parts.take(i + 1).last() == numbered_line(i as int, tv[i as int]));
            if i == 0 {
                assert(parts.take(1) =~= seq![parts[0]]);
                assert(out@ =~= head + join(parts.take(1), seq!['\n']));
            } else {
                assert(out@ =~= head + join(parts.take(i + 1), seq!['\n']));
            }
        }
        i = i + 1;
    }
    assert(parts.take(tv.len() as int) =~= parts);
    chars_to_string(out.as_slice())
}

/// The segments `[start, end)` of each request: `batch_size` at a time.
pub open spec fn batches(start: nat, total: nat, size: nat) -> Seq<(usize, usize)>
    decreases total - start,
{
    if start >= total || size == 0 {
        Seq::empty()
    } else {
        let end = if start + size <= total {
            start + size
        } else {
            total
        };
        seq![(start as usize, end as usize)] + batches(end, total, size)
    }
}

/// What a rate-limited request leads to after `retries` earlier ones:
/// giving up (rate limited for 60 s) past the limit, otherwise a pause of
/// `2^(retries + 1)` seconds.
pub open spec fn rate_limit_outcome(retries: u32, max_retries: u32) -> Result<u64, ()> {
    if retries + 1 > max_retries {
        Err(())
    } else {
        Ok(crate::translate::middleware::pow2((retries + 1) as nat) as u64)
    }
}

impl LlmTranslateEngine {
    pub fn new(config: LlmConfig) -> (e: Self)
        ensures
            e.config == config,
    {
        LlmTranslateEngine { config }
    }

    pub fn name(&self) -> (s: &'static str)
        ensures
            s@ == "LLM API"@,
    {
        "LLM API"
    }

    pub fn requires_network(&self) -> (b: bool)
        ensures
            b,
    {
        true
    }

    /// Every language pair is supported; none is listed.
    pub fn supported_pairs(&self) -> (v: Vec<(String, String)>)
        ensures
            v@.len() == 0,
    {
        Vec::new()
    }

    /// The prompt for one batch.
    pub fn build_prompt(
        &self,
        texts: &[String],
        source_lang: &str,
        target_lang: &str,
        context_hint: Option<&str>,
    ) -> (s: String)
        ensures
            s@ == translator_prompt(
                source_lang@,
                target_lang@,
                opt_str_view(context_hint),
                "SAME order"@,
                string_views(texts@),
            ),
    {
        translator_prompt_text(texts, source_lang, target_lang, context_hint, "SAME order")
    }

    /// The translations in a reply: its trimmed non-blank lines, cut or
    /// filled to one per segment.
    pub fn parse_reply(content: &str, expected: usize) -> (v: Vec<String>)
        ensures
            string_views(v@) == fit_lines(nonblank_lines(lines(content@)), expected as nat),
    {
        parse_multiline_translation(content, expected)
    }

    /// The batches of a request of `total` segments.
    pub fn batch_bounds(&self, total: usize) -> (v: Vec<(usize, usize)>)
        requires
            self.config.batch_size > 0,
        ensures
            v@ == batches(0, total as nat, self.config.batch_size as nat),
    {
        let size = self.config.batch_size;
        let mut v: Vec<(usize, usize)> = Vec::new();
        let mut start: usize = 0;
        while start < total
            invariant
                start <= total,
                size == self.config.batch_size,
                size > 0,
                v@ + batches(start as nat, total as nat, size as nat) == batches(0, total as nat, size as nat),
            decreases total - start,
        {
            let end = if size <= total - start {
                start + size
            } else {
                total
            };
            let ghost before = v@;
            v.push((start, end));
            proof {
                let tail = batches(end as nat, total as nat, size as nat);
                assert(before + (seq![(start, end)] + tail) =~= v@ + tail);
            }
            start = end;
        }
        assert(v@ + Seq::<(usize, usize)>::empty() =~= v@);
        v
    }

    /// After a rate-limited reply, with `retries` earlier ones: the pause in
    /// seconds before trying again, or the error once the retries are used
    /// up.
    pub fn on_rate_limited(&self, retries: u32) -> (r: Result<u64, TranslateError>)
        requires
            retries < self.config.max_retries ==> retries < 63,
            retries < u32::MAX,
        ensures
            match (r, rate_limit_outcome(retries, self.config.max_retries)) {
                (Ok(secs), Ok(s)) => secs == s,
                (Err(e), Err(())) => e matches TranslateError::RateLimited { retry_after_secs } && retry_after_secs == 60,
                _ => false,
            },
    {
        let next = retries + 1;
        if next > self.config.max_retries {
            return Err(TranslateError::RateLimited { retry_after_secs: 60 });
        }
        let mut secs: u64 = 1;
        let mut k: u32 = 0;
        while k < next
            invariant
                k <= next <= 63,
                secs as nat == crate::translate::middleware::pow2(k as nat),
            decreases next - k,
        {
            proof {
                pow2_bound(k as nat);
            }
            secs = secs * 2;
            k = k + 1;
        }
        Ok(secs)
    }
}

proof fn pow2_mono(k: nat, j: nat)
    requires
        k <= j,
    ensures
        crate::translate::middleware::pow2(k) <= crate::translate::middleware::pow2(j),
    decreases j,
{
    if k < j {
        pow2_mono(k, (j - 1) as nat);
    }
}

proof fn pow2_bound(k: nat)
    requires
        k < 63,
    ensures
        crate::translate::middleware::pow2(k) < 0x8000_0000_0000_0000,
        crate::translate::middleware::pow2(k + 1) == 2 * crate::translate::middleware::pow2(k),
{
    pow2_mono(k, 62);
    pow2_agrees(62);
    vstd::arithmetic::power2::lemma2_to64_rest();
}

proof fn pow2_agrees(k: nat)
    ensures
        crate::translate::middleware::pow2(k) == vstd::arithmetic::power2::pow2(k),
    decreases k,
{
    if k == 0 {
        vstd::arithmetic::power2::lemma2_to64();
    } else {
        pow2_agrees((k - 1) as nat);
        vstd::arithmetic::power2::lemma_pow2_unfold(k);
    }
}

} // verus!
