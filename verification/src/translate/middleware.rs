//! Retry, caching and result assembly around a translation service.
//!
//! Times are milliseconds on a monotonic clock, handed in by the caller.

use crate::error::TranslateError;
use crate::text::{str_eq, string_views};
use vstd::prelude::*;

verus! {

/// How often and how patiently failed translations are retried.
#[derive(Debug, Clone, Copy, PartialEq, Eq, Structural)]
pub struct RetryPolicy {
    pub max_retries: u32,
    pub base_delay_ms: u64,
    pub max_delay_ms: u64,
}

impl Default for RetryPolicy {
    fn default() -> (p: Self)
        ensures
            p == (RetryPolicy { max_retries: 3, base_delay_ms: 1000, max_delay_ms: 30000 }),
    {
        RetryPolicy { max_retries: 3, base_delay_ms: 1000, max_delay_ms: 30000 }
    }
}

/// What to do after a failed attempt.
#[derive(Debug, Clone, Copy, PartialEq, Eq, Structural)]
pub enum RetryDecision {
    GiveUp,
    RetryAfterMs(u64),
}

/// Failures worth another attempt: network trouble, rate limiting, and
/// server errors (5xx) or 429 from the API.
pub open spec fn retryable(e: TranslateError) -> bool {
    match e {
        TranslateError::Network(_) => true,
        TranslateError::RateLimited { .. } => true,
        TranslateError::Api { status, .. } => status >= 500 || status == 429,
        _ => false,
    }
}

/// `2^k`.
pub open spec fn pow2(k: nat) -> nat
    decreases k,
{
    if k == 0 {
        1
    } else {
        2 * pow2((k - 1) as nat)
    }
}

/// `2u32.saturating_pow(k)`.
pub open spec fn pow2_sat(k: nat) -> u32 {
    if pow2(k) <= u32::MAX {
        pow2(k) as u32
    } else {
        u32::MAX
    }
}

/// The pause before retry number `attempt` (from one): the base delay
/// doubled for each earlier retry, capped at the maximum.
pub open spec fn retry_delay(p: RetryPolicy, attempt: u32) -> int {
    let d = p.base_delay_ms * pow2_sat((attempt - 1) as nat);
    if d <= p.max_delay_ms {
        d
    } else {
        p.max_delay_ms as int
    }
}

proof fn lemma_pow2_grows(k: nat)
    ensures
        pow2(k) >= 1,
        pow2(k + 1) == 2 * pow2(k),
    decreases k,
{
    if k > 0 {
        lemma_pow2_grows((k - 1) as nat);
    }
}

/// `2u32.saturating_pow(k)` computed.
fn pow2_saturating(k: u32) -> (r: u32)
    ensures
        r == pow2_sat(k as nat),
{
    let mut r: u32 = 1;
    let mut i: u32 = 0;
    let mut saturated = false;
    while i < k
        invariant
            i <= k,
            !saturated ==> r as nat == pow2(i as nat),
            saturated ==> r == u32::MAX && pow2(i as nat) > u32::MAX,
        decreases k - i,
    {
        proof {
            lemma_pow2_grows(i as nat);
        }
        if saturated || r > u32::MAX / 2 {
            r = u32::MAX;
            saturated = true;
        } else {
            r = r * 2;
        }
        i = i + 1;
    }
    r
}

/// Whether a failed translation is retried.
pub fn is_retryable(e: &TranslateError) -> (b: bool)
    ensures
        b == retryable(*e),
{
    match e {
        TranslateError::Network(_) => true,
        TranslateError::RateLimited { .. } => true,
        TranslateError::Api { status, .. } => *status >= 500 || *status == 429,
        _ => false,
    }
}

impl RetryPolicy {
    /// After failed attempt number `attempt` (from zero) with `e`: give up
    /// when the error is not retryable or the retries are used up, otherwise
    /// wait `retry_delay(attempt + 1)` and try again.
    pub fn after_failure(&self, attempt: u32, e: &TranslateError) -> (d: RetryDecision)
        requires
            attempt < u32::MAX,
            self.base_delay_ms * pow2_sat(attempt as nat) <= u64::MAX,
        ensures
            (!retryable(*e) || attempt >= self.max_retries) ==> d == RetryDecision::GiveUp,
            (retryable(*e) && attempt < self.max_retries) ==> d == RetryDecision::RetryAfterMs(
                retry_delay(*self, (attempt + 1) as u32) as u64,
            ),
    {
        if !is_retryable(e) || attempt >= self.max_retries {
            return RetryDecision::GiveUp;
        }
        let factor = pow2_saturating(attempt);
        let delay = self.base_delay_ms * factor as u64;
        let capped = if delay <= self.max_delay_ms {
            delay
        } else {
            self.max_delay_ms
        };
        RetryDecision::RetryAfterMs(capped)
    }
}

/// A cached translation and when it was stored.
#[derive(Debug, Clone)]
pub struct CacheEntry {
    pub key: String,
    pub result: String,
    pub inserted_at_ms: u64,
}

/// Translations by cache key, each valid for `ttl_ms`, at most
/// `max_entries` of them (the oldest goes first).
pub struct TranslationCache {
    pub entries: Vec<CacheEntry>,
    pub ttl_ms: u64,
    pub max_entries: usize,
}

pub open spec fn entry_view(e: CacheEntry) -> (Seq<char>, Seq<char>, u64) {
    (e.key@, e.result@, e.inserted_at_ms)
}

pub open spec fn cache_view(s: Seq<CacheEntry>) -> Seq<(Seq<char>, Seq<char>, u64)> {
    s.map_values(|e: CacheEntry| entry_view(e))
}

/// Position of the first entry with key `k` at or after `j`, or -1.
pub open spec fn find_entry(v: Seq<(Seq<char>, Seq<char>, u64)>, k: Seq<char>, j: int) -> int
    decreases v.len() - j,
{
    if j < 0 || j >= v.len() {
        -1
    } else if v[j].0 == k {
        j
    } else {
        find_entry(v, k, j + 1)
    }
}

/// Position of the first entry with the smallest timestamp, looking from
/// `j` on with `best` the best so far.
pub open spec fn oldest_from(v: Seq<(Seq<char>, Seq<char>, u64)>, j: int, best: int) -> int
    decreases v.len() - j,
{
    if j < 0 || j >= v.len() {
        best
    } else if v[j].2 < v[best].2 {
        oldest_from(v, j + 1, j)
    } else {
        oldest_from(v, j + 1, best)
    }
}

/// What `get` finds at time `now`: the result of a stored key that is
/// younger than `ttl`.
pub open spec fn cache_lookup(v: Seq<(Seq<char>, Seq<char>, u64)>, ttl: u64, k: Seq<char>, now: u64) -> Option<Seq<char>> {
    let f = find_entry(v, k, 0);
    if f >= 0 && (if now >= v[f].2 { now - v[f].2 } else { 0 }) < ttl {
        Some(v[f].1)
    } else {
        None
    }
}

/// The entries after `insert` of `(k, r)` at `now`: the oldest entry is
/// dropped when the cache is full, then the key is replaced or appended.
pub open spec fn cache_insert(v: Seq<(Seq<char>, Seq<char>, u64)>, max: usize, k: Seq<char>, r: Seq<char>, now: u64) -> Seq<
    (Seq<char>, Seq<char>, u64),
> {
    let v1 = if v.len() >= max && v.len() > 0 {
        v.remove(oldest_from(v, 1, 0))
    } else {
        v
    };
    let f = find_entry(v1, k, 0);
    if f >= 0 {
        v1.update(f, (k, r, now))
    } else {
        v1.push((k, r, now))
    }
}

proof fn lemma_find_entry(v: Seq<(Seq<char>, Seq<char>, u64)>, k: Seq<char>, j: int)
    requires
        0 <= j <= v.len(),
    ensures
        find_entry(v, k, j) >= -1,
        find_entry(v, k, j) == -1 ==> forall|i: int| #![trigger v[i]] j <= i < v.len() ==> v[i].0 != k,
        find_entry(v, k, j) >= 0 ==> j <= find_entry(v, k, j) < v.len() && v[find_entry(v, k, j)].0 == k
            && forall|i: int| #![trigger v[i]] j <= i < find_entry(v, k, j) ==> v[i].0 != k,
    decreases v.len() - j,
{
    if j < v.len() && v[j].0 != k {
        lemma_find_entry(v, k, j + 1);
    }
}

proof fn lemma_oldest(v: Seq<(Seq<char>, Seq<char>, u64)>, j: int, best: int)
    requires
        0 <= best < j <= v.len(),
    ensures
        0 <= oldest_from(v, j, best) < v.len(),
    decreases v.len() - j,
{
    if j < v.len() {
        if v[j].2 < v[best].2 {
            lemma_oldest(v, j + 1, j);
        } else {
            lemma_oldest(v, j + 1, best);
        }
    }
}

/// A translation stored is found again at once (with a positive lifetime).
pub proof fn lemma_cache_insert_then_get(
    v: Seq<(Seq<char>, Seq<char>, u64)>,
    max: usize,
    ttl: u64,
    k: Seq<char>,
    r: Seq<char>,
    now: u64,
)
    requires
        ttl > 0,
    ensures
        cache_lookup(cache_insert(v, max, k, r, now), ttl, k, now) == Some(r),
{
    let v1 = if v.len() >= max && v.len() > 0 {
        lemma_oldest(v, 1, 0);
        v.remove(oldest_from(v, 1, 0))
    } else {
        v
    };
    lemma_find_entry(v1, k, 0);
    let f = find_entry(v1, k, 0);
    let v2 = cache_insert(v, max, k, r, now);
    if f >= 0 {
        assert(v2 == v1.update(f, (k, r, now)));
        lemma_find_entry(v2, k, 0);
        let g = find_entry(v2, k, 0);
        assert(v2[f].0 == k);
        if g != f {
            assert(g < f);
            assert(v2[g] == v1[g]);
        }
    } else {
        assert(v2 == v1.push((k, r, now)));
        lemma_find_entry(v2, k, 0);
        let g = find_entry(v2, k, 0);
        assert(v2[v1.len() as int].0 == k);
        if g >= 0 && g < v1.len() {
            assert(v2[g] == v1[g]);
        }
    }
}

/// No key is stored twice.
pub open spec fn cache_keys_distinct(v: Seq<(Seq<char>, Seq<char>, u64)>) -> bool {
    forall|i: int, j: int| 0 <= i < j < v.len() ==> #[trigger] v[i].0 != #[trigger] v[j].0
}

/// The entries after inserting `(ks[i], rs[i])` for every `i`, in order, all
/// at `now`.
pub open spec fn cache_insert_all(
    v: Seq<(Seq<char>, Seq<char>, u64)>,
    max: usize,
    ks: Seq<Seq<char>>,
    rs: Seq<Seq<char>>,
    now: u64,
) -> Seq<(Seq<char>, Seq<char>, u64)>
    decreases ks.len(),
{
    if ks.len() == 0 {
        v
    } else {
        cache_insert(
            cache_insert_all(v, max, ks.drop_last(), rs.drop_last(), now),
            max,
            ks.last(),
            rs.last(),
            now,
        )
    }
}

/// `find_entry` looks at keys only; a longer list whose extra keys differ
/// from `k` finds `k` where the shorter one does.
proof fn lemma_find_entry_same_keys(
    v: Seq<(Seq<char>, Seq<char>, u64)>,
    w: Seq<(Seq<char>, Seq<char>, u64)>,
    k: Seq<char>,
    j: int,
)
    requires
        0 <= j,
        v.len() <= w.len(),
        forall|i: int| 0 <= i < v.len() ==> #[trigger] v[i].0 == w[i].0,
        forall|i: int| v.len() <= i < w.len() ==> #[trigger] w[i].0 != k,
    ensures
        find_entry(w, k, j) == find_entry(v, k, j),
    decreases w.len() - j,
{
    if j < w.len() {
        if j < v.len() {
            assert(v[j].0 == w[j].0);
            if v[j].0 != k {
                lemma_find_entry_same_keys(v, w, k, j + 1);
            }
        } else {
            assert(w[j].0 != k);
            lemma_find_entry_same_keys(v, w, k, j + 1);
        }
    }
}

/// Without eviction, an insert adds at most one entry, leaves what is found
/// for every other key as it was, and stores `(k, r, now)` where `k` is then
/// found.
proof fn lemma_insert_no_evict(
    v: Seq<(Seq<char>, Seq<char>, u64)>,
    max: usize,
    k: Seq<char>,
    r: Seq<char>,
    now: u64,
)
    requires
        v.len() < max,
    ensures
        v.len() <= cache_insert(v, max, k, r, now).len() <= v.len() + 1,
        ({
            let w = cache_insert(v, max, k, r, now);
            let g = find_entry(w, k, 0);
            0 <= g < w.len() && w[g] == (k, r, now)
        }),
        forall|k2: Seq<char>|
            k2 != k ==> #[trigger] find_entry(cache_insert(v, max, k, r, now), k2, 0) == find_entry(
                v,
                k2,
                0,
            ) && (find_entry(v, k2, 0) >= 0 ==> cache_insert(v, max, k, r, now)[find_entry(v, k2, 0)]
                == v[find_entry(v, k2, 0)]),
{
    let w = cache_insert(v, max, k, r, now);
    lemma_find_entry(v, k, 0);
    let f = find_entry(v, k, 0);
    if f >= 0 {
        assert(w == v.update(f, (k, r, now)));
        lemma_find_entry_same_keys(v, w, k, 0);
        assert forall|k2: Seq<char>| k2 != k implies #[trigger] find_entry(w, k2, 0) == find_entry(v, k2, 0)
            && (find_entry(v, k2, 0) >= 0 ==> w[find_entry(v, k2, 0)] == v[find_entry(v, k2, 0)]) by {
            lemma_find_entry_same_keys(v, w, k2, 0);
            lemma_find_entry(v, k2, 0);
        }
    } else {
        assert(w == v.push((k, r, now)));
        assert forall|k2: Seq<char>| k2 != k implies #[trigger] find_entry(w, k2, 0) == find_entry(v, k2, 0)
            && (find_entry(v, k2, 0) >= 0 ==> w[find_entry(v, k2, 0)] == v[find_entry(v, k2, 0)]) by {
            lemma_find_entry_same_keys(v, w, k2, 0);
            lemma_find_entry(v, k2, 0);
        }
        lemma_find_entry(w, k, 0);
        let g = find_entry(w, k, 0);
        assert(w[v.len() as int].0 == k);
        if g >= 0 && g < v.len() {
            assert(w[g] == v[g]);
        }
    }
}

/// A batch stored at one instant is served again: after inserting distinct
/// keys `ks` with results `rs` at `now`, each key yields its result at any
/// time `later` less than `ttl` after `now`, as long as the cache had room
/// for the whole batch (nothing was evicted).
pub proof fn lemma_cache_batch_served(
    v: Seq<(Seq<char>, Seq<char>, u64)>,
    max: usize,
    ttl: u64,
    ks: Seq<Seq<char>>,
    rs: Seq<Seq<char>>,
    now: u64,
    later: u64,
)
    requires
        ks.len() == rs.len(),
        forall|i: int, j: int| 0 <= i < j < ks.len() ==> #[trigger] ks[i] != #[trigger] ks[j],
        v.len() + ks.len() <= max,
        (if later >= now { later - now } else { 0 }) < ttl,
    ensures
        forall|i: int|
            0 <= i < ks.len() ==> cache_lookup(cache_insert_all(v, max, ks, rs, now), ttl, #[trigger] ks[i], later)
                == Some(rs[i]),
    decreases ks.len(),
{
    lemma_batch_found(v, max, ks, rs, now);
    assert forall|i: int| 0 <= i < ks.len() implies cache_lookup(
        cache_insert_all(v, max, ks, rs, now),
        ttl,
        #[trigger] ks[i],
        later,
    ) == Some(rs[i]) by {
        let w = cache_insert_all(v, max, ks, rs, now);
        assert(find_entry(w, ks[i], 0) >= 0 && w[find_entry(w, ks[i], 0)] == (ks[i], rs[i], now));
    }
}

/// After a batch insert without eviction, each key of the batch is found at
/// an entry holding its result and `now`, and at most `ks.len()` entries
/// were added.
proof fn lemma_batch_found(
    v: Seq<(Seq<char>, Seq<char>, u64)>,
    max: usize,
    ks: Seq<Seq<char>>,
    rs: Seq<Seq<char>>,
    now: u64,
)
    requires
        ks.len() == rs.len(),
        forall|i: int, j: int| 0 <= i < j < ks.len() ==> #[trigger] ks[i] != #[trigger] ks[j],
        v.len() + ks.len() <= max,
    ensures
        cache_insert_all(v, max, ks, rs, now).len() <= v.len() + ks.len(),
        forall|i: int|
            0 <= i < ks.len() ==> {
                let w = cache_insert_all(v, max, ks, rs, now);
                let g = find_entry(w, #[trigger] ks[i], 0);
                0 <= g < w.len() && w[g] == (ks[i], rs[i], now)
            },
    decreases ks.len(),
{
    if ks.len() > 0 {
        let ks0 = ks.drop_last();
        let rs0 = rs.drop_last();
        assert forall|i: int, j: int| 0 <= i < j < ks0.len() implies #[trigger] ks0[i] != #[trigger] ks0[j] by {
            assert(ks0[i] == ks[i] && ks0[j] == ks[j]);
        }
        lemma_batch_found(v, max, ks0, rs0, now);
        let w0 = cache_insert_all(v, max, ks0, rs0, now);
        lemma_insert_no_evict(w0, max, ks.last(), rs.last(), now);
        let w = cache_insert_all(v, max, ks, rs, now);
        assert(w == cache_insert(w0, max, ks.last(), rs.last(), now));
        assert forall|i: int| 0 <= i < ks.len() implies {
            let g = find_entry(w, #[trigger] ks[i], 0);
            0 <= g < w.len() && w[g] == (ks[i], rs[i], now)
        } by {
            if i < ks.len() - 1 {
                assert(ks0[i] == ks[i] && rs0[i] == rs[i]);
                assert(ks[i] != ks[ks.len() - 1]);
                let g = find_entry(w0, ks0[i], 0);
                assert(0 <= g < w0.len() && w0[g] == (ks0[i], rs0[i], now));
                assert(find_entry(cache_insert(w0, max, ks.last(), rs.last(), now), ks[i], 0) == g);
                assert(cache_insert(w0, max, ks.last(), rs.last(), now)[g] == w0[g]);
            } else {
                assert(ks[i] == ks.last() && rs[i] == rs.last());
            }
        }
    }
}

/// Inserting keeps every key at most once.
proof fn lemma_insert_keeps_distinct(
    v: Seq<(Seq<char>, Seq<char>, u64)>,
    max: usize,
    k: Seq<char>,
    r: Seq<char>,
    now: u64,
)
    requires
        cache_keys_distinct(v),
    ensures
        cache_keys_distinct(cache_insert(v, max, k, r, now)),
{
    let v1 = if v.len() >= max && v.len() > 0 {
        lemma_oldest(v, 1, 0);
        let o = oldest_from(v, 1, 0);
        let u = v.remove(o);
        assert forall|i: int, j: int| 0 <= i < j < u.len() implies #[trigger] u[i].0 != #[trigger] u[j].0 by {
            let a = if i < o { i } else { i + 1 };
            let b = if j < o { j } else { j + 1 };
            assert(u[i] == v[a] && u[j] == v[b]);
        }
        u
    } else {
        v
    };
    assert(cache_keys_distinct(v1));
    lemma_find_entry(v1, k, 0);
    let f = find_entry(v1, k, 0);
    let w = cache_insert(v, max, k, r, now);
    if f >= 0 {
        assert(w == v1.update(f, (k, r, now)));
        assert forall|i: int, j: int| 0 <= i < j < w.len() implies #[trigger] w[i].0 != #[trigger] w[j].0 by {
            assert(w[i].0 == v1[i].0 && w[j].0 == v1[j].0);
        }
    } else {
        assert(w == v1.push((k, r, now)));
        assert forall|i: int, j: int| 0 <= i < j < w.len() implies #[trigger] w[i].0 != #[trigger] w[j].0 by {
            if j < v1.len() {
                assert(w[i] == v1[i] && w[j] == v1[j]);
            } else {
                assert(w[i] == v1[i]);
            }
        }
    }
}

impl TranslationCache {
    /// Well-formed: no key is stored twice.
    pub open spec fn wf(&self) -> bool {
        cache_keys_distinct(cache_view(self.entries@))
    }

    /// An empty cache.
    pub fn new(ttl_ms: u64, max_entries: usize) -> (c: Self)
        ensures
            c.entries@.len() == 0,
            c.wf(),
            c.ttl_ms == ttl_ms,
            c.max_entries == max_entries,
    {
        TranslationCache { entries: Vec::new(), ttl_ms, max_entries }
    }

    fn position(&self, key: &str) -> (r: Option<usize>)
        ensures
            match r {
                Some(i) => i as int == find_entry(cache_view(self.entries@), key@, 0) && i
                    < self.entries@.len(),
                None => find_entry(cache_view(self.entries@), key@, 0) == -1,
            },
    {
        let ghost v = cache_view(self.entries@);
        let mut i: usize = 0;
        while i < self.entries.len()
            invariant
                i <= self.entries@.len(),
                v == cache_view(self.entries@),
                find_entry(v, key@, 0) == find_entry(v, key@, i as int),
            decreases self.entries.len() - i,
        {
            if str_eq(self.entries[i].key.as_str(), key) {
                assert(v[i as int].0 == key@);
                return Some(i);
            }
            assert(v[i as int].0 != key@);
            i = i + 1;
        }
        None
    }

    /// The cached translation for `key`, unless it is older than the
    /// lifetime at `now_ms`.
    pub fn get(&self, key: &str, now_ms: u64) -> (r: Option<&str>)
        ensures
            match (r, cache_lookup(cache_view(self.entries@), self.ttl_ms, key@, now_ms)) {
                (Some(s), Some(t)) => s@ == t,
                (None, None) => true,
                _ => false,
            },
    {
        match self.position(key) {
            Some(i) => {
                let e = &self.entries[i];
                let age = if now_ms >= e.inserted_at_ms {
                    now_ms - e.inserted_at_ms
                } else {
                    0
                };
                if age < self.ttl_ms {
                    Some(e.result.as_str())
                } else {
                    None
                }
            },
            None => None,
        }
    }

    /// Stores a translation at `now_ms`; when the cache is full, the oldest
    /// entry goes first.
    pub fn insert(&mut self, key: String, result: String, now_ms: u64)
        ensures
            cache_view(final(self).entries@) == cache_insert(
                cache_view(old(self).entries@),
                old(self).max_entries,
                key@,
                result@,
                now_ms,
            ),
            old(self).wf() ==> final(self).wf(),
            final(self).ttl_ms == old(self).ttl_ms,
            final(self).max_entries == old(self).max_entries,
    {
        proof {
            if self.wf() {
                lemma_insert_keeps_distinct(
                    cache_view(self.entries@),
                    self.max_entries,
                    key@,
                    result@,
                    now_ms,
                );
            }
        }
        let ghost v0 = cache_view(self.entries@);
        if self.entries.len() >= self.max_entries && self.entries.len() > 0 {
            let mut best: usize = 0;
            let mut j: usize = 1;
            while j < self.entries.len()
                invariant
                    0 <= best < j <= self.entries@.len(),
                    v0 == cache_view(self.entries@),
                    oldest_from(v0, j as int, best as int) == oldest_from(v0, 1, 0),
                decreases self.entries.len() - j,
            {
                if self.entries[j].inserted_at_ms < self.entries[best].inserted_at_ms {
                    best = j;
                }
                j = j + 1;
            }
            let ghost before = self.entries@;
            let _removed = self.entries.remove(best);
            assert(cache_view(self.entries@) =~= v0.remove(best as int));
        }
        let ghost v1 = cache_view(self.entries@);
        match self.position(key.as_str()) {
            Some(i) => {
                let ghost kv = key@;
                let ghost rv = result@;
                self.entries.set(i, CacheEntry { key, result, inserted_at_ms: now_ms });
                assert(cache_view(self.entries@) =~= v1.update(i as int, (kv, rv, now_ms)));
            },
            None => {
                let ghost kv = key@;
                let ghost rv = result@;
                self.entries.push(CacheEntry { key, result, inserted_at_ms: now_ms });
                assert(cache_view(self.entries@) =~= v1.push((kv, rv, now_ms)));
            },
        }
    }

    /// Drops every entry.
    pub fn clear(&mut self)
        ensures
            final(self).entries@.len() == 0,
            final(self).wf(),
            final(self).ttl_ms == old(self).ttl_ms,
            final(self).max_entries == old(self).max_entries,
    {
        self.entries.clear();
    }

    /// The number of entries.
    pub fn len(&self) -> (n: usize)
        ensures
            n == self.entries@.len(),
    {
        self.entries.len()
    }
}

/// The positions of the texts still to translate (an empty result counts as
/// missing), in order.
pub open spec fn missing_positions(v: Seq<Seq<char>>) -> Seq<usize>
    decreases v.len(),
{
    if v.len() == 0 {
        Seq::empty()
    } else {
        let rest = missing_positions(v.drop_last());
        if v.last().len() == 0 {
            rest.push((v.len() - 1) as usize)
        } else {
            rest
        }
    }
}

/// The lowercase hexadecimal digit for `d < 16`.
pub open spec fn hex_digit(d: nat) -> char {
    seq!['0', '1', '2', '3', '4', '5', '6', '7', '8', '9', 'a', 'b', 'c', 'd', 'e', 'f'][d as int]
}

/// The last `w` hexadecimal digits of `n`, zero-padded.
pub open spec fn hex_pad(n: nat, w: nat) -> Seq<char>
    decreases w,
{
    if w == 0 {
        Seq::empty()
    } else {
        hex_pad(n / 16, (w - 1) as nat).push(hex_digit(n % 16))
    }
}

/// A cache key from the hash of a text, its languages and the plugin: the
/// hash as 16 lowercase hexadecimal digits.
pub fn hash_key_text(hash: u64) -> (s: String)
    ensures
        s@ == hex_pad(hash as nat, 16),
{
    let table = ['0', '1', '2', '3', '4', '5', '6', '7', '8', '9', 'a', 'b', 'c', 'd', 'e', 'f'];
    assert(table@ =~= seq!['0', '1', '2', '3', '4', '5', '6', '7', '8', '9', 'a', 'b', 'c', 'd', 'e', 'f']);
    let mut out: Vec<char> = Vec::new();
    let mut n: u64 = hash;
    let mut k: usize = 0;
    while k < 16
        invariant
            k <= 16,
            table@ == seq!['0', '1', '2', '3', '4', '5', '6', '7', '8', '9', 'a', 'b', 'c', 'd', 'e', 'f'],
            hex_pad(hash as nat, 16) == hex_pad(n as nat, (16 - k) as nat) + out@,
        decreases 16 - k,
    {
        let d = (n % 16) as usize;
        let c = table[d];
        proof {
            let w = (16 - k) as nat;
            assert(hex_pad(n as nat, w) == hex_pad((n / 16) as nat, (w - 1) as nat).push(hex_digit(
                (n % 16) as nat,
            )));
            assert(c == hex_digit((n % 16) as nat));
            assert(hex_pad(n as nat, w) + out@ =~= hex_pad((n / 16) as nat, (w - 1) as nat) + seq![c]
                + out@);
        }
        let ghost before = out@;
        out.insert(0, c);
        assert(out@ =~= seq![c] + before);
        proof {
            assert(hex_pad((n / 16) as nat, ((16 - k) - 1) as nat) + seq![c] + before =~= hex_pad(
                (n / 16) as nat,
                ((16 - k) - 1) as nat,
            ) + out@);
        }
        n = n / 16;
        k = k + 1;
    }
    assert(hex_pad(n as nat, 0) + out@ =~= out@);
    crate::text::chars_to_string(out.as_slice())
}

/// The results known from the cache (empty where nothing was cached), and
/// the positions still to translate.
pub fn split_cached(cached: Vec<Option<String>>) -> (r: (Vec<String>, Vec<usize>))
    ensures
        string_views(r.0@) == cached@.map_values(
            |c: Option<String>|
                match c {
                    Some(s) => s@,
                    None => Seq::<char>::empty(),
                },
        ),
        r.1@ == missing_positions(string_views(r.0@)),
{
    let ghost goal = cached@.map_values(
        |c: Option<String>|
            match c {
                Some(s) => s@,
                None => Seq::<char>::empty(),
            },
    );
    let mut results: Vec<String> = Vec::new();
    let mut missing: Vec<usize> = Vec::new();
    let mut i: usize = 0;
    while i < cached.len()
        invariant
            i <= cached@.len(),
            goal == cached@.map_values(
                |c: Option<String>|
                    match c {
                        Some(s) => s@,
                        None => Seq::<char>::empty(),
                    },
            ),
            string_views(results@) == goal.take(i as int),
            missing@ == missing_positions(goal.take(i as int)),
        decreases cached.len() - i,
    {
        let s = match &cached[i] {
            Some(s) => s.clone(),
            None => String::new(),
        };
        proof {
            assert(goal.take(i + 1).drop_last() =~= goal.take(i as int));
            assert(goal.take(i + 1).last() == s@);
        }
        let empty = s.as_str().is_empty();
        let ghost before = results@;
        results.push(s);
        if empty {
            missing.push(i);
        }
        i = i + 1;
        proof {
            assert(string_views(results@) =~= goal.take(i as int));
        }
    }
    assert(goal.take(cached@.len() as int) =~= goal);
    (results, missing)
}

/// Puts the fresh translations into the positions that were missing: the
/// `i`-th fresh text goes to position `missing[i]`.
pub fn fill_fresh(results: &mut Vec<String>, missing: &[usize], fresh: Vec<String>)
    requires
        fresh@.len() <= missing@.len(),
        forall|i: int| 0 <= i < missing@.len() ==> #[trigger] missing@[i] < old(results)@.len(),
        forall|i: int, j: int| 0 <= i < j < missing@.len() ==> #[trigger] missing@[i] != #[trigger] missing@[j],
    ensures
        final(results)@.len() == old(results)@.len(),
        forall|i: int| 0 <= i < fresh@.len() ==> #[trigger] final(results)@[missing@[i] as int] == fresh@[i],
        forall|p: int|
            0 <= p < old(results)@.len() && (forall|i: int| 0 <= i < fresh@.len() ==> #[trigger] missing@[i] != p)
                ==> final(results)@[p] == old(results)@[p],
{
    let ghost r0 = results@;
    let mut i: usize = 0;
    let n = fresh.len();
    let ghost f0 = fresh@;
    while i < n
        invariant
            fresh@ == f0,
            n == f0.len(),
            n <= missing@.len(),
            i <= n,
            results@.len() == r0.len(),
            forall|k: int| 0 <= k < missing@.len() ==> #[trigger] missing@[k] < r0.len(),
            forall|a: int, b: int| 0 <= a < b < missing@.len() ==> #[trigger] missing@[a] != #[trigger] missing@[b],
            forall|k: int| 0 <= k < i ==> #[trigger] results@[missing@[k] as int] == f0[k],
            forall|p: int|
                0 <= p < r0.len() && (forall|k: int| 0 <= k < i ==> #[trigger] missing@[k] != p)
                    ==> results@[p] == r0[p],
        decreases n - i,
    {
        let t = f0_get(&fresh, i);
        let ghost before = results@;
        results.set(missing[i], t);
        proof {
            assert forall|k: int| 0 <= k < i + 1 implies #[trigger] results@[missing@[k] as int] == f0[k] by {
                if k < i {
                    assert(missing@[k] != missing@[i as int]);
                }
            }
        }
        i = i + 1;
    }
}

/// A copy of the `i`-th string.
fn f0_get(v: &Vec<String>, i: usize) -> (s: String)
    requires
        i < v@.len(),
    ensures
        s == v@[i as int],
{
    v[i].clone()
}

} // verus!
