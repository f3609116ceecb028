//! A small string-to-string map kept as a list of pairs, each key at most
//! once; configuration values of translation services live in it.

use crate::text::str_eq;
use vstd::prelude::*;

verus! {

/// Configuration values by field key.
#[derive(Debug, Clone)]
pub struct FieldMap {
    pub entries: Vec<(String, String)>,
}

/// Position of the first entry with key `k` at or after `j`, or -1.
pub open spec fn find_key<V>(s: Seq<(String, V)>, k: Seq<char>, j: int) -> int
    decreases s.len() - j,
{
    if j < 0 || j >= s.len() {
        -1
    } else if s[j].0@ == k {
        j
    } else {
        find_key(s, k, j + 1)
    }
}

/// The map the pairs stand for: each key with the value of its first entry.
pub open spec fn pairs_map(s: Seq<(String, String)>) -> Map<Seq<char>, Seq<char>> {
    Map::new(|k: Seq<char>| find_key(s, k, 0) >= 0, |k: Seq<char>| s[find_key(s, k, 0)].1@)
}

/// The value of `k`, or the empty string.
pub open spec fn value_or_empty(m: Map<Seq<char>, Seq<char>>, k: Seq<char>) -> Seq<char> {
    if m.contains_key(k) {
        m[k]
    } else {
        Seq::empty()
    }
}

pub proof fn lemma_find_key<V>(s: Seq<(String, V)>, k: Seq<char>, j: int)
    requires
        0 <= j <= s.len(),
    ensures
        find_key(s, k, j) >= -1,
        find_key(s, k, j) == -1 <==> forall|i: int| #![trigger s[i]] j <= i < s.len() ==> s[i].0@ != k,
        find_key(s, k, j) >= 0 ==> j <= find_key(s, k, j) < s.len() && s[find_key(s, k, j)].0@ == k
            && forall|i: int| #![trigger s[i]] j <= i < find_key(s, k, j) ==> s[i].0@ != k,
    decreases s.len() - j,
{
    if j < s.len() && s[j].0@ != k {
        lemma_find_key(s, k, j + 1);
    }
}

/// `find_key` depends only on the keys.
pub proof fn lemma_find_same_keys<V>(s: Seq<(String, V)>, t: Seq<(String, V)>, k: Seq<char>)
    requires
        s.len() == t.len(),
        forall|i: int| 0 <= i < s.len() ==> #[trigger] s[i].0@ == t[i].0@,
    ensures
        find_key(s, k, 0) == find_key(t, k, 0),
{
    lemma_find_key(s, k, 0);
    lemma_find_key(t, k, 0);
    let fs = find_key(s, k, 0);
    let ft = find_key(t, k, 0);
    assert(fs == -1 || fs >= 0);
    assert(ft == -1 || ft >= 0);
    if fs == -1 && ft >= 0 {
        assert(t[ft].0@ == k);
        assert(s[ft].0@ == t[ft].0@);
        assert(s[ft].0@ != k);
        assert(false);
    }
    if fs >= 0 {
        assert(s[fs].0@ == t[fs].0@);
        if ft >= 0 && ft < fs {
            assert(s[ft].0@ == t[ft].0@);
        }
    }
    if ft >= 0 {
        assert(s[ft].0@ == t[ft].0@);
        if fs >= 0 && fs < ft {
            assert(s[fs].0@ == t[fs].0@);
        }
    }
}

/// Appending a pair with a new key adds exactly that key.
pub proof fn lemma_find_push<V>(s: Seq<(String, V)>, p: (String, V), k: Seq<char>)
    requires
        find_key(s, p.0@, 0) == -1,
    ensures
        k == p.0@ ==> find_key(s.push(p), k, 0) == s.len(),
        k != p.0@ ==> find_key(s.push(p), k, 0) == find_key(s, k, 0),
{
    let t = s.push(p);
    lemma_find_key(s, k, 0);
    lemma_find_key(t, k, 0);
    lemma_find_key(s, p.0@, 0);
    let fs = find_key(s, k, 0);
    let ft = find_key(t, k, 0);
    if k == p.0@ {
        assert(t[s.len() as int].0@ == k);
        if ft >= 0 && ft < s.len() {
            assert(t[ft] == s[ft]);
        }
    } else {
        if fs >= 0 {
            assert(t[fs] == s[fs]);
            if ft >= 0 && ft < fs {
                assert(t[ft] == s[ft]);
            }
        }
        if ft >= 0 {
            if ft < s.len() {
                assert(t[ft] == s[ft]);
            } else {
                assert(t[ft] == p);
            }
        }
    }
}

/// No key occurs in two entries.
pub open spec fn keys_distinct<V>(s: Seq<(String, V)>) -> bool {
    forall|i: int, j: int| 0 <= i < j < s.len() ==> #[trigger] s[i].0@ != #[trigger] s[j].0@
}

/// Appending a pair whose key is absent keeps the keys distinct.
pub proof fn lemma_push_keeps_distinct<V>(s: Seq<(String, V)>, p: (String, V))
    requires
        keys_distinct(s),
        find_key(s, p.0@, 0) == -1,
    ensures
        keys_distinct(s.push(p)),
{
    lemma_find_key(s, p.0@, 0);
    let t = s.push(p);
    assert forall|i: int, j: int| 0 <= i < j < t.len() implies #[trigger] t[i].0@ != #[trigger] t[j].0@ by {
        assert(t[i] == s[i]);
        if j < s.len() {
            assert(t[j] == s[j]);
        }
    }
}

/// Replacing entries by ones with the same keys keeps the keys distinct.
pub proof fn lemma_same_keys_distinct<V>(s: Seq<(String, V)>, t: Seq<(String, V)>)
    requires
        keys_distinct(s),
        s.len() == t.len(),
        forall|i: int| 0 <= i < s.len() ==> #[trigger] s[i].0@ == t[i].0@,
    ensures
        keys_distinct(t),
{
    assert forall|i: int, j: int| 0 <= i < j < t.len() implies #[trigger] t[i].0@ != #[trigger] t[j].0@ by {
        assert(s[i].0@ == t[i].0@ && s[j].0@ == t[j].0@);
    }
}

impl View for FieldMap {
    type V = Map<Seq<char>, Seq<char>>;

    open spec fn view(&self) -> Map<Seq<char>, Seq<char>> {
        pairs_map(self.entries@)
    }
}

impl FieldMap {
    /// Well-formed: each key is stored once.
    pub open spec fn wf(&self) -> bool {
        keys_distinct(self.entries@)
    }

    /// No fields.
    pub fn new() -> (m: Self)
        ensures
            m@ == Map::<Seq<char>, Seq<char>>::empty(),
            m.wf(),
    {
        let m = FieldMap { entries: Vec::new() };
        assert(m@ =~= Map::<Seq<char>, Seq<char>>::empty());
        m
    }

    /// Position of the entry with key `key`.
    fn position(&self, key: &str) -> (r: Option<usize>)
        ensures
            match r {
                Some(i) => i as int == find_key(self.entries@, key@, 0) && i < self.entries@.len(),
                None => find_key(self.entries@, key@, 0) == -1,
            },
    {
        let mut i: usize = 0;
        while i < self.entries.len()
            invariant
                i <= self.entries@.len(),
                find_key(self.entries@, key@, 0) == find_key(self.entries@, key@, i as int),
            decreases self.entries.len() - i,
        {
            if str_eq(self.entries[i].0.as_str(), key) {
                return Some(i);
            }
            i = i + 1;
        }
        None
    }

    /// The value of `key`, or `""` when it has none.
    pub fn get(&self, key: &str) -> (v: &str)
        ensures
            v@ == value_or_empty(self@, key@),
    {
        match self.position(key) {
            Some(i) => self.entries[i].1.as_str(),
            None => {
                proof {
                    reveal_strlit("");
                }
                ""
            },
        }
    }

    /// The field holds a value.
    pub fn contains_key(&self, key: &str) -> (b: bool)
        ensures
            b == self@.contains_key(key@),
    {
        self.position(key).is_some()
    }

    /// Sets `key` to `value`, replacing an earlier value.
    pub fn set(&mut self, key: &str, value: &str)
        ensures
            final(self)@ == old(self)@.insert(key@, value@),
            old(self).wf() ==> final(self).wf(),
    {
        let ghost s0 = self.entries@;
        match self.position(key) {
            Some(i) => {
                let k = self.entries[i].0.clone();
                self.entries.set(i, (k, value.to_owned()));
                proof {
                    let s1 = self.entries@;
                    assert forall|j: int| 0 <= j < s0.len() implies #[trigger] s0[j].0@ == s1[j].0@ by {}
                    if keys_distinct(s0) {
                        lemma_same_keys_distinct(s0, s1);
                    }
                    let m1 = pairs_map(s1);
                    let m2 = pairs_map(s0).insert(key@, value@);
                    assert forall|k2: Seq<char>| #[trigger] m1.dom().contains(k2) == m2.dom().contains(k2) by {
                        lemma_find_same_keys(s0, s1, k2);
                        lemma_find_key(s0, k2, 0);
                    }
                    assert forall|k2: Seq<char>| #[trigger] m2.dom().contains(k2) implies m1[k2] == m2[k2] by {
                        lemma_find_same_keys(s0, s1, k2);
                        lemma_find_key(s0, k2, 0);
                        let f = find_key(s0, k2, 0);
                        if k2 != key@ {
                            lemma_find_key(s0, key@, 0);
                            assert(f != i);
                            assert(s1[f] == s0[f]);
                        }
                    }
                    assert(m1.dom() =~= m2.dom());
                    assert(m1 =~= m2);
                }
            },
            None => {
                let pair = (key.to_owned(), value.to_owned());
                let ghost p = pair;
                self.entries.push(pair);
                proof {
                    let s1 = self.entries@;
                    assert(s1 =~= s0.push(p));
                    if keys_distinct(s0) {
                        lemma_push_keeps_distinct(s0, p);
                    }
                    assert forall|k2: Seq<char>| #[trigger] pairs_map(s1).dom().contains(k2) == pairs_map(
                        s0,
                    ).insert(key@, value@).dom().contains(k2) by {
                        lemma_find_push(s0, p, k2);
                        lemma_find_key(s0, k2, 0);
                    }
                    assert forall|k2: Seq<char>| #[trigger] pairs_map(s1).dom().contains(k2) implies pairs_map(
                        s1,
                    )[k2] == pairs_map(s0).insert(key@, value@)[k2] by {
                        lemma_find_push(s0, p, k2);
                        if k2 != key@ {
                            let f = find_key(s0, k2, 0);
                            lemma_find_key(s0, k2, 0);
                            assert(s1[f] == s0[f]);
                        } else {
                            assert(s1[s0.len() as int] == p);
                        }
                    }
                    let m1 = pairs_map(s1);
                    let m2 = pairs_map(s0).insert(key@, value@);
                    assert(m1.dom() =~= m2.dom());
                    assert forall|k2: Seq<char>| #[trigger] m2.dom().contains(k2) implies m1[k2] == m2[k2] by {
                        assert(m1.dom().contains(k2));
                    }
                    assert(m1 =~= m2);
                }
            },
        }
    }
}

impl FieldMap {
    /// A copy with the same values.
    pub fn copy(&self) -> (r: FieldMap)
        ensures
            r@ == self@,
            self.wf() ==> r.wf(),
    {
        let mut entries: Vec<(String, String)> = Vec::new();
        let mut i: usize = 0;
        while i < self.entries.len()
            invariant
                i <= self.entries@.len(),
                entries@.len() == i,
                forall|j: int| 0 <= j < i ==> (#[trigger] entries@[j]).0@ == self.entries@[j].0@
                    && entries@[j].1@ == self.entries@[j].1@,
            decreases self.entries.len() - i,
        {
            let k = self.entries[i].0.clone();
            let v = self.entries[i].1.clone();
            entries.push((k, v));
            i = i + 1;
        }
        let r = FieldMap { entries };
        proof {
            let s = self.entries@;
            let t = r.entries@;
            assert forall|k: Seq<char>| true implies #[trigger] find_key(t, k, 0) == find_key(s, k, 0) by {
                lemma_find_same_keys(t, s, k);
            }
            assert forall|k: Seq<char>| #[trigger] pairs_map(t).dom().contains(k) == pairs_map(s).dom().contains(k) by {
                lemma_find_same_keys(t, s, k);
            }
            assert forall|k: Seq<char>| #[trigger] pairs_map(s).dom().contains(k) implies pairs_map(t)[k] == pairs_map(s)[k] by {
                lemma_find_same_keys(t, s, k);
                lemma_find_key(s, k, 0);
            }
            assert(pairs_map(t).dom() =~= pairs_map(s).dom());
            assert(pairs_map(t) =~= pairs_map(s));
            if keys_distinct(s) {
                lemma_same_keys_distinct(s, t);
            }
        }
        r
    }
}

/// What a write gives a later read: `get` after `set` of the same key yields
/// the value written, and other keys keep their values.
pub proof fn lemma_set_then_get(m: Map<Seq<char>, Seq<char>>, k: Seq<char>, v: Seq<char>, other: Seq<char>)
    ensures
        value_or_empty(m.insert(k, v), k) == v,
        other != k ==> value_or_empty(m.insert(k, v), other) == value_or_empty(m, other),
{
}

} // verus!
