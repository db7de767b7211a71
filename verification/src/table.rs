//! Tables that are looked up by a text.
use vstd::prelude::*;

use crate::text;

verus! {

/// The map that a row of entries spells; a later entry replaces an earlier one
/// of the same key.
pub open spec fn pairs_map<K, V>(s: Seq<(K, V)>) -> Map<K, V>
    decreases s.len(),
{
    if s.len() == 0 {
        Map::empty()
    } else {
        pairs_map(s.drop_last()).insert(s.last().0, s.last().1)
    }
}

/// Whether no key occurs twice.
pub open spec fn distinct_keys<K, V>(s: Seq<(K, V)>) -> bool {
    forall|i: int, j: int| 0 <= i < j < s.len() ==> (#[trigger] s[i]).0 != (#[trigger] s[j]).0
}

/// Where no key occurs twice, the map holds each entry, and nothing else.
pub proof fn lemma_pairs_map<K, V>(s: Seq<(K, V)>)
    requires
        distinct_keys(s),
    ensures
        forall|i: int|
            0 <= i < s.len() ==> pairs_map(s).contains_key((#[trigger] s[i]).0) && pairs_map(
                s,
            )[s[i].0] == s[i].1,
        forall|k: K|
            pairs_map(s).contains_key(k) ==> exists|i: int| 0 <= i < s.len() && (#[trigger] s[i]).0 == k,
        pairs_map(s).dom().finite(),
        pairs_map(s).dom().len() == s.len(),
    decreases s.len(),
{
    if s.len() > 0 {
        let t = s.drop_last();
        lemma_pairs_map(t);
        assert forall|i: int| 0 <= i < s.len() implies pairs_map(s).contains_key((#[trigger] s[i]).0)
            && pairs_map(s)[s[i].0] == s[i].1 by {
            if i < t.len() {
                assert(t[i] == s[i]);
                assert(s[i].0 != s[s.len() - 1].0);
            }
        }
        assert forall|k: K| pairs_map(s).contains_key(k) implies exists|i: int|
            0 <= i < s.len() && (#[trigger] s[i]).0 == k by {
            if k == s.last().0 {
                assert(s[s.len() - 1].0 == k);
            } else {
                let i = choose|i: int| 0 <= i < t.len() && (#[trigger] t[i]).0 == k;
                assert(s[i].0 == k);
            }
        }
        if pairs_map(t).contains_key(s.last().0) {
            let i = choose|i: int| 0 <= i < t.len() && (#[trigger] t[i]).0 == s.last().0;
            assert(s[i].0 == s[s.len() - 1].0);
        }
        assert(pairs_map(s).dom() =~= pairs_map(t).dom().insert(s.last().0));
    }
}

/// A map is what `pairs_map` makes of a row of distinct entries where it holds
/// each of them and nothing else.
pub proof fn lemma_pairs_map_is<K, V>(s: Seq<(K, V)>, m: Map<K, V>)
    requires
        distinct_keys(s),
        forall|i: int|
            0 <= i < s.len() ==> m.contains_key((#[trigger] s[i]).0) && m[s[i].0] == s[i].1,
        forall|k: K|
            m.contains_key(k) ==> exists|i: int| 0 <= i < s.len() && (#[trigger] s[i]).0 == k,
    ensures
        pairs_map(s) == m,
{
    lemma_pairs_map(s);
    assert forall|k: K| pairs_map(s).contains_key(k) <==> m.contains_key(k) by {
        if pairs_map(s).contains_key(k) {
            let i = choose|i: int| 0 <= i < s.len() && (#[trigger] s[i]).0 == k;
            assert(m.contains_key(s[i].0));
        }
        if m.contains_key(k) {
            let i = choose|i: int| 0 <= i < s.len() && (#[trigger] s[i]).0 == k;
            assert(pairs_map(s).contains_key(s[i].0));
        }
    }
    assert forall|k: K| m.contains_key(k) implies pairs_map(s)[k] == m[k] by {
        let i = choose|i: int| 0 <= i < s.len() && (#[trigger] s[i]).0 == k;
        assert(pairs_map(s)[s[i].0] == s[i].1);
    }
    assert(pairs_map(s) =~= m);
}

/// Taking an entry out of a row takes its key out of the map.
pub proof fn lemma_without<K, V>(s: Seq<(K, V)>, i: int)
    requires
        distinct_keys(s),
        0 <= i < s.len(),
    ensures
        distinct_keys(s.remove(i)),
        pairs_map(s.remove(i)) == pairs_map(s).remove(s[i].0),
{
    let t = s.remove(i);
    let m = pairs_map(s).remove(s[i].0);
    lemma_pairs_map(s);
    assert forall|a: int, b: int| 0 <= a < b < t.len() implies (#[trigger] t[a]).0 != (
    #[trigger] t[b]).0 by {
        let x = if a < i { a } else { a + 1 };
        let y = if b < i { b } else { b + 1 };
        assert(t[a] == s[x] && t[b] == s[y]);
        assert(s[x].0 != s[y].0);
    }
    assert forall|a: int| 0 <= a < t.len() implies m.contains_key((#[trigger] t[a]).0)
        && m[t[a].0] == t[a].1 by {
        let x = if a < i { a } else { a + 1 };
        assert(t[a] == s[x]);
        assert(s[x].0 != s[i].0);
    }
    assert forall|k: K| m.contains_key(k) implies exists|a: int|
        0 <= a < t.len() && (#[trigger] t[a]).0 == k by {
        let x = choose|x: int| 0 <= x < s.len() && (#[trigger] s[x]).0 == k;
        let a = if x < i { x } else { x - 1 };
        assert(t[a] == s[x]);
    }
    lemma_pairs_map_is(t, m);
}

/// Changing the value of an entry in a row changes it in the map.
pub proof fn lemma_changed<K, V>(s: Seq<(K, V)>, i: int, v: V)
    requires
        distinct_keys(s),
        0 <= i < s.len(),
    ensures
        distinct_keys(s.update(i, (s[i].0, v))),
        pairs_map(s.update(i, (s[i].0, v))) == pairs_map(s).insert(s[i].0, v),
{
    let t = s.update(i, (s[i].0, v));
    let m = pairs_map(s).insert(s[i].0, v);
    lemma_pairs_map(s);
    assert forall|a: int, b: int| 0 <= a < b < t.len() implies (#[trigger] t[a]).0 != (
    #[trigger] t[b]).0 by {
        assert(s[a].0 != s[b].0);
    }
    assert forall|a: int| 0 <= a < t.len() implies m.contains_key((#[trigger] t[a]).0)
        && m[t[a].0] == t[a].1 by {
        if a != i {
            assert(t[a] == s[a]);
            assert(s[a].0 != s[i].0);
        }
    }
    assert forall|k: K| m.contains_key(k) implies exists|a: int|
        0 <= a < t.len() && (#[trigger] t[a]).0 == k by {
        if k == s[i].0 {
            assert(t[i].0 == k);
        } else {
            let x = choose|x: int| 0 <= x < s.len() && (#[trigger] s[x]).0 == k;
            assert(t[x] == s[x]);
        }
    }
    lemma_pairs_map_is(t, m);
}

/// Adding an entry of a new key to a row adds it to the map.
pub proof fn lemma_added<K, V>(s: Seq<(K, V)>, k: K, v: V)
    requires
        distinct_keys(s),
        !pairs_map(s).contains_key(k),
    ensures
        distinct_keys(s.push((k, v))),
        pairs_map(s.push((k, v))) == pairs_map(s).insert(k, v),
{
    let t = s.push((k, v));
    lemma_pairs_map(s);
    assert(t.drop_last() =~= s);
    assert forall|a: int, b: int| 0 <= a < b < t.len() implies (#[trigger] t[a]).0 != (
    #[trigger] t[b]).0 by {
        assert(t[a] == s[a]);
        if b == t.len() - 1 {
            assert(pairs_map(s).contains_key(s[a].0));
        } else {
            assert(t[b] == s[b]);
        }
    }
}

/// Entries with the texts of their keys.
pub open spec fn text_keys<V>(s: Seq<(String, V)>) -> Seq<(Seq<char>, V)> {
    Seq::new(s.len(), |i: int| (s[i].0@, s[i].1))
}

/// A table of values by text.
#[derive(Debug)]
pub struct StringTable<V> {
    entries: Vec<(String, V)>,
}

impl<V> View for StringTable<V> {
    type V = Map<Seq<char>, V>;

    closed spec fn view(&self) -> Map<Seq<char>, V> {
        pairs_map(text_keys(self.entries@))
    }
}

impl<V> StringTable<V> {
    /// No key occurs twice.
    pub closed spec fn wf(&self) -> bool {
        distinct_keys(text_keys(self.entries@))
    }

    /// A table without entries.
    pub fn new() -> (r: Self)
        ensures
            r.wf(),
            r@ == Map::<Seq<char>, V>::empty(),
    {
        let r = StringTable { entries: Vec::new() };
        assert(text_keys(r.entries@) =~= seq![]);
        r
    }

    /// The place of a key, or the number of entries where there is no such key.
    fn find(&self, key: &str) -> (r: usize)
        requires
            self.wf(),
        ensures
            r <= self.entries@.len(),
            r < self.entries@.len() ==> self.entries@[r as int].0@ == key@ && self@.contains_key(
                key@,
            ) && self@[key@] == self.entries@[r as int].1,
            r == self.entries@.len() ==> !self@.contains_key(key@),
    {
        let ghost s = text_keys(self.entries@);
        proof {
            lemma_pairs_map(s);
        }
        let mut i: usize = 0;
        while i < self.entries.len()
            invariant
                s == text_keys(self.entries@),
                self@ == pairs_map(s),
                i <= self.entries@.len(),
                forall|j: int| 0 <= j < i ==> (#[trigger] s[j]).0 != key@,
                forall|j: int|
                    0 <= j < s.len() ==> pairs_map(s).contains_key((#[trigger] s[j]).0)
                        && pairs_map(s)[s[j].0] == s[j].1,
            decreases self.entries@.len() - i,
        {
            assert(s[i as int].0 == self.entries@[i as int].0@);
            if text::same_text(self.entries[i].0.as_str(), key) {
                return i;
            }
            i = i + 1;
        }
        i
    }

    /// Whether the table has an entry of this key.
    pub fn contains_key(&self, key: &str) -> (r: bool)
        requires
            self.wf(),
        ensures
            r == self@.contains_key(key@),
    {
        self.find(key) < self.entries.len()
    }

    /// The value of a key.
    pub fn get(&self, key: &str) -> (r: Option<&V>)
        requires
            self.wf(),
        ensures
            match r {
                Some(v) => self@.contains_key(key@) && *v == self@[key@],
                None => !self@.contains_key(key@),
            },
    {
        let i = self.find(key);
        if i < self.entries.len() {
            Some(&self.entries[i].1)
        } else {
            None
        }
    }

    /// Takes the entry of a key out.
    pub fn remove(&mut self, key: &str) -> (r: Option<V>)
        requires
            old(self).wf(),
        ensures
            final(self).wf(),
            final(self)@ == old(self)@.remove(key@),
            match r {
                Some(v) => old(self)@.contains_key(key@) && v == old(self)@[key@],
                None => !old(self)@.contains_key(key@),
            },
    {
        let i = self.find(key);
        let ghost s = text_keys(self.entries@);
        proof {
            lemma_pairs_map(s);
        }
        if i < self.entries.len() {
            let (_, v) = self.entries.remove(i);
            proof {
                lemma_without(s, i as int);
                assert(text_keys(self.entries@) =~= s.remove(i as int));
            }
            Some(v)
        } else {
            assert(self@.remove(key@) =~= self@);
            None
        }
    }

    /// Puts an entry in, in place of one of the same key.
    pub fn insert(&mut self, key: String, value: V) -> (r: Option<V>)
        requires
            old(self).wf(),
        ensures
            final(self).wf(),
            final(self)@ == old(self)@.insert(key@, value),
            match r {
                Some(v) => old(self)@.contains_key(key@) && v == old(self)@[key@],
                None => !old(self)@.contains_key(key@),
            },
    {
        let r = self.remove(key.as_str());
        let ghost s = text_keys(self.entries@);
        let ghost k = key@;
        self.entries.push((key, value));
        proof {
            lemma_added(s, k, value);
            assert(text_keys(self.entries@) =~= s.push((k, value)));
            assert(self@ =~= old(self)@.insert(k, value));
        }
        r
    }

    /// Takes all entries out, in some order.
    pub fn drain(&mut self) -> (r: Vec<(String, V)>)
        requires
            old(self).wf(),
        ensures
            final(self).wf(),
            final(self)@ == Map::<Seq<char>, V>::empty(),
            distinct_keys(text_keys(r@)),
            pairs_map(text_keys(r@)) == old(self)@,
    {
        let mut out: Vec<(String, V)> = Vec::new();
        std::mem::swap(&mut out, &mut self.entries);
        assert(text_keys(self.entries@) =~= seq![]);
        out
    }

    /// Takes all entries out.
    pub fn clear(&mut self)
        requires
            old(self).wf(),
        ensures
            final(self).wf(),
            final(self)@ == Map::<Seq<char>, V>::empty(),
    {
        self.entries.clear();
        assert(text_keys(self.entries@) =~= seq![]);
    }

    /// The keys, each once, in some order.
    pub fn keys(&self) -> (r: Vec<String>)
        requires
            self.wf(),
        ensures
            forall|i: int, j: int| 0 <= i < j < r@.len() ==> (#[trigger] r@[i])@ != (#[trigger] r@[j])@,
            forall|i: int| 0 <= i < r@.len() ==> self@.contains_key((#[trigger] r@[i])@),
            forall|k: Seq<char>|
                self@.contains_key(k) ==> exists|i: int| 0 <= i < r@.len() && (#[trigger] r@[i])@ == k,
    {
        let ghost s = text_keys(self.entries@);
        proof {
            lemma_pairs_map(s);
        }
        let mut out: Vec<String> = Vec::new();
        let mut i: usize = 0;
        while i < self.entries.len()
            invariant
                s == text_keys(self.entries@),
                i <= self.entries@.len(),
                out@.len() == i,
                forall|j: int| 0 <= j < i ==> (#[trigger] out@[j])@ == s[j].0,
            decreases self.entries@.len() - i,
        {
            out.push(self.entries[i].0.clone());
            i = i + 1;
        }
        proof {
            assert forall|k: Seq<char>| self@.contains_key(k) implies exists|i: int|
                0 <= i < out@.len() && (#[trigger] out@[i])@ == k by {
                let x = choose|x: int| 0 <= x < s.len() && (#[trigger] s[x]).0 == k;
                assert(out@[x]@ == k);
            }
            assert forall|i: int, j: int| 0 <= i < j < out@.len() implies (#[trigger] out@[i])@ != (
            #[trigger] out@[j])@ by {
                assert(s[i].0 != s[j].0);
            }
        }
        out
    }
}

impl StringTable<String> {
    /// Takes out all entries whose value is the text `value`.
    pub fn remove_values(&mut self, value: &str)
        requires
            old(self).wf(),
        ensures
            final(self).wf(),
            forall|k: Seq<char>|
                final(self)@.contains_key(k) <==> old(self)@.contains_key(k) && old(self)@[k]@
                    != value@,
            forall|k: Seq<char>| final(self)@.contains_key(k) ==> final(self)@[k] == old(self)@[k],
    {
        let mut i: usize = 0;
        let ghost before = self@;
        proof {
            lemma_pairs_map(text_keys(self.entries@));
        }
        while i < self.entries.len()
            invariant
                self.wf(),
                i <= self.entries@.len(),
                forall|j: int| 0 <= j < i ==> (#[trigger] self.entries@[j]).1@ != value@,
                forall|k: Seq<char>| #[trigger]
                    self@.contains_key(k) ==> before.contains_key(k) && self@[k] == before[k],
                forall|k: Seq<char>| #[trigger]
                    before.contains_key(k) && before[k]@ != value@ ==> self@.contains_key(k),
            decreases self.entries@.len() - i,
        {
            let ghost s = text_keys(self.entries@);
            proof {
                lemma_pairs_map(s);
                assert(s[i as int].1 == self.entries@[i as int].1);
            }
            if text::same_text(self.entries[i].1.as_str(), value) {
                let ghost was = self@;
                let _ = self.entries.remove(i);
                proof {
                    lemma_without(s, i as int);
                    assert(text_keys(self.entries@) =~= s.remove(i as int));
                    assert forall|k: Seq<char>| #[trigger] self@.contains_key(k) implies before.contains_key(
                        k,
                    ) && self@[k] == before[k] by {
                        assert(was.contains_key(k));
                    }
                }
            } else {
                i = i + 1;
            }
        }
        proof {
            let s = text_keys(self.entries@);
            lemma_pairs_map(s);
            assert forall|k: Seq<char>| self@.contains_key(k) implies self@[k]@ != value@ by {
                let x = choose|x: int| 0 <= x < s.len() && (#[trigger] s[x]).0 == k;
                assert(self.entries@[x].1@ != value@);
            }
        }
    }
}

} // verus!
