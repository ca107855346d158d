//! The labels of a task: a map from keys to values, walked in key order.

use vstd::prelude::*;
use vstd::string::*;
use crate::text::{lemma_less_irreflexive, lemma_less_total, lemma_less_transitive};
use crate::text::{precedes, same_text, text_less};

verus! {

/// What a set of labels is: each key with its value.
pub type LabelMap = Map<Seq<char>, Seq<char>>;

/// A key and its value.
pub type LabelPair = (Seq<char>, Seq<char>);

/// The `i`-th pair has the key `k`.
pub open spec fn key_at(p: Seq<LabelPair>, k: Seq<char>, i: int) -> bool {
    0 <= i < p.len() && p[i].0 == k
}

/// The pairs in strictly ascending order of their keys.
pub open spec fn keys_ascend(p: Seq<LabelPair>) -> bool {
    forall|i: int, j: int| 0 <= i < j < p.len() ==> text_less(#[trigger] p[i].0, #[trigger] p[j].0)
}

/// The map that a list of pairs with different keys writes down.
pub open spec fn pair_map(p: Seq<LabelPair>) -> LabelMap {
    Map::new(
        |k: Seq<char>| exists|i: int| key_at(p, k, i),
        |k: Seq<char>| p[choose|i: int| key_at(p, k, i)].1,
    )
}

/// The views of a list of pairs of strings.
pub open spec fn pair_views(v: Seq<(String, String)>) -> Seq<LabelPair> {
    v.map_values(|e: (String, String)| (e.0@, e.1@))
}

/// With ascending keys each pair is the entry of its key.
pub proof fn lemma_pair_entry(p: Seq<LabelPair>, i: int)
    requires
        keys_ascend(p),
        0 <= i < p.len(),
    ensures
        pair_map(p).dom().contains(p[i].0),
        pair_map(p)[p[i].0] == p[i].1,
{
    let k = p[i].0;
    assert(key_at(p, k, i));
    let j = choose|j: int| key_at(p, k, j);
    assert(key_at(p, k, j));
    lemma_less_irreflexive(k);
    assert(i == j);
}

/// Lists of pairs with ascending keys that write down the same map are equal.
pub proof fn lemma_pairs_canonical(p: Seq<LabelPair>, q: Seq<LabelPair>)
    requires
        keys_ascend(p),
        keys_ascend(q),
        pair_map(p) == pair_map(q),
    ensures
        p == q,
    decreases p.len(),
{
    if p.len() == 0 {
        if q.len() > 0 {
            lemma_pair_entry(q, 0);
            assert(pair_map(p).dom().contains(q[0].0));
        }
        assert(p =~= q);
    } else {
        lemma_pair_entry(p, 0);
        let j = choose|j: int| key_at(q, p[0].0, j);
        assert(key_at(q, p[0].0, j));
        lemma_pair_entry(q, j);
        lemma_pair_entry(q, 0);
        let i = choose|i: int| key_at(p, q[0].0, i);
        assert(key_at(p, q[0].0, i));
        if 0 < j {
            assert(text_less(q[0].0, q[j].0));
            if 0 < i {
                assert(text_less(p[0].0, p[i].0));
                lemma_less_transitive(p[0].0, p[i].0, q[j].0);
            }
            lemma_less_irreflexive(p[0].0);
        }
        assert(p[0] == q[0]);
        let pt = p.drop_first();
        let qt = q.drop_first();
        assert(pair_map(pt) =~= pair_map(qt)) by {
            lemma_tail_map(p);
            lemma_tail_map(q);
        }
        lemma_pairs_canonical(pt, qt);
        assert(p =~= seq![p[0]] + pt);
        assert(q =~= seq![q[0]] + qt);
    }
}

proof fn lemma_tail_map(p: Seq<LabelPair>)
    requires
        keys_ascend(p),
        p.len() > 0,
    ensures
        keys_ascend(p.drop_first()),
        pair_map(p.drop_first()) =~= pair_map(p).remove(p[0].0),
{
    let t = p.drop_first();
    assert(keys_ascend(t)) by {
        assert forall|i: int, j: int| 0 <= i < j < t.len() implies text_less(
            #[trigger] t[i].0,
            #[trigger] t[j].0,
        ) by {
            assert(t[i] == p[i + 1] && t[j] == p[j + 1]);
        }
    }
    lemma_less_irreflexive(p[0].0);
    assert forall|k: Seq<char>|
        pair_map(t).dom().contains(k) <==> pair_map(p).remove(p[0].0).dom().contains(k) by {
        if pair_map(t).dom().contains(k) {
            let i = choose|i: int| key_at(t, k, i);
            assert(key_at(p, k, i + 1));
            assert(text_less(p[0].0, p[i + 1].0));
        }
        if pair_map(p).dom().contains(k) && k != p[0].0 {
            let i = choose|i: int| key_at(p, k, i);
            assert(key_at(p, k, i));
            assert(key_at(t, k, i - 1));
        }
    }
    assert forall|k: Seq<char>| pair_map(t).dom().contains(k) implies pair_map(t)[k] == pair_map(
        p,
    ).remove(p[0].0)[k] by {
        let i = choose|i: int| key_at(t, k, i);
        assert(key_at(t, k, i));
        lemma_pair_entry(t, i);
        lemma_pair_entry(p, i + 1);
        assert(t[i] == p[i + 1]);
    }
}

/// Whether a map can be written down as a list of pairs.
pub open spec fn is_label_map(m: LabelMap) -> bool {
    exists|p: Seq<LabelPair>| keys_ascend(p) && #[trigger] pair_map(p) == m
}

/// The entries of a map in key order.
pub open spec fn ordered_pairs(m: LabelMap) -> Seq<LabelPair> {
    choose|p: Seq<LabelPair>| keys_ascend(p) && #[trigger] pair_map(p) == m
}

/// A list of pairs with ascending keys is the list of its own map.
pub proof fn lemma_ordered_pairs(p: Seq<LabelPair>)
    requires
        keys_ascend(p),
    ensures
        is_label_map(pair_map(p)),
        ordered_pairs(pair_map(p)) == p,
{
    let m = pair_map(p);
    let q = ordered_pairs(m);
    assert(keys_ascend(p) && pair_map(p) == m);
    assert(keys_ascend(q) && pair_map(q) == m);
    lemma_pairs_canonical(q, p);
}

/// A map from label keys to label values.
#[derive(Debug, PartialEq, Eq)]
pub struct Labels {
    entries: Vec<(String, String)>,
}

impl View for Labels {
    type V = LabelMap;

    open spec fn view(&self) -> LabelMap {
        pair_map(self.pairs())
    }
}

impl Labels {
    /// The entries in key order.
    pub closed spec fn pairs(&self) -> Seq<LabelPair> {
        pair_views(self.entries@)
    }

    #[verifier::type_invariant]
    spec fn ordered(&self) -> bool {
        keys_ascend(pair_views(self.entries@))
    }

    /// No labels.
    pub fn new() -> (r: Labels)
        ensures
            r@ == LabelMap::empty(),
    {
        let r = Labels { entries: Vec::new() };
        assert(r@ =~= LabelMap::empty());
        r
    }

    /// The labels of a list of pairs whose keys ascend.
    pub fn from_ordered(entries: Vec<(String, String)>) -> (r: Labels)
        requires
            keys_ascend(pair_views(entries@)),
        ensures
            r.pairs() == pair_views(entries@),
            r@ == pair_map(pair_views(entries@)),
    {
        Labels { entries }
    }

    /// How many labels there are.
    pub fn len(&self) -> (r: usize)
        ensures
            r == self.pairs().len(),
    {
        self.entries.len()
    }

    /// Whether there is no label.
    pub fn is_empty(&self) -> (r: bool)
        ensures
            r == (self@ == LabelMap::empty()),
    {
        proof {
            use_type_invariant(self);
            if self.entries@.len() > 0 {
                lemma_pair_entry(self.pairs(), 0);
            } else {
                assert(self@ =~= LabelMap::empty());
            }
        }
        self.entries.len() == 0
    }

    /// The entries in key order.
    pub fn entries(&self) -> (r: &Vec<(String, String)>)
        ensures
            pair_views(r@) == self.pairs(),
            keys_ascend(self.pairs()),
            self.pairs() == ordered_pairs(self@),
            is_label_map(self@),
    {
        proof {
            use_type_invariant(self);
            lemma_ordered_pairs(self.pairs());
        }
        &self.entries
    }

    /// The value of `key`, if it is present.
    pub fn get(&self, key: &str) -> (r: Option<&str>)
        ensures
            r is Some <==> self@.dom().contains(key@),
            r matches Some(v) ==> v@ == self@[key@],
    {
        proof {
            use_type_invariant(self);
        }
        let mut i: usize = 0;
        while i < self.entries.len()
            invariant
                i <= self.entries.len(),
                keys_ascend(self.pairs()),
                forall|j: int| 0 <= j < i ==> (#[trigger] self.pairs()[j]).0 != key@,
            decreases self.entries.len() - i,
        {
            assert(self.pairs()[i as int] == (self.entries@[i as int].0@, self.entries@[i as int].1@));
            if same_text(self.entries[i].0.as_str(), key) {
                proof {
                    lemma_pair_entry(self.pairs(), i as int);
                }
                return Some(self.entries[i].1.as_str());
            }
            i = i + 1;
        }
        None
    }

    /// Sets the value of `key`.
    pub fn insert(&mut self, key: String, value: String)
        ensures
            final(self)@ == old(self)@.insert(key@, value@),
    {
        proof {
            use_type_invariant(&*self);
        }
        let ghost before = self.pairs();
        let mut v: Vec<(String, String)> = Vec::new();
        std::mem::swap(&mut v, &mut self.entries);
        let mut at: usize = 0;
        while at < v.len() && precedes(v[at].0.as_str(), key.as_str())
            invariant
                at <= v.len(),
                pair_views(v@) == before,
                forall|j: int| 0 <= j < at ==> text_less((#[trigger] before[j]).0, key@),
            decreases v.len() - at,
        {
            assert(before[at as int] == (v@[at as int].0@, v@[at as int].1@));
            at = at + 1;
        }
        if at < v.len() {
            assert(before[at as int] == (v@[at as int].0@, v@[at as int].1@));
        }
        let ghost pair = (key@, value@);
        if at < v.len() && same_text(v[at].0.as_str(), key.as_str()) {
            v.set(at, (key, value));
            assert(pair_views(v@) =~= before.update(at as int, pair));
            proof {
                lemma_replace(before, at as int, pair);
            }
        } else {
            v.insert(at, (key, value));
            assert(pair_views(v@) =~= before.insert(at as int, pair));
            proof {
                lemma_put_in(before, at as int, pair);
            }
        }
        self.entries = v;
    }

    /// Whether two sets of labels are the same.
    pub fn same(&self, other: &Labels) -> (r: bool)
        ensures
            r == (self@ == other@),
    {
        proof {
            use_type_invariant(self);
            use_type_invariant(other);
            if self@ == other@ {
                lemma_pairs_canonical(self.pairs(), other.pairs());
            }
        }
        assert(self.pairs().len() == self.entries@.len());
        assert(other.pairs().len() == other.entries@.len());
        if self.entries.len() != other.entries.len() {
            return false;
        }
        let mut i: usize = 0;
        while i < self.entries.len()
            invariant
                i <= self.entries.len(),
                self.entries.len() == other.entries.len(),
                self@ == other@ ==> self.pairs() == other.pairs(),
                forall|j: int| 0 <= j < i ==> #[trigger] self.pairs()[j] == other.pairs()[j],
            decreases self.entries.len() - i,
        {
            let a = &self.entries[i];
            let b = &other.entries[i];
            assert(self.pairs()[i as int] == (a.0@, a.1@));
            assert(other.pairs()[i as int] == (b.0@, b.1@));
            if !same_text(a.0.as_str(), b.0.as_str()) || !same_text(a.1.as_str(), b.1.as_str()) {
                return false;
            }
            i = i + 1;
        }
        assert(self.pairs() =~= other.pairs());
        true
    }

    /// Sets every entry of `other`, in place of what was there under its key.
    pub fn extend(&mut self, other: &Labels)
        ensures
            final(self)@ == old(self)@.union_prefer_right(other@),
    {
        proof {
            use_type_invariant(other);
        }
        let ghost start = self@;
        let ghost all = other.pairs();
        let mut i: usize = 0;
        assert(start.union_prefer_right(pair_map(all.take(0))) =~= start);
        while i < other.entries.len()
            invariant
                i <= other.entries.len(),
                all == other.pairs(),
                keys_ascend(all),
                self@ == start.union_prefer_right(pair_map(all.take(i as int))),
            decreases other.entries.len() - i,
        {
            let e = &other.entries[i];
            assert(all[i as int] == (e.0@, e.1@));
            self.insert(e.0.clone(), e.1.clone());
            proof {
                lemma_take_map(all, i as int);
            }
            assert(self@ =~= start.union_prefer_right(pair_map(all.take(i + 1))));
            i = i + 1;
        }
        assert(all.take(i as int) =~= all);
    }
}

impl Clone for Labels {
    fn clone(&self) -> (r: Labels)
        ensures
            r@ == self@,
            r.pairs() == self.pairs(),
    {
        proof {
            use_type_invariant(self);
        }
        let mut v: Vec<(String, String)> = Vec::new();
        let mut i: usize = 0;
        while i < self.entries.len()
            invariant
                i <= self.entries.len(),
                pair_views(v@) == self.pairs().take(i as int),
            decreases self.entries.len() - i,
        {
            let ghost before = v@;
            v.push((self.entries[i].0.clone(), self.entries[i].1.clone()));
            let ghost e = (self.entries@[i as int].0@, self.entries@[i as int].1@);
            assert(pair_views(v@) =~= pair_views(before).push(e));
            assert(self.pairs().take(i + 1) =~= self.pairs().take(i as int).push(e));
            i = i + 1;
        }
        assert(pair_views(v@) =~= self.pairs());
        Labels { entries: v }
    }
}

/// One more pair of an ascending list is one more entry of its map.
pub proof fn lemma_take_map(p: Seq<LabelPair>, i: int)
    requires
        keys_ascend(p),
        0 <= i < p.len(),
    ensures
        pair_map(p.take(i + 1)) == pair_map(p.take(i)).insert(p[i].0, p[i].1),
{
    let a = p.take(i);
    let b = p.take(i + 1);
    assert(keys_ascend(a)) by {
        assert forall|x: int, y: int| 0 <= x < y < a.len() implies text_less(
            #[trigger] a[x].0,
            #[trigger] a[y].0,
        ) by {
            assert(text_less(p[x].0, p[y].0));
        }
    }
    assert forall|x: int| 0 <= x < a.len() implies text_less((#[trigger] a[x]).0, p[i].0) by {
        assert(text_less(p[x].0, p[i].0));
    }
    assert(b =~= a.insert(i, p[i]));
    lemma_put_in(a, i, p[i]);
}

proof fn lemma_replace(p: Seq<LabelPair>, at: int, e: LabelPair)
    requires
        keys_ascend(p),
        0 <= at < p.len(),
        p[at].0 == e.0,
    ensures
        keys_ascend(p.update(at, e)),
        pair_map(p.update(at, e)) == pair_map(p).insert(e.0, e.1),
{
    let q = p.update(at, e);
    assert(keys_ascend(q)) by {
        assert forall|i: int, j: int| 0 <= i < j < q.len() implies text_less(
            #[trigger] q[i].0,
            #[trigger] q[j].0,
        ) by {
            assert(text_less(p[i].0, p[j].0));
        }
    }
    let m = pair_map(p).insert(e.0, e.1);
    assert forall|k: Seq<char>| pair_map(q).dom().contains(k) <==> m.dom().contains(k) by {
        if pair_map(q).dom().contains(k) {
            let i = choose|i: int| key_at(q, k, i);
            assert(key_at(p, k, i));
        }
        if m.dom().contains(k) {
            if k == e.0 {
                assert(key_at(q, k, at));
            } else {
                let i = choose|i: int| key_at(p, k, i);
                assert(key_at(p, k, i));
                assert(key_at(q, k, i));
            }
        }
    }
    assert forall|k: Seq<char>| pair_map(q).dom().contains(k) implies pair_map(q)[k] == m[k] by {
        let i = choose|i: int| key_at(q, k, i);
        assert(key_at(q, k, i));
        lemma_pair_entry(q, i);
        lemma_pair_entry(p, i);
        lemma_pair_entry(q, at);
    }
    assert(pair_map(q) =~= m);
}

proof fn lemma_put_in(p: Seq<LabelPair>, at: int, e: LabelPair)
    requires
        keys_ascend(p),
        0 <= at <= p.len(),
        forall|j: int| 0 <= j < at ==> text_less((#[trigger] p[j]).0, e.0),
        at < p.len() ==> p[at].0 != e.0 && !text_less(p[at].0, e.0),
    ensures
        keys_ascend(p.insert(at, e)),
        pair_map(p.insert(at, e)) == pair_map(p).insert(e.0, e.1),
{
    let q = p.insert(at, e);
    assert forall|j: int| at <= j < p.len() implies text_less(e.0, (#[trigger] p[j]).0) by {
        lemma_less_total(p[at].0, e.0);
        if at < j {
            assert(text_less(p[at].0, p[j].0));
            lemma_less_transitive(e.0, p[at].0, p[j].0);
        }
    }
    assert(keys_ascend(q)) by {
        assert forall|i: int, j: int| 0 <= i < j < q.len() implies text_less(
            #[trigger] q[i].0,
            #[trigger] q[j].0,
        ) by {
            let a = if i < at { i } else { i - 1 };
            let b = if j < at { j } else { j - 1 };
            if i == at {
                assert(q[j] == p[b]);
            } else if j == at {
                assert(q[i] == p[a]);
            } else {
                assert(q[i] == p[a] && q[j] == p[b]);
                assert(text_less(p[a].0, p[b].0));
            }
        }
    }
    let m = pair_map(p).insert(e.0, e.1);
    assert forall|k: Seq<char>| pair_map(q).dom().contains(k) <==> m.dom().contains(k) by {
        if pair_map(q).dom().contains(k) {
            let i = choose|i: int| key_at(q, k, i);
            assert(key_at(q, k, i));
            if i < at {
                assert(key_at(p, k, i));
            } else if i > at {
                assert(key_at(p, k, i - 1));
            }
        }
        if m.dom().contains(k) {
            if k == e.0 {
                assert(key_at(q, k, at));
            } else {
                let i = choose|i: int| key_at(p, k, i);
                assert(key_at(p, k, i));
                if i < at {
                    assert(key_at(q, k, i));
                } else {
                    assert(key_at(q, k, i + 1));
                }
            }
        }
    }
    assert forall|k: Seq<char>| pair_map(q).dom().contains(k) implies pair_map(q)[k] == m[k] by {
        let i = choose|i: int| key_at(q, k, i);
        assert(key_at(q, k, i));
        lemma_pair_entry(q, i);
        lemma_pair_entry(q, at);
        if i < at {
            lemma_pair_entry(p, i);
            lemma_less_irreflexive(e.0);
        } else if i > at {
            lemma_pair_entry(p, i - 1);
            lemma_less_irreflexive(e.0);
        }
    }
    assert(pair_map(q) =~= m);
}

} // verus!
