//! What a client asks for is what the server understands.

use vstd::prelude::*;
use vstd::string::*;
use crate::api::{present, query_filter, QueryView};
use crate::client::{collected_labels, filter_query, label_list, written_labels};
use crate::domain::{has_separator, lemma_names_read_back, parsed_label, FilterView};
use crate::domain::{TaskEventType, TaskList, TaskState};
use crate::errors::Fault;
use crate::labels::{is_label_map, key_at, keys_ascend, lemma_pair_entry, lemma_take_map};
use crate::labels::{ordered_pairs, pair_map, LabelMap, LabelPair};
use crate::sequences::lemma_filter_all;
use crate::text::{is_first, join, lemma_split_at, split, split_once, text_less, trimmed};

verus! {

broadcast use vstd::string::group_string_axioms;

/// A label that reads as itself once it is written as `key:value` between commas.
pub open spec fn plain_label(key: Seq<char>, value: Seq<char>) -> bool {
    &&& key.len() > 0
    &&& trimmed(key) == key
    &&& !has_separator(key)
    &&& !key.contains(',')
    &&& value.len() > 0
    &&& trimmed(value) == value
    &&& !value.contains('=')
    &&& !value.contains(',')
}

/// Every label is plain.
pub open spec fn plain_labels(m: LabelMap) -> bool {
    forall|k: Seq<char>| #[trigger] m.dom().contains(k) ==> plain_label(k, m[k])
}

/// The value of a parameter, if it is given.
pub open spec fn parameter(q: Seq<(Seq<char>, Seq<char>)>, name: Seq<char>) -> Option<Seq<char>> {
    if exists|i: int| key_at(q, name, i) {
        Some(q[choose|i: int| key_at(q, name, i)].1)
    } else {
        None
    }
}

/// The query that the server receives from these parameters.
pub open spec fn received(q: Seq<(Seq<char>, Seq<char>)>) -> QueryView {
    QueryView {
        watch: false,
        revision: None,
        list_name: parameter(q, "list"@),
        state: parameter(q, "state"@),
        labels: parameter(q, "labels"@),
    }
}

/// A plain label that was written reads as itself.
pub proof fn lemma_label_read_back(key: Seq<char>, value: Seq<char>)
    requires
        plain_label(key, value),
    ensures
        parsed_label(key + ":"@ + value) == Ok::<LabelPair, Seq<char>>((key, value)),
{
    reveal_strlit(":");
    let s = key + ":"@ + value;
    let n = key.len() as int;
    assert(!s.contains('=')) by {
        if s.contains('=') {
            let i = choose|i: int| 0 <= i < s.len() && s[i] == '=';
            if i < n {
                assert(key[i] == '=');
            } else if i > n {
                assert(value[i - n - 1] == '=');
            }
        }
    }
    assert(split_once(s, '=') is None) by {
        assert forall|i: int| !is_first(s, '=', i) by {}
    }
    assert(is_first(s, ':', n)) by {
        assert(s[n] == ':');
        assert forall|j: int| 0 <= j < n implies s[j] != ':' by {
            assert(s[j] == key[j]);
        }
    }
    lemma_split_at(s, ':', n);
    assert(s.take(n) =~= key);
    assert(s.skip(n + 1) =~= value);
}

/// Joining puts the separator after the first part, too.
pub proof fn lemma_join_first(parts: Seq<Seq<char>>, sep: Seq<char>)
    requires
        parts.len() >= 2,
    ensures
        join(parts, sep) == parts[0] + sep + join(parts.drop_first(), sep),
    decreases parts.len(),
{
    let front = parts.drop_last();
    let rest = parts.drop_first();
    if parts.len() == 2 {
        assert(front =~= seq![parts[0]]);
        assert(rest =~= seq![parts[1]]);
        assert(join(front, sep) == parts[0]);
        assert(join(rest, sep) == parts[1]);
    } else {
        lemma_join_first(front, sep);
        assert(front.drop_first() =~= rest.drop_last());
        assert(join(rest, sep) == join(rest.drop_last(), sep) + sep + rest.last());
        assert(parts[0] + sep + join(rest.drop_last(), sep) + sep + rest.last() =~= parts[0] + sep
            + (join(rest.drop_last(), sep) + sep + rest.last()));
    }
}

proof fn lemma_split_none(s: Seq<char>, c: char)
    requires
        !s.contains(c),
    ensures
        split(s, c) == seq![s],
{
    assert forall|i: int| !is_first(s, c, i) by {
        if is_first(s, c, i) {
            assert(s[i] == c);
        }
    }
}

/// Splitting what was joined gives the parts back, if none of them holds the
/// separator.
pub proof fn lemma_split_joined(parts: Seq<Seq<char>>)
    requires
        parts.len() > 0,
        forall|i: int| 0 <= i < parts.len() ==> !(#[trigger] parts[i]).contains(','),
    ensures
        split(join(parts, ","@), ',') == parts,
    decreases parts.len(),
{
    reveal_strlit(",");
    if parts.len() == 1 {
        lemma_split_none(parts[0], ',');
        assert(seq![parts[0]] =~= parts);
    } else {
        let rest = parts.drop_first();
        let tail = join(rest, ","@);
        let s = join(parts, ","@);
        lemma_join_first(parts, ","@);
        assert forall|i: int| 0 <= i < rest.len() implies !(#[trigger] rest[i]).contains(',') by {
            assert(rest[i] == parts[i + 1]);
        }
        lemma_split_joined(rest);
        let n = parts[0].len() as int;
        assert(s == parts[0] + ","@ + tail);
        assert(is_first(s, ',', n)) by {
            assert(s[n] == ',');
            assert forall|j: int| 0 <= j < n implies s[j] != ',' by {
                assert(s[j] == parts[0][j]);
                assert(!parts[0].contains(','));
            }
        }
        lemma_split_at(s, ',', n);
        assert(s.take(n) =~= parts[0]);
        assert(s.skip(n + 1) =~= tail);
        assert(seq![parts[0]] + rest =~= parts);
    }
}

proof fn lemma_collect_written(p: Seq<LabelPair>)
    requires
        keys_ascend(p),
        forall|i: int| 0 <= i < p.len() ==> plain_label((#[trigger] p[i]).0, p[i].1),
    ensures
        collected_labels(written_labels(p)) == Ok::<LabelMap, Seq<char>>(pair_map(p)),
    decreases p.len(),
{
    let w = written_labels(p);
    if p.len() == 0 {
        assert(pair_map(p) =~= LabelMap::empty());
    } else {
        let front = p.drop_last();
        assert(w.drop_last() =~= written_labels(front));
        assert(front =~= p.take(p.len() - 1));
        assert(p.take(p.len() as int) =~= p);
        assert(keys_ascend(front)) by {
            assert forall|i: int, j: int| 0 <= i < j < front.len() implies text_less(
                #[trigger] front[i].0,
                #[trigger] front[j].0,
            ) by {
                assert(text_less(p[i].0, p[j].0));
            }
        }
        assert forall|i: int| 0 <= i < front.len() implies plain_label(
            (#[trigger] front[i]).0,
            front[i].1,
        ) by {
            assert(front[i] == p[i]);
        }
        lemma_collect_written(front);
        lemma_take_map(p, p.len() - 1);
        let e = p.last();
        assert(plain_label(p[p.len() - 1].0, p[p.len() - 1].1));
        assert(w.last() == e.0 + ":"@ + e.1);
        lemma_label_read_back(e.0, e.1);
    }
}

proof fn lemma_labels_read_back(m: LabelMap)
    requires
        is_label_map(m),
        plain_labels(m),
        m != LabelMap::empty(),
    ensures
        collected_labels(present(split(label_list(m), ','))) == Ok::<LabelMap, Seq<char>>(m),
{
    reveal_strlit(":");
    let p = ordered_pairs(m);
    assert(keys_ascend(p) && pair_map(p) == m);
    if p.len() == 0 {
        assert(pair_map(p) =~= LabelMap::empty());
    }
    assert forall|i: int| 0 <= i < p.len() implies plain_label((#[trigger] p[i]).0, p[i].1) by {
        lemma_pair_entry(p, i);
        assert(m.dom().contains(p[i].0));
    }
    let w = written_labels(p);
    assert forall|i: int| 0 <= i < w.len() implies !(#[trigger] w[i]).contains(',') && w[i].len()
        > 0 by {
        let k = p[i].0;
        let v = p[i].1;
        assert(plain_label(k, v));
        assert(w[i] == k + ":"@ + v);
        if w[i].contains(',') {
            let j = choose|j: int| 0 <= j < w[i].len() && w[i][j] == ',';
            if j < k.len() {
                assert(k[j] == ',');
            } else if j > k.len() {
                assert(v[j - k.len() - 1] == ',');
            }
        }
    }
    lemma_split_joined(w);
    lemma_filter_all(w, |x: Seq<char>| x.len() > 0);
    lemma_collect_written(p);
}

/// The server reads from a list request the filter that the client meant, if its
/// labels are plain.
pub proof fn lemma_filter_read_back(f: FilterView)
    requires
        is_label_map(f.labels),
        plain_labels(f.labels),
    ensures
        query_filter(received(filter_query(f))) == Ok::<FilterView, Fault>(f),
{
    reveal_strlit("list");
    reveal_strlit("state");
    reveal_strlit("labels");
    assert("list"@.len() == 4);
    assert("state"@.len() == 5);
    assert("labels"@.len() == 6);
    let q = filter_query(f);
    let r = received(q);
    let a: int = if f.list is Some {
        1
    } else {
        0
    };
    let b: int = if f.state is Some {
        1
    } else {
        0
    };
    if f.list is Some {
        assert(key_at(q, "list"@, 0));
        lemma_names_read_back(
            f.list->0,
            TaskState::Pending,
            TaskEventType::Created,
        );
    }
    if f.state is Some {
        assert(key_at(q, "state"@, a));
        lemma_names_read_back(
            TaskList::Inbox,
            f.state->0,
            TaskEventType::Created,
        );
    }
    if f.labels != LabelMap::empty() {
        assert(key_at(q, "labels"@, a + b));
        lemma_labels_read_back(f.labels);
    }
}

} // verus!
