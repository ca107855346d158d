//! What a task may hold and which changes it may undergo.

use vstd::prelude::*;
use vstd::string::*;
use crate::domain::{contains_separator, has_separator, list_text, separator_in_key};
use crate::domain::{separator_message, state_text, TaskId, TaskList, TaskState};
use crate::errors::{Fault, StoreError};
use crate::ids::{hyphenated, uuid_text};
use crate::labels::{key_at, keys_ascend, lemma_pair_entry, lemma_take_map, pair_map, pair_views};
use crate::labels::{is_label_map, ordered_pairs, LabelMap, LabelPair, Labels};
use crate::text::{lemma_less_irreflexive, lemma_less_transitive, lemma_trimmed_idempotent};
use crate::text::{is_white, text_less, trim, trim_end, trim_start, trimmed};

verus! {

broadcast use vstd::string::group_string_axioms;

// -------------------------------------------------------------- descriptions

/// What is wrong with a description, if anything.
pub open spec fn description_fault(s: Seq<char>) -> Option<Seq<char>> {
    if s.len() == 0 {
        Some("task description must not be empty"@)
    } else if s.len() > 10_000 {
        Some("task description must not exceed 10,000 characters"@)
    } else {
        None
    }
}

/// Accepts a description of one to ten thousand characters.
pub fn validate_description(description: &str) -> (r: Result<(), StoreError>)
    ensures
        description_fault(description@) is None <==> r is Ok,
        r is Err ==> r->Err_0@ == Fault::Validation(description_fault(description@)->0),
{
    if description.is_empty() {
        return Err(StoreError::Validation("task description must not be empty".to_owned()));
    }
    if description.unicode_len() > 10_000 {
        return Err(
            StoreError::Validation(
                "task description must not exceed 10,000 characters".to_owned(),
            ),
        );
    }
    Ok(())
}

// ------------------------------------------------------------- state changes

/// Whether the archive holds the task if and only if it is finished.
pub open spec fn place_valid(list: TaskList, state: TaskState) -> bool {
    list == TaskList::Archive <==> (state == TaskState::Done || state == TaskState::Trash)
}

/// Whether a task may go from one list and state to another.
pub open spec fn change_allowed(
    before_list: TaskList,
    before_state: TaskState,
    target_list: TaskList,
    target_state: TaskState,
) -> bool {
    let before = (before_list, before_state);
    let target = (target_list, target_state);
    ||| before == target
    ||| before == (TaskList::Inbox, TaskState::Pending) && target == (
        TaskList::Inbox,
        TaskState::Doing,
    )
    ||| before == (TaskList::NextAction, TaskState::Pending) && target == (
        TaskList::NextAction,
        TaskState::Doing,
    )
    ||| before_list != TaskList::Archive && before_state == TaskState::Doing && target == (
        TaskList::Archive,
        TaskState::Done,
    )
    ||| before_list != TaskList::Archive && target == (TaskList::Archive, TaskState::Trash)
    ||| before == (TaskList::Inbox, TaskState::Pending) && target == (
        TaskList::NextAction,
        TaskState::Pending,
    )
    ||| before == (TaskList::Inbox, TaskState::Pending) && target == (
        TaskList::WaitingFor,
        TaskState::Pending,
    )
    ||| (before == (TaskList::Inbox, TaskState::Pending) || before == (
        TaskList::NextAction,
        TaskState::Pending,
    ) || before == (TaskList::NextAction, TaskState::Doing)) && target == (
        TaskList::SomedayMaybe,
        TaskState::Pending,
    )
    ||| before == (TaskList::SomedayMaybe, TaskState::Pending) && target == (
        TaskList::NextAction,
        TaskState::Pending,
    )
}

/// What is said of a change that is not allowed.
pub open spec fn change_refused(
    id: TaskId,
    before_list: TaskList,
    before_state: TaskState,
    target_list: TaskList,
    target_state: TaskState,
) -> Seq<char> {
    "cannot update task "@ + hyphenated(id) + " from "@ + list_text(before_list) + "/"@
        + state_text(before_state) + " to "@ + list_text(target_list) + "/"@ + state_text(
        target_state,
    )
}

/// Accepts the changes of list and state that the workflow knows.
pub fn validate_state_change(
    id: TaskId,
    before_list: TaskList,
    before_state: TaskState,
    target_list: TaskList,
    target_state: TaskState,
) -> (r: Result<(), StoreError>)
    ensures
        r is Ok <==> change_allowed(before_list, before_state, target_list, target_state),
        r is Err ==> r->Err_0@ == Fault::Conflict(
            change_refused(id, before_list, before_state, target_list, target_state),
        ),
{
    if before_list == target_list && before_state == target_state {
        return Ok(());
    }
    let allowed: bool = match (before_list, before_state, target_list, target_state) {
        (TaskList::Inbox, TaskState::Pending, TaskList::Inbox, TaskState::Doing) => true,
        (TaskList::NextAction, TaskState::Pending, TaskList::NextAction, TaskState::Doing) => true,
        (list, TaskState::Doing, TaskList::Archive, TaskState::Done) => list != TaskList::Archive,
        (list, _, TaskList::Archive, TaskState::Trash) => list != TaskList::Archive,
        (TaskList::Inbox, TaskState::Pending, TaskList::NextAction, TaskState::Pending) => true,
        (TaskList::Inbox, TaskState::Pending, TaskList::WaitingFor, TaskState::Pending) => true,
        (TaskList::Inbox, TaskState::Pending, TaskList::SomedayMaybe, TaskState::Pending) => true,
        (TaskList::NextAction, TaskState::Pending, TaskList::SomedayMaybe, TaskState::Pending) =>
            true,
        (TaskList::NextAction, TaskState::Doing, TaskList::SomedayMaybe, TaskState::Pending) =>
            true,
        (TaskList::SomedayMaybe, TaskState::Pending, TaskList::NextAction, TaskState::Pending) =>
            true,
        _ => false,
    };
    if allowed {
        return Ok(());
    }
    let mut out: String = "cannot update task ".to_owned();
    out.append(uuid_text(id).as_str());
    out.append(" from ");
    out.append(before_list.as_str());
    out.append("/");
    out.append(before_state.as_str());
    out.append(" to ");
    out.append(target_list.as_str());
    out.append("/");
    out.append(target_state.as_str());
    Err(StoreError::Conflict(out))
}

/// An allowed change leads from a valid place to a valid place.
pub proof fn lemma_change_keeps_place_valid(
    before_list: TaskList,
    before_state: TaskState,
    target_list: TaskList,
    target_state: TaskState,
)
    requires
        place_valid(before_list, before_state),
        change_allowed(before_list, before_state, target_list, target_state),
    ensures
        place_valid(target_list, target_state),
{
}

/// A task in the archive stays there, in the state that it has.
pub proof fn lemma_archive_is_final(
    before_state: TaskState,
    target_list: TaskList,
    target_state: TaskState,
)
    requires
        change_allowed(TaskList::Archive, before_state, target_list, target_state),
    ensures
        target_list == TaskList::Archive,
        target_state == before_state,
{
}

/// A task is done only after it was being done, or if it was done already.
pub proof fn lemma_done_follows_doing(
    before_list: TaskList,
    before_state: TaskState,
    target_list: TaskList,
)
    requires
        change_allowed(before_list, before_state, target_list, TaskState::Done),
    ensures
        before_state == TaskState::Doing || before_state == TaskState::Done,
{
}

// ------------------------------------------------------------------- labels

/// What is wrong with one label, if anything.
pub open spec fn label_fault(key: Seq<char>, value: Seq<char>) -> Option<Seq<char>> {
    if trimmed(key).len() == 0 || trimmed(value).len() == 0 {
        Some("label keys and values must not be empty"@)
    } else if has_separator(key) {
        Some(separator_in_key(key))
    } else {
        None
    }
}

/// The label under `k` is faulty.
pub open spec fn faulty_at(m: LabelMap, k: Seq<char>) -> bool {
    m.dom().contains(k) && label_fault(k, m[k]) is Some
}

/// `k` is the first key with a faulty label.
pub open spec fn first_faulty(m: LabelMap, k: Seq<char>) -> bool {
    &&& faulty_at(m, k)
    &&& forall|j: Seq<char>| #[trigger] faulty_at(m, j) && j != k ==> text_less(k, j)
}

/// What is wrong with the first faulty label, if there is one.
pub open spec fn labels_fault(m: LabelMap) -> Option<Seq<char>> {
    if exists|k: Seq<char>| faulty_at(m, k) {
        let k = choose|k: Seq<char>| first_faulty(m, k);
        label_fault(k, m[k])
    } else {
        None
    }
}

/// `j` is a key that reads `k` once it is trimmed.
pub open spec fn spelled(m: LabelMap, k: Seq<char>, j: Seq<char>) -> bool {
    m.dom().contains(j) && trimmed(j) == k
}

/// `j` is the last key that reads `k` once it is trimmed.
pub open spec fn last_spelling(m: LabelMap, k: Seq<char>, j: Seq<char>) -> bool {
    &&& spelled(m, k, j)
    &&& forall|i: Seq<char>| #[trigger] spelled(m, k, i) && i != j ==> text_less(i, j)
}

/// The labels with trimmed keys and values. Where several keys become one, the
/// last of them in key order gives the value.
pub open spec fn normalized(m: LabelMap) -> LabelMap {
    Map::new(
        |k: Seq<char>| exists|j: Seq<char>| spelled(m, k, j),
        |k: Seq<char>| trimmed(m[choose|j: Seq<char>| last_spelling(m, k, j)]),
    )
}

proof fn lemma_last_spelling_unique(m: LabelMap, k: Seq<char>, a: Seq<char>, b: Seq<char>)
    requires
        last_spelling(m, k, a),
        last_spelling(m, k, b),
    ensures
        a == b,
{
    if a != b {
        assert(spelled(m, k, a) && spelled(m, k, b));
        lemma_less_transitive(a, b, a);
        lemma_less_irreflexive(a);
    }
}

spec fn spellings_end(m: LabelMap) -> bool {
    forall|k: Seq<char>, i: Seq<char>| #[trigger]
        spelled(m, k, i) ==> exists|j: Seq<char>| #[trigger] last_spelling(m, k, j)
}

proof fn lemma_normalized_entry(m: LabelMap, k: Seq<char>, j: Seq<char>)
    requires
        last_spelling(m, k, j),
    ensures
        normalized(m).dom().contains(k),
        normalized(m)[k] == trimmed(m[j]),
{
    let i = choose|i: Seq<char>| last_spelling(m, k, i);
    assert(spelled(m, k, j));
    lemma_last_spelling_unique(m, k, i, j);
}

proof fn lemma_normalized_grows(m: LabelMap, key: Seq<char>, value: Seq<char>)
    requires
        spellings_end(m),
        forall|j: Seq<char>| #[trigger] m.dom().contains(j) ==> text_less(j, key),
    ensures
        spellings_end(m.insert(key, value)),
        normalized(m.insert(key, value)) == normalized(m).insert(trimmed(key), trimmed(value)),
{
    let n = m.insert(key, value);
    lemma_less_irreflexive(key);
    assert(!m.dom().contains(key));
    assert(last_spelling(n, trimmed(key), key)) by {
        assert forall|i: Seq<char>|
            #[trigger] spelled(n, trimmed(key), i) && i != key implies text_less(i, key) by {
            assert(m.dom().contains(i));
        }
    }
    assert forall|k: Seq<char>, j: Seq<char>| k != trimmed(key) && last_spelling(m, k, j) implies
        #[trigger] last_spelling(n, k, j) by {
        assert(spelled(m, k, j));
        assert forall|i: Seq<char>| #[trigger] spelled(n, k, i) && i != j implies text_less(
            i,
            j,
        ) by {
            assert(spelled(m, k, i));
        }
    }
    assert forall|k: Seq<char>, i: Seq<char>| #[trigger] spelled(n, k, i) implies exists|
        j: Seq<char>,
    | #[trigger] last_spelling(n, k, j) by {
        if k != trimmed(key) {
            assert(spelled(m, k, i));
            let l = choose|l: Seq<char>| last_spelling(m, k, l);
            assert(last_spelling(n, k, l));
        }
    }
    let a = normalized(n);
    let b = normalized(m).insert(trimmed(key), trimmed(value));
    assert forall|k: Seq<char>| a.dom().contains(k) <==> b.dom().contains(k) by {
        if a.dom().contains(k) && k != trimmed(key) {
            let j = choose|j: Seq<char>| spelled(n, k, j);
            assert(spelled(m, k, j));
        }
        if b.dom().contains(k) {
            if k == trimmed(key) {
                assert(spelled(n, k, key));
            } else {
                let j = choose|j: Seq<char>| spelled(m, k, j);
                assert(spelled(n, k, j));
            }
        }
    }
    assert forall|k: Seq<char>| a.dom().contains(k) implies a[k] == b[k] by {
        if k == trimmed(key) {
            lemma_normalized_entry(n, k, key);
        } else {
            let j = choose|j: Seq<char>| spelled(n, k, j);
            assert(spelled(m, k, j));
            let l = choose|l: Seq<char>| last_spelling(m, k, l);
            assert(last_spelling(n, k, l));
            lemma_normalized_entry(n, k, l);
            lemma_normalized_entry(m, k, l);
            assert(l != key) by {
                assert(m.dom().contains(l));
            }
        }
    }
    assert(a =~= b);
}

/// Trims the keys and values of the labels, or refuses the first faulty one.
pub fn normalize_labels(labels: &Labels) -> (r: Result<Labels, StoreError>)
    ensures
        r is Ok <==> labels_fault(labels@) is None,
        r is Ok ==> r->Ok_0@ == normalized(labels@),
        r is Err ==> r->Err_0@ == Fault::Validation(labels_fault(labels@)->0),
        is_label_map(labels@),
{
    let entries = labels.entries();
    let ghost p = labels.pairs();
    let ghost m = labels@;
    let mut i: usize = 0;
    while i < entries.len()
        invariant
            i <= entries.len(),
            p == pair_views(entries@),
            keys_ascend(p),
            m == pair_map(p),
            m == labels@,
            forall|j: int| 0 <= j < i ==> label_fault((#[trigger] p[j]).0, p[j].1) is None,
        decreases entries.len() - i,
    {
        let key = entries[i].0.as_str();
        let value = entries[i].1.as_str();
        assert(p[i as int] == (key@, value@));
        let empty: bool = trim(key).is_empty() || trim(value).is_empty();
        let separated: bool = contains_separator(key);
        if empty || separated {
            proof {
                lemma_pair_entry(p, i as int);
                assert(faulty_at(m, key@));
                assert(first_faulty(m, key@)) by {
                    assert forall|j: Seq<char>| #[trigger] faulty_at(m, j) && j != key@ implies text_less(
                        key@,
                        j,
                    ) by {
                        let x = choose|x: int| key_at(p, j, x);
                        assert(key_at(p, j, x));
                        lemma_pair_entry(p, x);
                        assert(text_less(p[i as int].0, p[x].0));
                    }
                }
                let k = choose|k: Seq<char>| first_faulty(m, k);
                assert(first_faulty(m, k));
                if k != key@ {
                    assert(faulty_at(m, k));
                    lemma_less_transitive(k, key@, k);
                    lemma_less_irreflexive(k);
                }
            }
            if empty {
                return Err(
                    StoreError::Validation("label keys and values must not be empty".to_owned()),
                );
            }
            return Err(StoreError::Validation(separator_message(key)));
        }
        i = i + 1;
    }
    assert(labels_fault(m) is None) by {
        if exists|k: Seq<char>| faulty_at(m, k) {
            let k = choose|k: Seq<char>| faulty_at(m, k);
            let x = choose|x: int| key_at(p, k, x);
            assert(key_at(p, k, x));
            lemma_pair_entry(p, x);
        }
    }
    let mut out: Labels = Labels::new();
    let mut n: usize = 0;
    assert(pair_map(p.take(0)) =~= LabelMap::empty());
    assert(normalized(LabelMap::empty()) =~= LabelMap::empty());
    while n < entries.len()
        invariant
            n <= entries.len(),
            p == pair_views(entries@),
            keys_ascend(p),
            spellings_end(pair_map(p.take(n as int))),
            out@ == normalized(pair_map(p.take(n as int))),
        decreases entries.len() - n,
    {
        let key = entries[n].0.as_str();
        let value = entries[n].1.as_str();
        assert(p[n as int] == (key@, value@));
        out.insert(trim(key).to_owned(), trim(value).to_owned());
        proof {
            let before = pair_map(p.take(n as int));
            assert forall|j: Seq<char>| #[trigger] before.dom().contains(j) implies text_less(
                j,
                key@,
            ) by {
                let x = choose|x: int| key_at(p.take(n as int), j, x);
                assert(key_at(p.take(n as int), j, x));
                assert(text_less(p[x].0, p[n as int].0));
            }
            lemma_normalized_grows(before, key@, value@);
            lemma_take_map(p, n as int);
        }
        n = n + 1;
    }
    assert(p.take(n as int) =~= p);
    Ok(out)
}

/// Labels whose keys and values carry no white space at their ends are
/// normalized already.
pub proof fn lemma_normalized_stable(m: LabelMap)
    requires
        forall|k: Seq<char>| #[trigger] m.dom().contains(k) ==> trimmed(k) == k && trimmed(m[k])
            == m[k],
    ensures
        normalized(m) == m,
{
    assert forall|k: Seq<char>| normalized(m).dom().contains(k) <==> m.dom().contains(k) by {
        if m.dom().contains(k) {
            assert(spelled(m, k, k));
        }
    }
    assert forall|k: Seq<char>| m.dom().contains(k) implies normalized(m)[k] == m[k] by {
        assert(last_spelling(m, k, k)) by {
            assert(spelled(m, k, k));
            assert forall|i: Seq<char>| #[trigger] spelled(m, k, i) && i != k implies text_less(
                i,
                k,
            ) by {}
        }
        lemma_normalized_entry(m, k, k);
    }
    assert(normalized(m) =~= m);
}

/// Normalizing twice is normalizing once.
pub proof fn lemma_normalized_idempotent(m: LabelMap)
    ensures
        normalized(normalized(m)) == normalized(m),
{
    assert forall|k: Seq<char>| #[trigger] normalized(m).dom().contains(k) implies trimmed(k) == k
        && trimmed(normalized(m)[k]) == normalized(m)[k] by {
        let j = choose|j: Seq<char>| spelled(m, k, j);
        lemma_trimmed_idempotent(j);
        lemma_trimmed_idempotent(m[choose|i: Seq<char>| last_spelling(m, k, i)]);
    }
    lemma_normalized_stable(normalized(m));
}

proof fn lemma_spellings_end(p: Seq<LabelPair>)
    requires
        keys_ascend(p),
    ensures
        spellings_end(pair_map(p)),
    decreases p.len(),
{
    if p.len() == 0 {
        assert(pair_map(p) =~= LabelMap::empty());
    } else {
        let front = p.drop_last();
        assert(front =~= p.take(p.len() - 1));
        assert(p.take(p.len() as int) =~= p);
        assert(keys_ascend(front)) by {
            assert forall|i: int, j: int| 0 <= i < j < front.len() implies text_less(
                #[trigger] front[i].0,
                #[trigger] front[j].0,
            ) by {
                assert(text_less(p[i].0, p[j].0));
            }
        }
        lemma_spellings_end(front);
        lemma_take_map(p, p.len() - 1);
        let m = pair_map(front);
        assert forall|j: Seq<char>| #[trigger] m.dom().contains(j) implies text_less(
            j,
            p.last().0,
        ) by {
            let i = choose|i: int| key_at(front, j, i);
            assert(text_less(p[i].0, p[p.len() - 1].0));
        }
        lemma_normalized_grows(m, p.last().0, p.last().1);
    }
}

proof fn lemma_first_faulty(p: Seq<LabelPair>, i: int) -> (k: int)
    requires
        keys_ascend(p),
        0 <= i < p.len(),
        label_fault(p[i].0, p[i].1) is Some,
    ensures
        0 <= k <= i,
        first_faulty(pair_map(p), p[k].0),
    decreases i,
{
    if exists|j: int| 0 <= j < i && label_fault((#[trigger] p[j]).0, p[j].1) is Some {
        let j = choose|j: int| 0 <= j < i && label_fault((#[trigger] p[j]).0, p[j].1) is Some;
        lemma_first_faulty(p, j)
    } else {
        let m = pair_map(p);
        lemma_pair_entry(p, i);
        assert forall|x: Seq<char>| #[trigger] faulty_at(m, x) && x != p[i].0 implies text_less(
            p[i].0,
            x,
        ) by {
            let j = choose|j: int| key_at(p, x, j);
            assert(key_at(p, x, j));
            lemma_pair_entry(p, j);
            if j < i {
                assert(label_fault(p[j].0, p[j].1) is Some);
            }
            assert(text_less(p[i].0, p[j].0));
        }
        i
    }
}

proof fn lemma_trim_keeps_from(s: Seq<char>, c: char)
    requires
        trimmed(s).contains(c),
    ensures
        s.contains(c),
{
    lemma_trim_end_keeps_from(trim_start(s), c);
    lemma_trim_start_keeps_from(s, c);
}

proof fn lemma_trim_start_keeps_from(s: Seq<char>, c: char)
    requires
        trim_start(s).contains(c),
    ensures
        s.contains(c),
    decreases s.len(),
{
    if s.len() > 0 && is_white(s[0]) {
        lemma_trim_start_keeps_from(s.drop_first(), c);
        let i = choose|i: int| 0 <= i < s.drop_first().len() && s.drop_first()[i] == c;
        assert(s[i + 1] == c);
    }
}

proof fn lemma_trim_end_keeps_from(s: Seq<char>, c: char)
    requires
        trim_end(s).contains(c),
    ensures
        s.contains(c),
    decreases s.len(),
{
    if s.len() > 0 && is_white(s.last()) {
        lemma_trim_end_keeps_from(s.drop_last(), c);
        let i = choose|i: int| 0 <= i < s.drop_last().len() && s.drop_last()[i] == c;
        assert(s[i] == c);
    }
}

/// Labels are refused if and only if one of them is faulty, and then for the
/// first faulty one in key order.
pub proof fn lemma_labels_fault(m: LabelMap)
    requires
        is_label_map(m),
    ensures
        labels_fault(m) is Some <==> exists|k: Seq<char>| faulty_at(m, k),
        labels_fault(m) is Some ==> exists|k: Seq<char>| #[trigger]
            first_faulty(m, k) && labels_fault(m) == label_fault(k, m[k]),
{
    let p = ordered_pairs(m);
    assert(keys_ascend(p) && pair_map(p) == m);
    if exists|k: Seq<char>| faulty_at(m, k) {
        let k = choose|k: Seq<char>| faulty_at(m, k);
        let i = choose|i: int| key_at(p, k, i);
        assert(key_at(p, k, i));
        lemma_pair_entry(p, i);
        let f = lemma_first_faulty(p, i);
        assert(first_faulty(m, p[f].0));
        let c = choose|c: Seq<char>| first_faulty(m, c);
        assert(first_faulty(m, c));
        assert(faulty_at(m, c));
    }
}

/// The keys of normalized labels are the trimmed keys, and the value of each is
/// the trimmed value of the last key that is spelled so.
pub proof fn lemma_normalized_entries(m: LabelMap, k: Seq<char>)
    requires
        is_label_map(m),
    ensures
        normalized(m).dom().contains(k) <==> exists|j: Seq<char>| spelled(m, k, j),
        normalized(m).dom().contains(k) ==> exists|j: Seq<char>| #[trigger]
            last_spelling(m, k, j) && normalized(m)[k] == trimmed(m[j]),
{
    let p = ordered_pairs(m);
    assert(keys_ascend(p) && pair_map(p) == m);
    lemma_spellings_end(p);
    if normalized(m).dom().contains(k) {
        let i = choose|i: Seq<char>| spelled(m, k, i);
        assert(spelled(m, k, i));
        let j = choose|j: Seq<char>| last_spelling(m, k, j);
        assert(last_spelling(m, k, j));
        lemma_normalized_entry(m, k, j);
    }
}

/// Labels that are accepted are still accepted once they are normalized.
pub proof fn lemma_accepted_labels(m: LabelMap)
    requires
        is_label_map(m),
        labels_fault(m) is None,
    ensures
        labels_fault(normalized(m)) is None,
        normalized(normalized(m)) == normalized(m),
{
    lemma_normalized_idempotent(m);
    lemma_labels_fault(m);
    let n = normalized(m);
    assert forall|k: Seq<char>| !faulty_at(n, k) by {
        if n.dom().contains(k) {
            lemma_normalized_entries(m, k);
            let j = choose|j: Seq<char>| #[trigger]
                last_spelling(m, k, j) && n[k] == trimmed(m[j]);
            assert(spelled(m, k, j));
            assert(!faulty_at(m, j));
            lemma_trimmed_idempotent(j);
            lemma_trimmed_idempotent(m[j]);
            if k.contains(':') {
                lemma_trim_keeps_from(j, ':');
            }
            if k.contains('=') {
                lemma_trim_keeps_from(j, '=');
            }
        }
    }
}

} // verus!
