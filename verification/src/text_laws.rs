//! What texts, numbers, labels, names and filters mean, said of the characters
//! and entries themselves.

use vstd::prelude::*;
use vstd::string::*;
use crate::client::collected_labels;
use crate::domain::{event_type_text, later_of, list_text, parsed_event_type, parsed_label};
use crate::domain::{parsed_list, parsed_state, state_text, unknown_event_type, unknown_list};
use crate::domain::unknown_state;
use crate::domain::{EventView, FilterView, TaskEventType, TaskList, TaskState, TaskView};
use crate::domain::Timestamp;
use crate::errors::Fault;
use crate::ids::hyphenated;
use crate::labels::{is_label_map, LabelMap, LabelPair};
use crate::listing::{is_listing, wanted, wanted_task};
use crate::numbers::{all_digits, decimal, parsed_integer, value_of};
use crate::roundtrip::lemma_join_first;
use crate::rules::{description_fault, faulty_at, first_faulty, label_fault, labels_fault};
use crate::rules::{last_spelling, lemma_labels_fault, lemma_normalized_entries, normalized};
use crate::rules::spelled;
use crate::text::{is_first, is_white, join, lemma_first_exists, lemma_split_at, split, split_once};
use crate::text::{text_less, trim_end, trim_end_char, trim_start, trimmed};

verus! {

broadcast use vstd::string::group_string_axioms;

// ----------------------------------------------------------------- trimming

/// White space is what Unicode gives the property `White_Space`.
pub proof fn lemma_white_space(c: char)
    ensures
        is_white(c) <==> {
            let n = c as u32;
            9 <= n <= 13 || n == 32 || n == 0x85 || n == 0xa0 || n == 0x1680 || 0x2000 <= n
                <= 0x200a || n == 0x2028 || n == 0x2029 || n == 0x202f || n == 0x205f || n == 0x3000
        },
{
}

proof fn lemma_trim_start_skips(s: Seq<char>, a: int)
    requires
        0 <= a <= s.len(),
        forall|i: int| 0 <= i < a ==> is_white(#[trigger] s[i]),
        a < s.len() ==> !is_white(s[a]),
    ensures
        trim_start(s) == s.skip(a),
    decreases a,
{
    if a == 0 {
        assert(s.skip(0) =~= s);
    } else {
        let rest = s.drop_first();
        assert(is_white(s[0]));
        assert forall|i: int| 0 <= i < a - 1 implies is_white(#[trigger] rest[i]) by {
            assert(rest[i] == s[i + 1]);
        }
        lemma_trim_start_skips(rest, a - 1);
        assert(rest.skip(a - 1) =~= s.skip(a));
    }
}

proof fn lemma_trim_end_takes(s: Seq<char>, b: int)
    requires
        0 <= b <= s.len(),
        forall|i: int| b <= i < s.len() ==> is_white(#[trigger] s[i]),
        0 < b ==> !is_white(s[b - 1]),
    ensures
        trim_end(s) == s.take(b),
    decreases s.len() - b,
{
    if b == s.len() {
        assert(s.take(b) =~= s);
    } else {
        let rest = s.drop_last();
        assert(is_white(s[s.len() - 1]));
        assert forall|i: int| b <= i < rest.len() implies is_white(#[trigger] rest[i]) by {
            assert(rest[i] == s[i]);
        }
        lemma_trim_end_takes(rest, b);
        assert(rest.take(b) =~= s.take(b));
    }
}

/// Trimming cuts all white space from both ends, and nothing else.
pub proof fn lemma_trimmed_cuts(s: Seq<char>, a: int, b: int)
    requires
        0 <= a <= b <= s.len(),
        forall|i: int| 0 <= i < a ==> is_white(#[trigger] s[i]),
        forall|i: int| b <= i < s.len() ==> is_white(#[trigger] s[i]),
        a < b ==> !is_white(s[a]) && !is_white(s[b - 1]),
    ensures
        trimmed(s) == s.subrange(a, b),
{
    if a == b {
        let n = s.len() as int;
        assert forall|i: int| 0 <= i < n implies is_white(#[trigger] s[i]) by {}
        lemma_trim_start_skips(s, n);
        assert(s.skip(n) =~= Seq::<char>::empty());
        assert(s.subrange(a, b) =~= Seq::<char>::empty());
    } else {
        lemma_trim_start_skips(s, a);
        let rest = s.skip(a);
        assert forall|i: int| b - a <= i < rest.len() implies is_white(#[trigger] rest[i]) by {
            assert(rest[i] == s[i + a]);
        }
        assert(rest[b - a - 1] == s[b - 1]);
        lemma_trim_end_takes(rest, b - a);
        assert(rest.take(b - a) =~= s.subrange(a, b));
    }
}

/// A text without white space at its ends is kept whole.
pub proof fn lemma_trimmed_keeps(s: Seq<char>)
    requires
        s.len() > 0 ==> !is_white(s[0]) && !is_white(s[s.len() - 1]),
    ensures
        trimmed(s) == s,
{
    lemma_trimmed_cuts(s, 0, s.len() as int);
    assert(s.subrange(0, s.len() as int) =~= s);
}

/// Cutting a character from the end of a text takes all of it there, and nothing
/// else.
pub proof fn lemma_end_cut(s: Seq<char>, c: char, n: int)
    requires
        0 <= n <= s.len(),
        forall|i: int| n <= i < s.len() ==> #[trigger] s[i] == c,
        n > 0 ==> s[n - 1] != c,
    ensures
        trim_end_char(s, c) == s.take(n),
    decreases s.len(),
{
    if n < s.len() {
        let front = s.drop_last();
        assert(s[s.len() - 1] == c);
        assert forall|i: int| n <= i < front.len() implies #[trigger] front[i] == c by {
            assert(front[i] == s[i]);
        }
        lemma_end_cut(front, c, n);
        assert(front.take(n) =~= s.take(n));
    } else {
        assert(s.take(n) =~= s);
    }
}

// ------------------------------------------------------ splitting and joining

/// The pieces of a text hold no separator, and joined by it they are the text.
pub proof fn lemma_split_pieces(s: Seq<char>, c: char)
    ensures
        split(s, c).len() > 0,
        forall|i: int| 0 <= i < split(s, c).len() ==> !(#[trigger] split(s, c)[i]).contains(c),
        join(split(s, c), seq![c]) == s,
    decreases s.len(),
{
    if s.contains(c) {
        let j = choose|j: int| 0 <= j < s.len() && s[j] == c;
        lemma_first_exists(s, c, j);
        let k = choose|k: int| is_first(s, c, k);
        assert(is_first(s, c, k));
        lemma_split_at(s, c, k);
        let head = s.take(k);
        let tail = s.skip(k + 1);
        lemma_split_pieces(tail, c);
        let rest = split(tail, c);
        let all = seq![head] + rest;
        assert(split(s, c) == all);
        assert(all.drop_first() =~= rest);
        lemma_join_first(all, seq![c]);
        assert(head + seq![c] + tail =~= s);
        assert forall|i: int| 0 <= i < all.len() implies !(#[trigger] all[i]).contains(c) by {
            if i == 0 {
                if head.contains(c) {
                    let x = choose|x: int| 0 <= x < head.len() && head[x] == c;
                    assert(s[x] == c);
                }
            } else {
                assert(all[i] == rest[i - 1]);
            }
        }
    } else {
        assert(split(s, c) =~= seq![s]);
        assert(join(split(s, c), seq![c]) == s);
    }
}

/// Joining adds the separator and the next part.
pub proof fn lemma_join_parts(parts: Seq<Seq<char>>, x: Seq<char>, sep: Seq<char>)
    ensures
        join(Seq::empty(), sep) == Seq::<char>::empty(),
        join(seq![x], sep) == x,
        parts.len() > 0 ==> join(parts.push(x), sep) == join(parts, sep) + sep + x,
{
    assert(parts.push(x).drop_last() =~= parts);
}

// ------------------------------------------------------------------- numbers

/// A number is written with its digits, the last of them for its last place.
pub proof fn lemma_decimal_places(n: int)
    ensures
        0 <= n < 10 ==> decimal(n) == seq![(48 + n) as char],
        n >= 10 ==> decimal(n) == decimal(n / 10).push((48 + n % 10) as char),
        n < 0 ==> decimal(n) == seq!['-'] + decimal(-n),
{
}

/// A number is read from digits with or without a sign, if it has 64 bits.
pub proof fn lemma_integer_read(b: Seq<u8>)
    requires
        b.len() > 0,
        forall|i: int| 0 <= i < b.len() ==> 48 <= #[trigger] b[i] <= 57,
    ensures
        value_of(b) <= i64::MAX ==> parsed_integer(b) == Some(value_of(b) as i64)
            && parsed_integer(seq![43u8] + b) == Some(value_of(b) as i64),
        value_of(b) > i64::MAX ==> parsed_integer(b) is None && parsed_integer(seq![43u8] + b)
            is None,
        value_of(b) <= i64::MAX + 1 ==> parsed_integer(seq![45u8] + b) == Some(
            (-value_of(b)) as i64,
        ),
        value_of(b) > i64::MAX + 1 ==> parsed_integer(seq![45u8] + b) is None,
{
    lemma_value_positive(b);
    assert((seq![43u8] + b).skip(1) =~= b);
    assert((seq![45u8] + b).skip(1) =~= b);
    assert(b[0] != 43 && b[0] != 45);
    assert(all_digits(b));
}

proof fn lemma_value_positive(b: Seq<u8>)
    requires
        forall|i: int| 0 <= i < b.len() ==> 48 <= #[trigger] b[i] <= 57,
    ensures
        value_of(b) >= 0,
    decreases b.len(),
{
    if b.len() > 0 {
        let front = b.drop_last();
        assert forall|i: int| 0 <= i < front.len() implies 48 <= #[trigger] front[i] <= 57 by {
            assert(front[i] == b[i]);
        }
        lemma_value_positive(front);
        assert(48 <= b[b.len() - 1]);
    }
}

/// The number that digits write: each place counts ten times the next.
pub proof fn lemma_value_places(b: Seq<u8>, d: u8)
    ensures
        value_of(Seq::empty()) == 0,
        value_of(b.push(d)) == value_of(b) * 10 + (d - 48),
{
    assert(b.push(d).drop_last() =~= b);
}

/// What holds anything but digits after a sign is no number.
pub proof fn lemma_integer_refused(b: Seq<u8>, i: int)
    requires
        0 <= i < b.len(),
        !(48 <= b[i] <= 57),
        i > 0 || (b[0] != 43 && b[0] != 45) || b.len() == 1,
    ensures
        parsed_integer(b) is None,
        parsed_integer(Seq::empty()) is None,
{
    if b[0] == 43 || b[0] == 45 {
        let rest = b.skip(1);
        if b.len() > 1 {
            assert(rest[i - 1] == b[i]);
        }
    }
}

// -------------------------------------------------------------------- moments

/// The later of two moments is one of them, and neither is after it.
pub proof fn lemma_later_of(a: Timestamp, b: Timestamp)
    ensures
        later_of(a, b) == a || later_of(a, b) == b,
        ({
            let m = later_of(a, b);
            &&& a.seconds < m.seconds || (a.seconds == m.seconds && a.nanos <= m.nanos)
            &&& b.seconds < m.seconds || (b.seconds == m.seconds && b.nanos <= m.nanos)
        }),
{
}

// --------------------------------------------------------------------- labels

/// A label is cut at the first `=`, or at the first `:` if there is no `=`. Its
/// key and value are what stands before and after, without white space around;
/// neither may be empty, and the key holds no separator.
pub proof fn lemma_label_meaning(a: Seq<char>, c: char, b: Seq<char>)
    requires
        c == '=' || c == ':',
        !a.contains(c),
        c == ':' ==> !a.contains('=') && !b.contains('='),
    ensures
        ({
            let key = trimmed(a);
            let value = trimmed(b);
            let r = parsed_label(a + seq![c] + b);
            if key.len() == 0 || value.len() == 0 {
                r == Err::<LabelPair, Seq<char>>("label key and value must not be empty"@)
            } else if key.contains(':') || key.contains('=') {
                r == Err::<LabelPair, Seq<char>>(
                    "label key '"@ + key + "' must not contain ':' or '='"@,
                )
            } else {
                r == Ok::<LabelPair, Seq<char>>((key, value))
            }
        }),
{
    let s = a + seq![c] + b;
    let n = a.len() as int;
    assert(is_first(s, c, n)) by {
        assert(s[n] == c);
        assert forall|j: int| 0 <= j < n implies s[j] != c by {
            assert(s[j] == a[j]);
        }
    }
    lemma_split_at(s, c, n);
    assert(s.take(n) =~= a);
    assert(s.skip(n + 1) =~= b);
    if c == ':' {
        assert(!s.contains('=')) by {
            if s.contains('=') {
                let i = choose|i: int| 0 <= i < s.len() && s[i] == '=';
                if i < n {
                    assert(a[i] == '=');
                } else if i > n {
                    assert(b[i - n - 1] == '=');
                }
            }
        }
        assert(split_once(s, '=') is None);
    }
}

/// A text without `:` and `=` is no label.
pub proof fn lemma_no_label(s: Seq<char>)
    requires
        !s.contains('='),
        !s.contains(':'),
    ensures
        parsed_label(s) == Err::<LabelPair, Seq<char>>(
            "invalid label '"@ + s + "'; expected key:value"@,
        ),
{
}

/// `i` is the last of the texts that writes a label with the key `k`.
pub open spec fn last_with_key(pairs: Seq<Seq<char>>, k: Seq<char>, i: int) -> bool {
    &&& 0 <= i < pairs.len()
    &&& parsed_label(pairs[i]) is Ok
    &&& parsed_label(pairs[i])->Ok_0.0 == k
    &&& forall|j: int|
        i < j < pairs.len() ==> !(parsed_label(#[trigger] pairs[j]) is Ok && parsed_label(
            pairs[j],
        )->Ok_0.0 == k)
}

/// Collected labels are just those that the texts write, where a later text wins;
/// if a text writes none, the first such is reported.
pub proof fn lemma_collected_meaning(pairs: Seq<Seq<char>>)
    ensures
        collected_labels(pairs) is Ok <==> forall|i: int|
            0 <= i < pairs.len() ==> parsed_label(#[trigger] pairs[i]) is Ok,
        collected_labels(pairs) matches Ok(m) ==> {
            &&& forall|i: int|
                0 <= i < pairs.len() ==> m.dom().contains(
                    parsed_label(#[trigger] pairs[i])->Ok_0.0,
                )
            &&& forall|k: Seq<char>| #[trigger]
                m.dom().contains(k) ==> exists|i: int| #[trigger]
                    last_with_key(pairs, k, i) && m[k] == parsed_label(pairs[i])->Ok_0.1
        },
        collected_labels(pairs) matches Err(e) ==> exists|i: int|
            0 <= i < pairs.len() && parsed_label(#[trigger] pairs[i]) == Err::<
                LabelPair,
                Seq<char>,
            >(e) && forall|j: int| 0 <= j < i ==> parsed_label(#[trigger] pairs[j]) is Ok,
    decreases pairs.len(),
{
    if pairs.len() > 0 {
        let front = pairs.drop_last();
        let n = front.len() as int;
        lemma_collected_meaning(front);
        assert forall|i: int| 0 <= i < n implies #[trigger] front[i] == pairs[i] by {}
        match collected_labels(front) {
            Err(e) => {
                let i = choose|i: int|
                    0 <= i < front.len() && parsed_label(#[trigger] front[i]) == Err::<
                        LabelPair,
                        Seq<char>,
                    >(e) && forall|j: int| 0 <= j < i ==> parsed_label(#[trigger] front[j]) is Ok;
                assert(parsed_label(pairs[i]) is Err);
                assert forall|j: int| 0 <= j < i implies parsed_label(#[trigger] pairs[j])
                    is Ok by {
                    assert(parsed_label(front[j]) is Ok);
                }
            },
            Ok(m) => {
                assert forall|i: int| 0 <= i < n implies parsed_label(#[trigger] pairs[i])
                    is Ok by {
                    assert(parsed_label(front[i]) is Ok);
                }
                match parsed_label(pairs.last()) {
                    Err(e) => {
                        assert(parsed_label(pairs[n]) is Err);
                    },
                    Ok(p) => {
                        let all = m.insert(p.0, p.1);
                        assert forall|i: int| 0 <= i < pairs.len() implies all.dom().contains(
                            parsed_label(#[trigger] pairs[i])->Ok_0.0,
                        ) by {
                            if i < n {
                                assert(m.dom().contains(parsed_label(front[i])->Ok_0.0));
                            }
                        }
                        assert forall|k: Seq<char>| #[trigger] all.dom().contains(k) implies exists|
                            i: int,
                        | #[trigger]
                            last_with_key(pairs, k, i) && all[k] == parsed_label(
                                pairs[i],
                            )->Ok_0.1 by {
                            if k == p.0 {
                                assert(last_with_key(pairs, k, n));
                            } else {
                                assert(m.dom().contains(k));
                                let i = choose|i: int| #[trigger]
                                    last_with_key(front, k, i) && m[k] == parsed_label(
                                        front[i],
                                    )->Ok_0.1;
                                assert(last_with_key(pairs, k, i)) by {
                                    assert forall|j: int| i < j < pairs.len() implies !(
                                    parsed_label(#[trigger] pairs[j]) is Ok && parsed_label(
                                        pairs[j],
                                    )->Ok_0.0 == k) by {
                                        if j < n {
                                            assert(pairs[j] == front[j]);
                                        }
                                    }
                                }
                            }
                        }
                    },
                }
            },
        }
    }
}

/// Labels are accepted if and only if no key and no value is blank and no key
/// holds `:` or `=`.
pub proof fn lemma_accepted_meaning(m: LabelMap)
    requires
        is_label_map(m),
    ensures
        labels_fault(m) is None <==> forall|k: Seq<char>| #[trigger]
            m.dom().contains(k) ==> trimmed(k).len() > 0 && trimmed(m[k]).len() > 0 && !k.contains(
                ':',
            ) && !k.contains('='),
{
    lemma_labels_fault(m);
    if labels_fault(m) is None {
        assert forall|k: Seq<char>| #[trigger] m.dom().contains(k) implies trimmed(k).len() > 0
            && trimmed(m[k]).len() > 0 && !k.contains(':') && !k.contains('=') by {
            assert(!faulty_at(m, k));
        }
    } else {
        let k = choose|k: Seq<char>| faulty_at(m, k);
        assert(m.dom().contains(k));
    }
}

/// What is said of refused labels is said of the first of them, in key order, that is
/// blank on either side or has a separator in its key.
pub proof fn lemma_refused_meaning(m: LabelMap)
    requires
        is_label_map(m),
        labels_fault(m) is Some,
    ensures
        exists|k: Seq<char>| #[trigger]
            m.dom().contains(k) && {
                let blank = trimmed(k).len() == 0 || trimmed(m[k]).len() == 0;
                &&& blank ==> labels_fault(m) == Some("label keys and values must not be empty"@)
                &&& !blank ==> (k.contains(':') || k.contains('=')) && labels_fault(m) == Some(
                    "label key '"@ + k + "' must not contain ':' or '='"@,
                )
                &&& forall|j: Seq<char>| #[trigger]
                    m.dom().contains(j) && j != k && !text_less(k, j) ==> trimmed(j).len() > 0
                        && trimmed(m[j]).len() > 0 && !j.contains(':') && !j.contains('=')
            },
{
    lemma_labels_fault(m);
    let k = choose|k: Seq<char>| #[trigger]
        first_faulty(m, k) && labels_fault(m) == label_fault(k, m[k]);
    assert(faulty_at(m, k));
    assert(m.dom().contains(k));
    assert forall|j: Seq<char>| #[trigger]
        m.dom().contains(j) && j != k && !text_less(k, j) implies trimmed(j).len() > 0 && trimmed(
        m[j],
    ).len() > 0 && !j.contains(':') && !j.contains('=') by {
        assert(!faulty_at(m, j));
    }
}

/// Normalized labels have the trimmed keys and no others, and each has the trimmed
/// value of the last key, in key order, that reads like it.
pub proof fn lemma_normalized_meaning(m: LabelMap)
    requires
        is_label_map(m),
    ensures
        forall|j: Seq<char>| #[trigger]
            m.dom().contains(j) ==> normalized(m).dom().contains(trimmed(j)),
        forall|k: Seq<char>| #[trigger]
            normalized(m).dom().contains(k) ==> exists|j: Seq<char>| #[trigger]
                m.dom().contains(j) && trimmed(j) == k && normalized(m)[k] == trimmed(m[j])
                    && forall|i: Seq<char>| #[trigger]
                    m.dom().contains(i) && trimmed(i) == k && i != j ==> text_less(i, j),
{
    assert forall|j: Seq<char>| #[trigger] m.dom().contains(j) implies normalized(
        m,
    ).dom().contains(trimmed(j)) by {
        lemma_normalized_entries(m, trimmed(j));
        assert(spelled(m, trimmed(j), j));
    }
    assert forall|k: Seq<char>| #[trigger] normalized(m).dom().contains(k) implies exists|
        j: Seq<char>,
    | #[trigger]
        m.dom().contains(j) && trimmed(j) == k && normalized(m)[k] == trimmed(m[j]) && forall|
            i: Seq<char>,
        | #[trigger]
            m.dom().contains(i) && trimmed(i) == k && i != j ==> text_less(i, j) by {
        lemma_normalized_entries(m, k);
        let j = choose|j: Seq<char>| #[trigger]
            last_spelling(m, k, j) && normalized(m)[k] == trimmed(m[j]);
        assert(spelled(m, k, j));
        assert(m.dom().contains(j) && trimmed(j) == k);
        assert forall|i: Seq<char>| #[trigger]
            m.dom().contains(i) && trimmed(i) == k && i != j implies text_less(i, j) by {
            assert(spelled(m, k, i));
        }
    }
}

/// The order of texts: by the first character in which they differ; a text comes
/// before those that it begins.
pub proof fn lemma_text_order(common: Seq<char>, a: Seq<char>, b: Seq<char>)
    ensures
        b.len() > 0 ==> text_less(common, common + b),
        a.len() > 0 && b.len() > 0 && a[0] < b[0] ==> text_less(common + a, common + b)
            && !text_less(common + b, common + a),
        !text_less(common, common),
    decreases common.len(),
{
    if common.len() == 0 {
        assert(common + a =~= a);
        assert(common + b =~= b);
    } else {
        let rest = common.drop_first();
        lemma_text_order(rest, a, b);
        assert((common + a).drop_first() =~= rest + a);
        assert((common + b).drop_first() =~= rest + b);
    }
}

// ------------------------------------------------------- descriptions, names

/// A description has between one and ten thousand characters.
pub proof fn lemma_description_bounds(s: Seq<char>)
    ensures
        description_fault(s) is None <==> 1 <= s.len() <= 10_000,
        s.len() == 0 ==> description_fault(s) == Some("task description must not be empty"@),
        s.len() > 10_000 ==> description_fault(s) == Some(
            "task description must not exceed 10,000 characters"@,
        ),
{
}

/// Each name, and no other text, names its list.
pub proof fn lemma_list_names(s: Seq<char>)
    ensures
        parsed_list(s) is Some <==> s == "in"@ || s == "inbox"@ || s == "next-action"@ || s
            == "next"@ || s == "waiting-for"@ || s == "waiting"@ || s == "someday-maybe"@ || s
            == "someday"@ || s == "maybe"@ || s == "archive"@,
        s == "in"@ || s == "inbox"@ ==> parsed_list(s) == Some(TaskList::Inbox),
        s == "next-action"@ || s == "next"@ ==> parsed_list(s) == Some(TaskList::NextAction),
        s == "waiting-for"@ || s == "waiting"@ ==> parsed_list(s) == Some(TaskList::WaitingFor),
        s == "someday-maybe"@ || s == "someday"@ || s == "maybe"@ ==> parsed_list(s) == Some(
            TaskList::SomedayMaybe,
        ),
        s == "archive"@ ==> parsed_list(s) == Some(TaskList::Archive),
{
    reveal_strlit("in");
    reveal_strlit("inbox");
    reveal_strlit("next-action");
    reveal_strlit("next");
    reveal_strlit("waiting-for");
    reveal_strlit("waiting");
    reveal_strlit("someday-maybe");
    reveal_strlit("someday");
    reveal_strlit("maybe");
    reveal_strlit("archive");
    assert("in"@.len() == 2 && "inbox"@.len() == 5 && "next-action"@.len() == 11);
    assert("next"@.len() == 4 && "waiting-for"@.len() == 11 && "waiting"@.len() == 7);
    assert("someday-maybe"@.len() == 13 && "someday"@.len() == 7 && "maybe"@.len() == 5);
    assert("archive"@.len() == 7);
    assert("next-action"@[0] == 'n' && "waiting-for"@[0] == 'w');
    assert("waiting"@[0] == 'w' && "someday"@[0] == 's' && "archive"@[0] == 'a');
    assert("inbox"@[0] == 'i' && "maybe"@[0] == 'm');
}

/// Each name, and no other text, names its state or event type.
pub proof fn lemma_state_and_event_names(s: Seq<char>)
    ensures
        parsed_state(s) is Some <==> s == "pending"@ || s == "doing"@ || s == "done"@ || s
            == "trash"@,
        s == "pending"@ ==> parsed_state(s) == Some(TaskState::Pending),
        s == "doing"@ ==> parsed_state(s) == Some(TaskState::Doing),
        s == "done"@ ==> parsed_state(s) == Some(TaskState::Done),
        s == "trash"@ ==> parsed_state(s) == Some(TaskState::Trash),
        parsed_event_type(s) is Some <==> s == "task.created"@ || s == "task.updated"@,
        s == "task.created"@ ==> parsed_event_type(s) == Some(TaskEventType::Created),
        s == "task.updated"@ ==> parsed_event_type(s) == Some(TaskEventType::Updated),
{
    reveal_strlit("pending");
    reveal_strlit("doing");
    reveal_strlit("done");
    reveal_strlit("trash");
    reveal_strlit("task.created");
    reveal_strlit("task.updated");
    assert("pending"@.len() == 7 && "doing"@.len() == 5 && "done"@.len() == 4);
    assert("trash"@.len() == 5 && "trash"@[0] == 't' && "doing"@[0] == 'd');
    assert("task.created"@[5] == 'c' && "task.updated"@[5] == 'u');
}

/// The name under which each list, state and event type is written, and what is said
/// of a text that names none.
pub proof fn lemma_names_written(l: TaskList, t: TaskState, e: TaskEventType, s: Seq<char>)
    ensures
        l == TaskList::Inbox ==> list_text(l) == "in"@,
        l == TaskList::NextAction ==> list_text(l) == "next-action"@,
        l == TaskList::WaitingFor ==> list_text(l) == "waiting-for"@,
        l == TaskList::SomedayMaybe ==> list_text(l) == "someday-maybe"@,
        l == TaskList::Archive ==> list_text(l) == "archive"@,
        t == TaskState::Pending ==> state_text(t) == "pending"@,
        t == TaskState::Doing ==> state_text(t) == "doing"@,
        t == TaskState::Done ==> state_text(t) == "done"@,
        t == TaskState::Trash ==> state_text(t) == "trash"@,
        e == TaskEventType::Created ==> event_type_text(e) == "task.created"@,
        e == TaskEventType::Updated ==> event_type_text(e) == "task.updated"@,
        unknown_list(s) == "unknown list '"@ + s
            + "'; expected in, next-action, waiting-for, someday-maybe, or archive"@,
        unknown_state(s) == "unknown state '"@ + s
            + "'; expected pending, doing, done, or trash"@,
        unknown_event_type(s) == "unknown task event type '"@ + s + "'"@,
{
}

// --------------------------------------------------------- tasks and filters

/// A task matches a filter exactly if its list and state agree where they are
/// given and every `key:value` pair of the filter is a pair of the task.
pub proof fn lemma_filter_meaning(f: FilterView, t: TaskView)
    ensures
        f.matches(t) <==> {
            &&& f.list is None || f.list == Some(t.list)
            &&& f.state is None || f.state == Some(t.state)
            &&& forall|k: Seq<char>, v: Seq<char>| #[trigger]
                f.labels.contains_pair(k, v) ==> t.labels.contains_pair(k, v)
        },
{
    if f.matches(t) {
        assert forall|k: Seq<char>, v: Seq<char>| #[trigger]
            f.labels.contains_pair(k, v) implies t.labels.contains_pair(k, v) by {
            assert(f.labels.dom().contains(k));
        }
    }
    if forall|k: Seq<char>, v: Seq<char>| #[trigger]
        f.labels.contains_pair(k, v) ==> t.labels.contains_pair(k, v) {
        assert forall|k: Seq<char>| #[trigger] f.labels.dom().contains(k) implies t.labels.dom().contains(
        k) && t.labels[k] == f.labels[k] by {
            assert(f.labels.contains_pair(k, f.labels[k]));
            assert(t.labels.contains_pair(k, f.labels[k]));
        }
    }
}

/// A task that lacks a label of the filter, or has another value for it, does not
/// match and stands in no list under the filter.
pub proof fn lemma_label_mismatch(
    f: FilterView,
    t: TaskView,
    k: Seq<char>,
    s: Seq<EventView>,
    tasks: Seq<TaskView>,
)
    requires
        f.labels.dom().contains(k),
        !t.labels.dom().contains(k) || t.labels[k] != f.labels[k],
    ensures
        !f.matches(t),
        is_listing(s, f, tasks) ==> !tasks.contains(t),
{
    if is_listing(s, f, tasks) && tasks.contains(t) {
        assert(wanted_task(s, f, t));
        let j = choose|j: int| wanted(s, f, j) && t == s[j].task();
        assert(wanted(s, f, j));
    }
}

/// The task after an event, and the one before it, have the event's own values.
pub proof fn lemma_event_tasks(e: EventView)
    ensures
        e.task().id == e.task_id,
        e.task().revision == e.revision,
        e.task().created_at == e.created_at,
        e.task().updated_at == e.updated_at,
        e.task().description == e.description,
        e.task().list == e.list_name,
        e.task().state == e.state,
        e.task().labels == e.labels,
        e.prev_task() is Some <==> e.prev_revision is Some && e.prev_updated_at is Some
            && e.prev_description is Some && e.prev_list_name is Some && e.prev_state is Some
            && e.prev_labels is Some,
        e.prev_task() matches Some(t) ==> {
            &&& t.id == e.task_id
            &&& Some(t.revision) == e.prev_revision
            &&& t.created_at == e.created_at
            &&& Some(t.updated_at) == e.prev_updated_at
            &&& Some(t.description) == e.prev_description
            &&& Some(t.list) == e.prev_list_name
            &&& Some(t.state) == e.prev_state
            &&& Some(t.labels) == e.prev_labels
        },
{
}

// ------------------------------------------------------------------- refusals

/// What is said of each refusal, and the status that answers it.
pub proof fn lemma_refusals(id: u128, m: Seq<char>, a: i64, b: i64)
    ensures
        Fault::NotFound(id).status() == 404,
        Fault::NotFound(id).message() == "task "@ + hyphenated(id) + " was not found"@,
        Fault::Validation(m).status() == 400,
        Fault::Validation(m).message() == "invalid request: "@ + m,
        Fault::Conflict(m).status() == 409,
        Fault::Conflict(m).message() == "task state change conflict: "@ + m,
        (Fault::RevisionConflict { task_id: id, expected_revision: a, current_revision: b }).status()
            == 409,
        (Fault::RevisionConflict {
            task_id: id,
            expected_revision: a,
            current_revision: b,
        }).message() == "task "@ + hyphenated(id) + " revision conflict: expected revision "@
            + decimal(a as int) + ", current revision "@ + decimal(b as int),
        (Fault::Compacted { requested: a, compacted_revision: b }).status() == 410,
        (Fault::Compacted { requested: a, compacted_revision: b }).message() == "revision "@
            + decimal(a as int) + " has been compacted at revision "@ + decimal(b as int),
        (Fault::FutureRevision { requested: a, current_revision: b }).status() == 400,
        (Fault::FutureRevision { requested: a, current_revision: b }).message() == "revision "@
            + decimal(a as int) + " is ahead of current revision "@ + decimal(b as int),
        Fault::Database(m).status() == 500,
        Fault::Database(m).message() == "database error: "@ + m,
{
}

} // verus!
