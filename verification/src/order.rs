//! Lexicographic order of texts, sorting and joining.

use crate::text::chars_of;
use vstd::prelude::*;
use vstd::relations::*;
use vstd::seq_lib::*;

verus! {

/// Whether a text stands at or before another in code point order.
pub open spec fn text_le(a: Seq<char>, b: Seq<char>) -> bool
    decreases a.len(),
{
    if a.len() == 0 {
        true
    } else if b.len() == 0 {
        false
    } else if a[0] != b[0] {
        (a[0] as int) < (b[0] as int)
    } else {
        text_le(a.drop_first(), b.drop_first())
    }
}

/// The order of texts as a relation.
pub open spec fn by_text() -> spec_fn(Seq<char>, Seq<char>) -> bool {
    |a: Seq<char>, b: Seq<char>| text_le(a, b)
}

proof fn lemma_le_reflexive(a: Seq<char>)
    ensures
        text_le(a, a),
    decreases a.len(),
{
    if a.len() > 0 {
        lemma_le_reflexive(a.drop_first());
    }
}

proof fn lemma_le_antisymmetric(a: Seq<char>, b: Seq<char>)
    requires
        text_le(a, b),
        text_le(b, a),
    ensures
        a == b,
    decreases a.len(),
{
    if a.len() > 0 && b.len() > 0 {
        lemma_le_antisymmetric(a.drop_first(), b.drop_first());
        assert(a =~= seq![a[0]] + a.drop_first());
        assert(b =~= seq![b[0]] + b.drop_first());
    } else {
        assert(a =~= b);
    }
}

proof fn lemma_le_transitive(a: Seq<char>, b: Seq<char>, c: Seq<char>)
    requires
        text_le(a, b),
        text_le(b, c),
    ensures
        text_le(a, c),
    decreases a.len(),
{
    if a.len() > 0 && b.len() > 0 && c.len() > 0 && a[0] == b[0] && b[0] == c[0] {
        lemma_le_transitive(a.drop_first(), b.drop_first(), c.drop_first());
    }
}

proof fn lemma_le_total(a: Seq<char>, b: Seq<char>)
    ensures
        text_le(a, b) || text_le(b, a),
    decreases a.len(),
{
    if a.len() > 0 && b.len() > 0 && a[0] == b[0] {
        lemma_le_total(a.drop_first(), b.drop_first());
    }
}

/// The order of texts is total.
pub proof fn lemma_text_order()
    ensures
        total_ordering(by_text()),
{
    assert forall|a: Seq<char>| #[trigger] by_text()(a, a) by {
        lemma_le_reflexive(a);
    }
    assert forall|a: Seq<char>, b: Seq<char>| #[trigger]
        by_text()(a, b) && #[trigger] by_text()(b, a) implies a == b by {
        lemma_le_antisymmetric(a, b);
    }
    assert forall|a: Seq<char>, b: Seq<char>, c: Seq<char>| #[trigger]
        by_text()(a, b) && #[trigger] by_text()(b, c) implies by_text()(a, c) by {
        lemma_le_transitive(a, b, c);
    }
    assert forall|a: Seq<char>, b: Seq<char>| #[trigger] by_text()(a, b) || #[trigger] by_text()(
        b,
        a,
    ) by {
        lemma_le_total(a, b);
    }
}

/// The texts of a vector, seen as characters.
pub open spec fn texts(v: Seq<String>) -> Seq<Seq<char>> {
    v.map_values(|s: String| s@)
}

/// Texts in ascending order.
pub open spec fn sorted_texts(parts: Seq<Seq<char>>) -> Seq<Seq<char>> {
    parts.sort_by(by_text())
}

/// Whether a text stands at or before another.
pub fn at_or_before(a: &str, b: &str) -> (r: bool)
    ensures
        r == text_le(a@, b@),
{
    let left: Vec<char> = chars_of(a);
    let right: Vec<char> = chars_of(b);
    let mut i: usize = 0;
    assert(a@.skip(0) =~= a@);
    assert(b@.skip(0) =~= b@);
    while i < left.len() && i < right.len() && left[i] == right[i]
        invariant
            left@ == a@,
            right@ == b@,
            i <= left@.len(),
            i <= right@.len(),
            text_le(a@, b@) == text_le(a@.skip(i as int), b@.skip(i as int)),
        decreases left.len() - i,
    {
        assert(a@.skip(i as int).drop_first() =~= a@.skip(i + 1));
        assert(b@.skip(i as int).drop_first() =~= b@.skip(i + 1));
        i = i + 1;
    }
    if i == left.len() {
        true
    } else if i == right.len() {
        false
    } else {
        left[i] < right[i]
    }
}

/// Sorts texts in ascending order.
pub fn sort_texts(parts: Vec<String>) -> (r: Vec<String>)
    ensures
        texts(r@) == sorted_texts(texts(parts@)),
{
    let mut out: Vec<String> = Vec::new();
    let mut i: usize = 0;
    proof {
        lemma_text_order();
        assert(texts(parts@.take(0)) =~= texts(out@));
    }
    while i < parts.len()
        invariant
            i <= parts@.len(),
            total_ordering(by_text()),
            sorted_by(texts(out@), by_text()),
            texts(out@).to_multiset() == texts(parts@.take(i as int)).to_multiset(),
        decreases parts.len() - i,
    {
        let part: String = parts[i].clone();
        let mut at: usize = 0;
        while at < out.len() && at_or_before(out[at].as_str(), part.as_str())
            invariant
                at <= out@.len(),
                forall|j: int| 0 <= j < at ==> text_le((#[trigger] out@[j])@, part@),
            ensures
                at <= out@.len(),
                forall|j: int| 0 <= j < at ==> text_le((#[trigger] out@[j])@, part@),
                at < out@.len() ==> !text_le(out@[at as int]@, part@),
            decreases out.len() - at,
        {
            at = at + 1;
        }
        let ghost before = out@;
        out.insert(at, part);
        proof {
            assert(texts(out@) =~= texts(before).insert(at as int, part@));
            to_multiset_insert(texts(before), at as int, part@);
            assert(texts(parts@.take(i + 1)) =~= texts(parts@.take(i as int)).push(part@));
            to_multiset_build(texts(parts@.take(i as int)), part@);
            assert forall|j: int, k: int| 0 <= j < k < out@.len() implies (by_text())(
                texts(out@)[j],
                texts(out@)[k],
            ) by {
                let sorted = texts(before);
                if j == at {
                    assert(by_text()(part@, sorted[at as int]) || by_text()(
                        sorted[at as int],
                        part@,
                    ));
                    assert(by_text()(part@, sorted[at as int]));
                    if k > at + 1 {
                        assert(by_text()(sorted[at as int], sorted[k - 1]));
                    }
                } else if k == at {
                    assert(text_le(before[j]@, part@));
                } else {
                    let j0 = if j < at { j } else { j - 1 };
                    let k0 = if k < at { k } else { k - 1 };
                    assert(by_text()(sorted[j0], sorted[k0]));
                }
            }
        }
        i = i + 1;
    }
    proof {
        assert(parts@.take(parts@.len() as int) =~= parts@);
        let goal = texts(parts@);
        goal.lemma_sort_by_ensures(by_text());
        lemma_sorted_unique(texts(out@), sorted_texts(goal), by_text());
    }
    out
}

/// Texts one after another with a separator between them.
pub open spec fn joined_texts(parts: Seq<Seq<char>>, separator: Seq<char>) -> Seq<char>
    decreases parts.len(),
{
    if parts.len() == 0 {
        Seq::empty()
    } else if parts.len() == 1 {
        parts[0]
    } else {
        joined_texts(parts.drop_last(), separator) + separator + parts.last()
    }
}

/// Joins texts with a separator between them.
pub fn join_texts(parts: &Vec<String>, separator: &str) -> (r: String)
    ensures
        r@ == joined_texts(texts(parts@), separator@),
{
    let mut out: String = String::new();
    let mut i: usize = 0;
    while i < parts.len()
        invariant
            i <= parts@.len(),
            out@ == joined_texts(texts(parts@).take(i as int), separator@),
        decreases parts.len() - i,
    {
        if i > 0 {
            out.append(separator);
        }
        out.append(parts[i].as_str());
        assert(texts(parts@).take(i + 1).drop_last() =~= texts(parts@).take(i as int));
        i = i + 1;
    }
    assert(texts(parts@).take(parts@.len() as int) =~= texts(parts@));
    out
}

/// The order of numbers as a relation.
pub open spec fn by_number() -> spec_fn(u128, u128) -> bool {
    |a: u128, b: u128| a <= b
}

/// Numbers in ascending order.
pub open spec fn sorted_numbers(values: Seq<u128>) -> Seq<u128> {
    values.sort_by(by_number())
}

/// Sorting numbers keeps how many there are.
pub proof fn lemma_sorted_numbers(values: Seq<u128>)
    ensures
        sorted_numbers(values).len() == values.len(),
        sorted_numbers(values).to_multiset() == values.to_multiset(),
        sorted_by(sorted_numbers(values), by_number()),
{
    values.lemma_sort_by_ensures(by_number());
    values.to_multiset_ensures();
    sorted_numbers(values).to_multiset_ensures();
}

/// Sorts numbers in ascending order.
pub fn sort_numbers(values: &Vec<u128>) -> (r: Vec<u128>)
    ensures
        r@ == sorted_numbers(values@),
{
    let mut out: Vec<u128> = Vec::new();
    let mut i: usize = 0;
    assert(values@.take(0) =~= out@);
    while i < values.len()
        invariant
            i <= values@.len(),
            sorted_by(out@, by_number()),
            out@.to_multiset() == values@.take(i as int).to_multiset(),
        decreases values.len() - i,
    {
        let value: u128 = values[i];
        let mut at: usize = 0;
        while at < out.len() && out[at] <= value
            invariant
                at <= out@.len(),
                forall|j: int| 0 <= j < at ==> (#[trigger] out@[j]) <= value,
            ensures
                at <= out@.len(),
                forall|j: int| 0 <= j < at ==> (#[trigger] out@[j]) <= value,
                at < out@.len() ==> out@[at as int] > value,
            decreases out.len() - at,
        {
            at = at + 1;
        }
        let ghost before = out@;
        out.insert(at, value);
        proof {
            to_multiset_insert(before, at as int, value);
            assert(values@.take(i + 1) =~= values@.take(i as int).push(value));
            to_multiset_build(values@.take(i as int), value);
            assert forall|j: int, k: int| 0 <= j < k < out@.len() implies (by_number())(
                out@[j],
                out@[k],
            ) by {
                if j == at {
                    assert(by_number()(before[at as int], before[k - 1]) || k == at + 1);
                } else if k == at {
                    assert(before[j] <= value);
                } else {
                    let j0 = if j < at { j } else { j - 1 };
                    let k0 = if k < at { k } else { k - 1 };
                    assert(by_number()(before[j0], before[k0]));
                }
            }
        }
        i = i + 1;
    }
    proof {
        assert(values@.take(values@.len() as int) =~= values@);
        values@.lemma_sort_by_ensures(by_number());
        lemma_sorted_unique(out@, sorted_numbers(values@), by_number());
    }
    out
}

/// A text comes before another where the first character in which they differ does, by its
/// code point, or where it is the shorter one and they do not differ.
pub proof fn law_texts_compare_by_first_difference(a: Seq<char>, b: Seq<char>, i: int)
    requires
        0 <= i <= a.len(),
        i <= b.len(),
        forall|j: int| 0 <= j < i ==> #[trigger] a[j] == b[j],
    ensures
        i < a.len() && i < b.len() && a[i] != b[i] ==> (text_le(a, b) <==> (a[i] as int) < (
        b[i] as int)),
        i == a.len() ==> text_le(a, b),
        i == b.len() && i < a.len() ==> !text_le(a, b),
    decreases i,
{
    if i > 0 {
        let x = a.drop_first();
        let y = b.drop_first();
        assert(a[0] == b[0]);
        assert forall|j: int| 0 <= j < i - 1 implies #[trigger] x[j] == y[j] by {
            assert(a[j + 1] == b[j + 1]);
        }
        law_texts_compare_by_first_difference(x, y, i - 1);
    }
}

/// Sorting puts texts in ascending order and keeps each as often as it was there.
pub proof fn law_sorted_texts_ascend(parts: Seq<Seq<char>>, i: int, j: int)
    requires
        0 <= i < j < sorted_texts(parts).len(),
    ensures
        text_le(sorted_texts(parts)[i], sorted_texts(parts)[j]),
        sorted_texts(parts).to_multiset() == parts.to_multiset(),
        sorted_texts(parts).len() == parts.len(),
{
    lemma_text_order();
    parts.lemma_sort_by_ensures(by_text());
    parts.to_multiset_ensures();
    sorted_texts(parts).to_multiset_ensures();
    assert(by_text()(sorted_texts(parts)[i], sorted_texts(parts)[j]));
}

/// Sorting puts numbers in ascending order and keeps each as often as it was there.
pub proof fn law_sorted_numbers_ascend(values: Seq<u128>, i: int, j: int)
    requires
        0 <= i < j < sorted_numbers(values).len(),
    ensures
        sorted_numbers(values)[i] <= sorted_numbers(values)[j],
        sorted_numbers(values).to_multiset() == values.to_multiset(),
        sorted_numbers(values).len() == values.len(),
{
    lemma_sorted_numbers(values);
    assert(by_number()(sorted_numbers(values)[i], sorted_numbers(values)[j]));
}

/// The separator stands between texts and nowhere else.
pub proof fn law_separators_stand_between(
    parts: Seq<Seq<char>>,
    part: Seq<char>,
    separator: Seq<char>,
)
    ensures
        joined_texts(Seq::empty(), separator).len() == 0,
        joined_texts(seq![part], separator) == part,
        parts.len() > 0 ==> joined_texts(parts.push(part), separator) == joined_texts(
            parts,
            separator,
        ) + separator + part,
{
    assert(parts.push(part).drop_last() =~= parts);
}

} // verus!
