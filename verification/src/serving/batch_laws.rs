//! What batch keys promise: equal keys mean equal broadcast values.

use super::batch;
use crate::order;
use crate::text;
use crate::value::ValueView;
use vstd::multiset::*;
use vstd::prelude::*;
use vstd::seq_lib::*;

verus! {

/// Two texts that are equal split alike at the first of a character.
proof fn lemma_split_first(
    a: Seq<char>,
    x: Seq<char>,
    b: Seq<char>,
    y: Seq<char>,
    separator: char,
)
    requires
        !a.contains(separator),
        !b.contains(separator),
        a + seq![separator] + x == b + seq![separator] + y,
    ensures
        a == b,
        x == y,
{
    let s = a + seq![separator] + x;
    let t = b + seq![separator] + y;
    assert(s[a.len() as int] == separator);
    assert(t[b.len() as int] == separator);
    if a.len() < b.len() {
        assert(t[a.len() as int] == b[a.len() as int]);
        assert(b.contains(separator));
    }
    if b.len() < a.len() {
        assert(s[b.len() as int] == a[b.len() as int]);
        assert(a.contains(separator));
    }
    assert(a =~= s.subrange(0, a.len() as int));
    assert(b =~= t.subrange(0, b.len() as int));
    assert(x =~= s.skip((a.len() + 1) as int));
    assert(y =~= t.skip((b.len() + 1) as int));
}

/// Two texts that are equal split alike at the last of a character.
proof fn lemma_split_last(
    x: Seq<char>,
    a: Seq<char>,
    y: Seq<char>,
    b: Seq<char>,
    separator: char,
)
    requires
        !a.contains(separator),
        !b.contains(separator),
        x + seq![separator] + a == y + seq![separator] + b,
    ensures
        a == b,
        x == y,
{
    let s = x + seq![separator] + a;
    let t = y + seq![separator] + b;
    assert(s.len() == x.len() + 1 + a.len());
    assert(t.len() == y.len() + 1 + b.len());
    assert(s[x.len() as int] == separator);
    assert(t[y.len() as int] == separator);
    if x.len() < y.len() {
        assert(s[y.len() as int] == a[y.len() - x.len() - 1]);
        assert(a.contains(separator));
    }
    if y.len() < x.len() {
        assert(t[x.len() as int] == b[x.len() - y.len() - 1]);
        assert(b.contains(separator));
    }
    assert(x =~= s.subrange(0, x.len() as int));
    assert(y =~= t.subrange(0, y.len() as int));
    assert(a =~= s.skip((x.len() + 1) as int));
    assert(b =~= t.skip((y.len() + 1) as int));
}

/// Whether every text is nonempty and free of the separator.
pub open spec fn separable(parts: Seq<Seq<char>>) -> bool {
    forall|i: int| 0 <= i < parts.len() ==> (#[trigger] parts[i]).len() > 0 && !parts[i].contains('&')
}

/// Texts that hold no separator can be told apart once joined.
proof fn lemma_join_injective(p: Seq<Seq<char>>, q: Seq<Seq<char>>)
    requires
        separable(p),
        separable(q),
        order::joined_texts(p, "&"@) == order::joined_texts(q, "&"@),
    ensures
        p == q,
    decreases p.len(),
{
    reveal_strlit("&");
    assert("&"@ =~= seq!['&']);
    let s = order::joined_texts(p, "&"@);
    if p.len() >= 2 && q.len() >= 2 {
        lemma_split_last(
            order::joined_texts(p.drop_last(), "&"@),
            p.last(),
            order::joined_texts(q.drop_last(), "&"@),
            q.last(),
            '&',
        );
        lemma_join_injective(p.drop_last(), q.drop_last());
        assert(p =~= p.drop_last().push(p.last()));
        assert(q =~= q.drop_last().push(q.last()));
    } else if p.len() >= 2 {
        let at = order::joined_texts(p.drop_last(), "&"@).len() as int;
        assert(s[at] == '&');
        if q.len() == 1 {
            assert(q[0].contains('&'));
        }
        assert(false);
    } else if q.len() >= 2 {
        let at = order::joined_texts(q.drop_last(), "&"@).len() as int;
        assert(s[at] == '&');
        if p.len() == 1 {
            assert(p[0].contains('&'));
        }
        assert(false);
    } else {
        if p.len() == 1 && q.len() == 0 {
            assert(p[0].len() > 0);
        }
        if q.len() == 1 && p.len() == 0 {
            assert(q[0].len() > 0);
        }
        assert(p =~= q);
    }
}

/// An escaped text starts with its first character, escaped.
proof fn lemma_escaped_front(text: Seq<char>)
    requires
        text.len() > 0,
    ensures
        batch::escaped(text) == batch::escaped_char(text[0]) + batch::escaped(text.drop_first()),
    decreases text.len(),
{
    let before = text.drop_last();
    let rest = text.drop_first();
    if before.len() == 0 {
        assert(batch::escaped(before).len() == 0);
        assert(batch::escaped(text) =~= batch::escaped_char(text[0]) + batch::escaped(rest));
    } else {
        lemma_escaped_front(before);
        assert(before.drop_first() =~= rest.drop_last());
        assert(batch::escaped(text) =~= batch::escaped_char(text[0]) + batch::escaped(rest));
    }
}

/// An escaped text is no shorter, and holds none of the characters that a key is
/// built with.
proof fn lemma_escaped_clean(text: Seq<char>)
    ensures
        batch::escaped(text).len() >= text.len(),
        !batch::escaped(text).contains('='),
        !batch::escaped(text).contains('&'),
    decreases text.len(),
{
    if text.len() > 0 {
        let before = batch::escaped(text.drop_last());
        let last = batch::escaped_char(text.last());
        lemma_escaped_clean(text.drop_last());
        assert forall|i: int| 0 <= i < batch::escaped(text).len() implies batch::escaped(text)[i]
            != '=' && batch::escaped(text)[i] != '&' by {
            if i < before.len() {
                assert(before.contains(before[i]));
                assert(batch::escaped(text)[i] == before[i]);
            } else {
                assert(batch::escaped(text)[i] == last[i - before.len()]);
            }
        }
    }
}

/// Escaping tells texts apart.
proof fn lemma_escaped_injective(a: Seq<char>, b: Seq<char>)
    requires
        batch::escaped(a) == batch::escaped(b),
    ensures
        a == b,
    decreases a.len(),
{
    lemma_escaped_clean(a);
    lemma_escaped_clean(b);
    if a.len() == 0 || b.len() == 0 {
        assert(a =~= b);
    } else {
        lemma_escaped_front(a);
        lemma_escaped_front(b);
        let s = batch::escaped(a);
        let x = batch::escaped_char(a[0]);
        let y = batch::escaped_char(b[0]);
        let u = batch::escaped(a.drop_first());
        let v = batch::escaped(b.drop_first());
        assert(s[0] == x[0] && s[0] == y[0]);
        if s[0] == '%' {
            assert(x.len() == 3 && y.len() == 3);
            assert(s[2] == x[2] && s[2] == y[2]);
        }
        assert(a[0] == b[0]);
        lemma_after_prefix(x, u, v);
        lemma_escaped_injective(a.drop_first(), b.drop_first());
        assert(a =~= seq![a[0]] + a.drop_first());
        assert(b =~= seq![b[0]] + b.drop_first());
    }
}

/// Decimal forms tell natural numbers apart.
pub proof fn lemma_decimal_injective(a: nat, b: nat)
    requires
        text::decimal(a) == text::decimal(b),
    ensures
        a == b,
    decreases a,
{
    if a >= 10 {
        lemma_decimal_nonempty(a / 10);
    }
    if b >= 10 {
        lemma_decimal_nonempty(b / 10);
    }
    if a < 10 && b < 10 {
        assert(text::decimal(a)[0] == text::digit_char(a));
        assert(text::decimal(b)[0] == text::digit_char(b));
    } else if a >= 10 && b >= 10 {
        assert(text::decimal(a).last() == text::digit_char(a % 10));
        assert(text::decimal(b).last() == text::digit_char(b % 10));
        assert(text::decimal(a).drop_last() =~= text::decimal(a / 10));
        assert(text::decimal(b).drop_last() =~= text::decimal(b / 10));
        lemma_decimal_injective(a / 10, b / 10);
    } else if a < 10 {
        assert(text::decimal(a).len() == 1);
        assert(text::decimal(b).len() >= 2);
    } else {
        assert(text::decimal(b).len() == 1);
        assert(text::decimal(a).len() >= 2);
    }
}

/// A decimal form has a digit, and starts with one.
proof fn lemma_decimal_nonempty(n: nat)
    ensures
        text::decimal(n).len() >= 1,
        '0' <= text::decimal(n)[0] <= '9',
    decreases n,
{
    if n >= 10 {
        lemma_decimal_nonempty(n / 10);
    }
}

/// Decimal forms tell integers apart.
pub proof fn lemma_signed_decimal_injective(a: int, b: int)
    requires
        text::signed_decimal(a) == text::signed_decimal(b),
    ensures
        a == b,
{
    if a < 0 {
        assert(text::signed_decimal(a)[0] == '-');
        assert(text::signed_decimal(a).skip(1) =~= text::decimal((-a) as nat));
    } else {
        lemma_decimal_nonempty(a as nat);
    }
    if b < 0 {
        assert(text::signed_decimal(b)[0] == '-');
        assert(text::signed_decimal(b).skip(1) =~= text::decimal((-b) as nat));
    } else {
        lemma_decimal_nonempty(b as nat);
    }
    if a < 0 && b < 0 {
        lemma_decimal_injective((-a) as nat, (-b) as nat);
    } else if a >= 0 && b >= 0 {
        lemma_decimal_injective(a as nat, b as nat);
    }
}

/// Whether two values agree as far as fingerprints can tell: scalars and texts
/// are equal, lists and objects have the same JSON text, opaque values never agree.
pub open spec fn same_broadcast(a: ValueView, b: ValueView) -> bool {
    match (a, b) {
        (ValueView::List(x), ValueView::List(y)) => batch::text_or_empty(
            crate::json::json_list_text(x),
        ) == batch::text_or_empty(crate::json::json_list_text(y)),
        (ValueView::Dict(x), ValueView::Dict(y)) => batch::text_or_empty(
            crate::json::json_object_text(x),
        ) == batch::text_or_empty(crate::json::json_object_text(y)),
        _ => a == b && !batch::is_opaque(a),
    }
}

spec fn lead(value: ValueView) -> (char, char) {
    match value {
        ValueView::Null => ('n', 'u'),
        ValueView::String(_) => ('s', ':'),
        ValueView::Float(_) => ('f', ':'),
        ValueView::Double(_) => ('d', ':'),
        ValueView::Int(_) => ('i', ':'),
        ValueView::Long(_) => ('l', ':'),
        ValueView::Bool(_) => ('b', ':'),
        ValueView::List(_) => ('l', 'i'),
        ValueView::Dict(_) => ('d', 'i'),
        _ => ('_', '_'),
    }
}

/// The first two characters of a fingerprint give the kind of the value.
proof fn lemma_lead(value: ValueView, number: nat)
    ensures
        batch::fingerprint(value, number).len() >= 2,
        batch::fingerprint(value, number)[0] == lead(value).0,
        batch::fingerprint(value, number)[1] == lead(value).1,
{
    reveal_strlit("null");
    reveal_strlit("s:");
    reveal_strlit("f:");
    reveal_strlit("d:");
    reveal_strlit("i:");
    reveal_strlit("l:");
    reveal_strlit("b:");
    reveal_strlit("list:");
    reveal_strlit("dict:");
    reveal_strlit("__opaque_");
}

/// What follows a prefix.
proof fn lemma_after_prefix(prefix: Seq<char>, x: Seq<char>, y: Seq<char>)
    requires
        prefix + x == prefix + y,
    ensures
        x == y,
{
    assert(x =~= (prefix + x).skip(prefix.len() as int));
    assert(y =~= (prefix + y).skip(prefix.len() as int));
}

/// Fingerprints tell values apart: two values have the same fingerprint only
/// where they agree, or where both are opaque and were given the same number.
pub proof fn law_fingerprint_injective(a: ValueView, m: nat, b: ValueView, n: nat)
    requires
        batch::fingerprint(a, m) == batch::fingerprint(b, n),
    ensures
        same_broadcast(a, b) || (batch::is_opaque(a) && batch::is_opaque(b) && m == n),
{
    lemma_lead(a, m);
    lemma_lead(b, n);
    match (a, b) {
        (ValueView::String(x), ValueView::String(y)) => {
            lemma_after_prefix("s:"@, x, y);
        },
        (ValueView::Float(x), ValueView::Float(y)) => {
            lemma_after_prefix("f:"@, text::decimal(x as nat), text::decimal(y as nat));
            lemma_decimal_injective(x as nat, y as nat);
        },
        (ValueView::Double(x), ValueView::Double(y)) => {
            lemma_after_prefix("d:"@, text::decimal(x as nat), text::decimal(y as nat));
            lemma_decimal_injective(x as nat, y as nat);
        },
        (ValueView::Int(x), ValueView::Int(y)) => {
            lemma_after_prefix(
                "i:"@,
                text::signed_decimal(x as int),
                text::signed_decimal(y as int),
            );
            lemma_signed_decimal_injective(x as int, y as int);
        },
        (ValueView::Long(x), ValueView::Long(y)) => {
            lemma_after_prefix(
                "l:"@,
                text::signed_decimal(x as int),
                text::signed_decimal(y as int),
            );
            lemma_signed_decimal_injective(x as int, y as int);
        },
        (ValueView::Bool(x), ValueView::Bool(y)) => {
            reveal_strlit("true");
            reveal_strlit("false");
            let xs = if x { "true"@ } else { "false"@ };
            let ys = if y { "true"@ } else { "false"@ };
            lemma_after_prefix("b:"@, xs, ys);
            assert("true"@.len() != "false"@.len());
        },
        (ValueView::List(x), ValueView::List(y)) => {
            lemma_after_prefix(
                "list:"@,
                batch::text_or_empty(crate::json::json_list_text(x)),
                batch::text_or_empty(crate::json::json_list_text(y)),
            );
        },
        (ValueView::Dict(x), ValueView::Dict(y)) => {
            lemma_after_prefix(
                "dict:"@,
                batch::text_or_empty(crate::json::json_object_text(x)),
                batch::text_or_empty(crate::json::json_object_text(y)),
            );
        },
        _ => {
            if batch::is_opaque(a) {
                assert(batch::is_opaque(b));
                let head = "__opaque_"@;
                let tail = "__"@;
                let x = text::decimal(m);
                let y = text::decimal(n);
                assert(head + x + tail =~= head + (x + tail));
                assert(head + y + tail =~= head + (y + tail));
                lemma_after_prefix(head, x + tail, y + tail);
                assert(x =~= (x + tail).take((x + tail).len() - tail.len()));
                assert(y =~= (y + tail).take((y + tail).len() - tail.len()));
                lemma_decimal_injective(m, n);
            }
        },
    }
}

/// The part of the name at a position of the order.
pub open spec fn part_at(
    names: Seq<Seq<char>>,
    inputs: Map<Seq<char>, ValueView>,
    params: Set<Seq<char>>,
    counter: u64,
    i: int,
) -> Seq<char> {
    batch::key_part(
        names[i],
        inputs[names[i]],
        batch::counter_after(names.take(i), inputs, params, counter) as nat,
    )
}

/// Whether the name at a position of the order is a broadcast one.
pub open spec fn broadcast_at(names: Seq<Seq<char>>, params: Set<Seq<char>>, i: int) -> bool {
    0 <= i < names.len() && !params.contains(names[i])
}

/// Whether a text is the part of a broadcast name.
pub open spec fn is_part(
    names: Seq<Seq<char>>,
    inputs: Map<Seq<char>, ValueView>,
    params: Set<Seq<char>>,
    counter: u64,
    part: Seq<char>,
) -> bool {
    exists|i: int|
        broadcast_at(names, params, i) && part == #[trigger] part_at(
            names,
            inputs,
            params,
            counter,
            i,
        )
}

/// The parts of a key are those of the broadcast names.
proof fn lemma_parts(
    names: Seq<Seq<char>>,
    inputs: Map<Seq<char>, ValueView>,
    params: Set<Seq<char>>,
    counter: u64,
)
    ensures
        forall|k: int|
            0 <= k < batch::key_parts(names, inputs, params, counter).len() ==> is_part(
                names,
                inputs,
                params,
                counter,
                #[trigger] batch::key_parts(names, inputs, params, counter)[k],
            ),
        forall|i: int|
            broadcast_at(names, params, i) ==> batch::key_parts(
                names,
                inputs,
                params,
                counter,
            ).contains(#[trigger] part_at(names, inputs, params, counter, i)),
    decreases names.len(),
{
    let parts = batch::key_parts(names, inputs, params, counter);
    if names.len() > 0 {
        let before = names.drop_last();
        let last = names.len() - 1;
        let sub = batch::key_parts(before, inputs, params, counter);
        lemma_parts(before, inputs, params, counter);
        assert(names.take(last) =~= before);
        assert forall|i: int| 0 <= i < last implies part_at(names, inputs, params, counter, i)
            == part_at(before, inputs, params, counter, i) by {
            assert(names.take(i) =~= before.take(i));
        }
        if broadcast_at(names, params, last) {
            assert(parts == sub.push(part_at(names, inputs, params, counter, last)));
        }
        assert forall|k: int| 0 <= k < parts.len() implies is_part(
            names,
            inputs,
            params,
            counter,
            #[trigger] parts[k],
        ) by {
            if k < sub.len() {
                assert(parts[k] == sub[k]);
                assert(is_part(before, inputs, params, counter, sub[k]));
                let i = choose|i: int|
                    broadcast_at(before, params, i) && sub[k] == #[trigger] part_at(
                        before,
                        inputs,
                        params,
                        counter,
                        i,
                    );
                assert(parts[k] == part_at(names, inputs, params, counter, i));
                assert(names[i] == before[i]);
            } else {
                assert(parts[k] == part_at(names, inputs, params, counter, last));
            }
        }
        assert forall|i: int|
            broadcast_at(names, params, i) implies parts.contains(
            #[trigger] part_at(names, inputs, params, counter, i),
        ) by {
            if i < last {
                assert(names[i] == before[i]);
                let part = part_at(before, inputs, params, counter, i);
                assert(sub.contains(part));
                let k = choose|k: int| 0 <= k < sub.len() && sub[k] == part;
                assert(parts[k] == part);
            } else {
                assert(parts[sub.len() as int] == part_at(names, inputs, params, counter, i));
            }
        }
    }
}

/// How many opaque broadcast values some names have.
pub open spec fn opaque_count(
    names: Seq<Seq<char>>,
    inputs: Map<Seq<char>, ValueView>,
    params: Set<Seq<char>>,
) -> nat
    decreases names.len(),
{
    if names.len() == 0 {
        0
    } else {
        opaque_count(names.drop_last(), inputs, params) + (if !params.contains(names.last())
            && batch::is_opaque(inputs[names.last()]) {
            1nat
        } else {
            0nat
        })
    }
}

/// Where the counter does not wrap around, it counts the opaque values.
proof fn lemma_counter(
    names: Seq<Seq<char>>,
    inputs: Map<Seq<char>, ValueView>,
    params: Set<Seq<char>>,
    counter: u64,
)
    requires
        counter + opaque_count(names, inputs, params) <= u64::MAX,
    ensures
        batch::counter_after(names, inputs, params, counter) == counter + opaque_count(
            names,
            inputs,
            params,
        ),
    decreases names.len(),
{
    if names.len() > 0 {
        lemma_counter(names.drop_last(), inputs, params, counter);
    }
}

/// Fewer names have no more opaque values; an opaque one that follows adds one.
proof fn lemma_count_grows(
    names: Seq<Seq<char>>,
    inputs: Map<Seq<char>, ValueView>,
    params: Set<Seq<char>>,
    i: int,
)
    requires
        0 <= i < names.len(),
    ensures
        opaque_count(names.take(i), inputs, params) <= opaque_count(names, inputs, params),
        !params.contains(names[i]) && batch::is_opaque(inputs[names[i]]) ==> opaque_count(
            names.take(i),
            inputs,
            params,
        ) < opaque_count(names, inputs, params),
    decreases names.len(),
{
    let before = names.drop_last();
    if i == names.len() - 1 {
        assert(names.take(i) =~= before);
    } else {
        lemma_count_grows(before, inputs, params, i);
        assert(names.take(i) =~= before.take(i));
        assert(before[i] == names[i]);
    }
}

/// The parts of a key can be told apart once joined.
proof fn lemma_parts_separable(
    names: Seq<Seq<char>>,
    inputs: Map<Seq<char>, ValueView>,
    params: Set<Seq<char>>,
    counter: u64,
)
    ensures
        separable(order::sorted_texts(batch::key_parts(names, inputs, params, counter))),
{
    let parts = batch::key_parts(names, inputs, params, counter);
    let sorted = order::sorted_texts(parts);
    lemma_parts(names, inputs, params, counter);
    order::lemma_text_order();
    parts.lemma_sort_by_ensures(order::by_text());
    reveal_strlit("=");
    assert forall|k: int| 0 <= k < sorted.len() implies (#[trigger] sorted[k]).len() > 0
        && !sorted[k].contains('&') by {
        assert(sorted.contains(sorted[k]));
        assert(parts.contains(sorted[k]));
        let j = choose|j: int| 0 <= j < parts.len() && parts[j] == sorted[k];
        assert(is_part(names, inputs, params, counter, parts[j]));
        let i = choose|i: int|
            broadcast_at(names, params, i) && parts[j] == #[trigger] part_at(
                names,
                inputs,
                params,
                counter,
                i,
            );
        let number = batch::counter_after(names.take(i), inputs, params, counter) as nat;
        let name = batch::escaped(names[i]);
        let print = batch::escaped(batch::fingerprint(inputs[names[i]], number));
        lemma_escaped_clean(names[i]);
        lemma_escaped_clean(batch::fingerprint(inputs[names[i]], number));
        if sorted[k].contains('&') {
            let at = choose|at: int| 0 <= at < sorted[k].len() && sorted[k][at] == '&';
            if at < name.len() {
                assert(name[at] == '&');
            } else if at > name.len() {
                assert(print[at - name.len() - 1] == '&');
            }
        }
    }
}

/// A broadcast name of one request is one of the other, with the same
/// fingerprint, where their keys are equal.
proof fn lemma_shared_part(
    names_a: Seq<Seq<char>>,
    a: Map<Seq<char>, ValueView>,
    counter_a: u64,
    names_b: Seq<Seq<char>>,
    b: Map<Seq<char>, ValueView>,
    counter_b: u64,
    params: Set<Seq<char>>,
    i: int,
) -> (j: int)
    requires
        batch::batch_key(names_a, a, params, counter_a) == batch::batch_key(
            names_b,
            b,
            params,
            counter_b,
        ),
        broadcast_at(names_a, params, i),
    ensures
        broadcast_at(names_b, params, j),
        names_b[j] == names_a[i],
        batch::fingerprint(
            a[names_a[i]],
            batch::counter_after(names_a.take(i), a, params, counter_a) as nat,
        ) == batch::fingerprint(
            b[names_b[j]],
            batch::counter_after(names_b.take(j), b, params, counter_b) as nat,
        ),
{
    let parts_a = batch::key_parts(names_a, a, params, counter_a);
    let parts_b = batch::key_parts(names_b, b, params, counter_b);
    order::lemma_text_order();
    lemma_parts(names_a, a, params, counter_a);
    lemma_parts(names_b, b, params, counter_b);
    lemma_parts_separable(names_a, a, params, counter_a);
    lemma_parts_separable(names_b, b, params, counter_b);
    lemma_join_injective(order::sorted_texts(parts_a), order::sorted_texts(parts_b));
    parts_a.lemma_sort_by_ensures(order::by_text());
    parts_b.lemma_sort_by_ensures(order::by_text());
    parts_a.to_multiset_ensures();
    parts_b.to_multiset_ensures();
    let part = part_at(names_a, a, params, counter_a, i);
    assert(parts_a.contains(part));
    assert(parts_a.to_multiset().count(part) > 0);
    assert(parts_b.to_multiset().count(part) > 0);
    assert(parts_b.contains(part));
    let k = choose|k: int| 0 <= k < parts_b.len() && parts_b[k] == part;
    assert(is_part(names_b, b, params, counter_b, parts_b[k]));
    let j = choose|j: int|
        broadcast_at(names_b, params, j) && parts_b[k] == #[trigger] part_at(
            names_b,
            b,
            params,
            counter_b,
            j,
        );
    reveal_strlit("=");
    assert("="@ =~= seq!['=']);
    let print_a = batch::fingerprint(
        a[names_a[i]],
        batch::counter_after(names_a.take(i), a, params, counter_a) as nat,
    );
    let print_b = batch::fingerprint(
        b[names_b[j]],
        batch::counter_after(names_b.take(j), b, params, counter_b) as nat,
    );
    lemma_escaped_clean(names_a[i]);
    lemma_escaped_clean(names_b[j]);
    lemma_split_first(
        batch::escaped(names_a[i]),
        batch::escaped(print_a),
        batch::escaped(names_b[j]),
        batch::escaped(print_b),
        '=',
    );
    lemma_escaped_injective(names_a[i], names_b[j]);
    lemma_escaped_injective(print_a, print_b);
    j
}

/// Where the numbers of two requests do not overlap, an opaque value of the one
/// takes another than any value of the other.
proof fn lemma_numbers_differ(
    names_a: Seq<Seq<char>>,
    a: Map<Seq<char>, ValueView>,
    counter_a: u64,
    names_b: Seq<Seq<char>>,
    b: Map<Seq<char>, ValueView>,
    counter_b: u64,
    params: Set<Seq<char>>,
    i: int,
    j: int,
)
    requires
        counter_a + opaque_count(names_a, a, params) <= counter_b,
        counter_b + opaque_count(names_b, b, params) <= u64::MAX,
        0 <= i < names_a.len(),
        0 <= j < names_b.len(),
        !params.contains(names_a[i]),
        batch::is_opaque(a[names_a[i]]),
    ensures
        batch::counter_after(names_a.take(i), a, params, counter_a) < batch::counter_after(
            names_b.take(j),
            b,
            params,
            counter_b,
        ),
{
    lemma_count_grows(names_a, a, params, i);
    lemma_count_grows(names_b, b, params, j);
    lemma_counter(names_a.take(i), a, params, counter_a);
    lemma_counter(names_b.take(j), b, params, counter_b);
}

/// Requests that share a batch key may merge: they have the same broadcast
/// names, the values of each agree, and none of them is opaque.
///
/// The keys are those of two requests whose numbers for opaque values do not
/// overlap, one taken after the other.
pub proof fn law_equal_keys_agree(
    names_a: Seq<Seq<char>>,
    a: Map<Seq<char>, ValueView>,
    counter_a: u64,
    names_b: Seq<Seq<char>>,
    b: Map<Seq<char>, ValueView>,
    counter_b: u64,
    params: Set<Seq<char>>,
)
    requires
        names_a.to_set() == a.dom(),
        names_b.to_set() == b.dom(),
        counter_a + opaque_count(names_a, a, params) <= counter_b,
        counter_b + opaque_count(names_b, b, params) <= u64::MAX,
        batch::batch_key(names_a, a, params, counter_a) == batch::batch_key(
            names_b,
            b,
            params,
            counter_b,
        ),
    ensures
        a.dom().difference(params) == b.dom().difference(params),
        forall|name: Seq<char>|
            !params.contains(name) && a.dom().contains(name) ==> same_broadcast(
                #[trigger] a[name],
                b[name],
            ),
{
    assert forall|name: Seq<char>|
        !params.contains(name) && a.dom().contains(name) implies b.dom().contains(name)
        && same_broadcast(#[trigger] a[name], b[name]) by {
        assert(names_a.to_set().contains(name));
        let i = choose|i: int| 0 <= i < names_a.len() && names_a[i] == name;
        let j = lemma_shared_part(names_a, a, counter_a, names_b, b, counter_b, params, i);
        assert(names_b.to_set().contains(names_b[j]));
        let m = batch::counter_after(names_a.take(i), a, params, counter_a) as nat;
        let n = batch::counter_after(names_b.take(j), b, params, counter_b) as nat;
        law_fingerprint_injective(a[name], m, b[name], n);
        if batch::is_opaque(a[name]) {
            lemma_numbers_differ(names_a, a, counter_a, names_b, b, counter_b, params, i, j);
        }
    }
    assert forall|name: Seq<char>|
        !params.contains(name) && b.dom().contains(name) implies a.dom().contains(name) by {
        assert(names_b.to_set().contains(name));
        let j = choose|j: int| 0 <= j < names_b.len() && names_b[j] == name;
        let i = lemma_shared_part(names_b, b, counter_b, names_a, a, counter_a, params, j);
        assert(names_a.to_set().contains(names_a[i]));
    }
    assert forall|name: Seq<char>|
        !params.contains(name) && a.dom().contains(name) implies b.dom().contains(name) by {
        assert(same_broadcast(a[name], b[name]));
    }
    assert(a.dom().difference(params) =~= b.dom().difference(params));
}

/// The parts of broadcast names whose values are not opaque, in no order.
spec fn plain_parts(
    names: Seq<Seq<char>>,
    inputs: Map<Seq<char>, ValueView>,
    params: Set<Seq<char>>,
) -> Multiset<Seq<char>>
    decreases names.len(),
{
    if names.len() == 0 {
        Multiset::empty()
    } else {
        let before = plain_parts(names.drop_last(), inputs, params);
        if params.contains(names.last()) {
            before
        } else {
            before.insert(batch::key_part(names.last(), inputs[names.last()], 0))
        }
    }
}

/// Whether no broadcast value is opaque.
pub open spec fn none_opaque(
    names: Seq<Seq<char>>,
    inputs: Map<Seq<char>, ValueView>,
    params: Set<Seq<char>>,
) -> bool {
    forall|i: int|
        0 <= i < names.len() && !params.contains(#[trigger] names[i]) ==> !batch::is_opaque(
            inputs[names[i]],
        )
}

proof fn lemma_plain(
    names: Seq<Seq<char>>,
    inputs: Map<Seq<char>, ValueView>,
    params: Set<Seq<char>>,
    counter: u64,
)
    requires
        none_opaque(names, inputs, params),
    ensures
        batch::key_parts(names, inputs, params, counter).to_multiset() == plain_parts(
            names,
            inputs,
            params,
        ),
    decreases names.len(),
{
    broadcast use vstd::multiset::group_multiset_axioms;

    let parts = batch::key_parts(names, inputs, params, counter);
    if names.len() == 0 {
        parts.to_multiset_ensures();
        assert(parts.to_multiset() =~= Multiset::empty());
    } else {
        let before = names.drop_last();
        assert(none_opaque(before, inputs, params)) by {
            assert forall|i: int|
                0 <= i < before.len() && !params.contains(#[trigger] before[i]) implies !batch::is_opaque(
                inputs[before[i]],
            ) by {
                assert(names[i] == before[i]);
            }
        }
        lemma_plain(before, inputs, params, counter);
        if !params.contains(names.last()) {
            assert(!params.contains(names[names.len() - 1]));
            let number = batch::counter_after(before, inputs, params, counter) as nat;
            assert(batch::fingerprint(inputs[names.last()], number) == batch::fingerprint(
                inputs[names.last()],
                0,
            ));
            to_multiset_build(
                batch::key_parts(before, inputs, params, counter),
                batch::key_part(names.last(), inputs[names.last()], number),
            );
        }
    }
}

proof fn lemma_plain_remove(
    names: Seq<Seq<char>>,
    inputs: Map<Seq<char>, ValueView>,
    params: Set<Seq<char>>,
    j: int,
)
    requires
        0 <= j < names.len(),
        !params.contains(names[j]),
    ensures
        plain_parts(names, inputs, params) == plain_parts(names.remove(j), inputs, params).insert(
            batch::key_part(names[j], inputs[names[j]], 0),
        ),
    decreases names.len(),
{
    broadcast use vstd::multiset::group_multiset_axioms;

    let before = names.drop_last();
    if j == names.len() - 1 {
        assert(names.remove(j) =~= before);
    } else {
        lemma_plain_remove(before, inputs, params, j);
        assert(names.remove(j).drop_last() =~= before.remove(j));
        assert(names.remove(j).last() == names.last());
        assert(before[j] == names[j]);
        let rest = plain_parts(before.remove(j), inputs, params);
        let part = batch::key_part(names[j], inputs[names[j]], 0);
        let last = batch::key_part(names.last(), inputs[names.last()], 0);
        assert(rest.insert(part).insert(last) =~= rest.insert(last).insert(part));
    }
}

proof fn lemma_plain_same(
    names_a: Seq<Seq<char>>,
    a: Map<Seq<char>, ValueView>,
    names_b: Seq<Seq<char>>,
    b: Map<Seq<char>, ValueView>,
    params: Set<Seq<char>>,
)
    requires
        names_a.no_duplicates(),
        names_b.no_duplicates(),
        forall|name: Seq<char>|
            !params.contains(name) ==> (#[trigger] names_a.contains(name) <==> names_b.contains(
                name,
            )),
        forall|name: Seq<char>|
            !params.contains(name) && #[trigger] names_a.contains(name) ==> a[name] == b[name],
    ensures
        plain_parts(names_a, a, params) == plain_parts(names_b, b, params),
    decreases names_a.len() + names_b.len(),
{
    broadcast use vstd::multiset::group_multiset_axioms;

    if names_a.len() > 0 {
        let x = names_a.last();
        let before = names_a.drop_last();
        assert(names_a.contains(x));
        assert forall|name: Seq<char>| #[trigger] names_a.contains(name) implies before.contains(
            name,
        ) || name == x by {
            let i = choose|i: int| 0 <= i < names_a.len() && names_a[i] == name;
            if i < before.len() {
                assert(before[i] == name);
            }
        }
        assert forall|name: Seq<char>| #[trigger] before.contains(name) implies names_a.contains(
            name,
        ) && name != x by {
            let i = choose|i: int| 0 <= i < before.len() && before[i] == name;
            assert(names_a[i] == name);
        }
        if params.contains(x) {
            assert forall|name: Seq<char>| !params.contains(name) implies (
            #[trigger] before.contains(name) <==> names_b.contains(name)) by {
                assert(names_a.contains(name) <==> names_b.contains(name));
            }
            lemma_plain_same(before, a, names_b, b, params);
        } else {
            assert(names_b.contains(x));
            let j = choose|j: int| 0 <= j < names_b.len() && names_b[j] == x;
            let rest = names_b.remove(j);
            lemma_plain_remove(names_b, b, params, j);
            assert forall|name: Seq<char>| !params.contains(name) implies (
            #[trigger] before.contains(name) <==> rest.contains(name)) by {
                assert(names_a.contains(name) <==> names_b.contains(name));
                if before.contains(name) {
                    let k = choose|k: int| 0 <= k < names_b.len() && names_b[k] == name;
                    if k < j {
                        assert(rest[k] == name);
                    } else {
                        assert(rest[k - 1] == name);
                    }
                }
                if rest.contains(name) {
                    let k = choose|k: int| 0 <= k < rest.len() && rest[k] == name;
                    let at = if k < j { k } else { k + 1 };
                    assert(names_b[at] == name);
                    assert(at != j);
                }
            }
            assert(rest.no_duplicates()) by {
                assert forall|i: int, k: int| 0 <= i < rest.len() && 0 <= k < rest.len() && i
                    != k implies rest[i] != rest[k] by {
                    let i0 = if i < j { i } else { i + 1 };
                    let k0 = if k < j { k } else { k + 1 };
                    assert(names_b[i0] != names_b[k0]);
                }
            }
            lemma_plain_same(before, a, rest, b, params);
            assert(a[x] == b[x]);
        }
    } else if names_b.len() > 0 {
        let x = names_b.last();
        let before = names_b.drop_last();
        assert(names_b.contains(x));
        if !params.contains(x) {
            assert(names_a.contains(x) <==> names_b.contains(x));
            assert(false);
        }
        assert forall|name: Seq<char>| !params.contains(name) implies (#[trigger] names_a.contains(
            name,
        ) <==> before.contains(name)) by {
            if before.contains(name) {
                let i = choose|i: int| 0 <= i < before.len() && before[i] == name;
                assert(names_b[i] == name);
                assert(names_b.contains(name));
                assert(names_a.contains(name));
            }
        }
        lemma_plain_same(names_a, a, before, b, params);
    }
}

/// Requests whose broadcast names and values are the same, none of them
/// opaque, share a batch key, whatever the order in which their inputs stand and
/// whatever their batch parameters hold.
pub proof fn law_equal_values_share_key(
    names_a: Seq<Seq<char>>,
    a: Map<Seq<char>, ValueView>,
    counter_a: u64,
    names_b: Seq<Seq<char>>,
    b: Map<Seq<char>, ValueView>,
    counter_b: u64,
    params: Set<Seq<char>>,
)
    requires
        names_a.no_duplicates(),
        names_b.no_duplicates(),
        names_a.to_set() == a.dom(),
        names_b.to_set() == b.dom(),
        a.dom().difference(params) == b.dom().difference(params),
        forall|name: Seq<char>|
            !params.contains(name) && #[trigger] a.dom().contains(name) ==> a[name] == b[name]
                && !batch::is_opaque(a[name]),
    ensures
        batch::batch_key(names_a, a, params, counter_a) == batch::batch_key(
            names_b,
            b,
            params,
            counter_b,
        ),
{
    assert forall|name: Seq<char>| !params.contains(name) implies (#[trigger] names_a.contains(name)
        <==> names_b.contains(name)) by {
        assert(names_a.to_set().contains(name) <==> names_a.contains(name));
        assert(names_b.to_set().contains(name) <==> names_b.contains(name));
        assert(a.dom().difference(params).contains(name) <==> b.dom().difference(params).contains(
            name,
        ));
    }
    assert forall|name: Seq<char>|
        !params.contains(name) && #[trigger] names_a.contains(name) implies a[name] == b[name]
        && !batch::is_opaque(a[name]) by {
        assert(names_a.to_set().contains(name));
        assert(a.dom().contains(name));
    }
    assert forall|i: int|
        0 <= i < names_a.len() && !params.contains(#[trigger] names_a[i]) implies !batch::is_opaque(
        a[names_a[i]],
    ) by {
        assert(names_a.contains(names_a[i]));
    }
    assert forall|i: int|
        0 <= i < names_b.len() && !params.contains(#[trigger] names_b[i]) implies !batch::is_opaque(
        b[names_b[i]],
    ) by {
        assert(names_b.contains(names_b[i]));
        assert(names_a.contains(names_b[i]));
    }
    lemma_plain(names_a, a, params, counter_a);
    lemma_plain(names_b, b, params, counter_b);
    lemma_plain_same(names_a, a, names_b, b, params);
    let parts_a = batch::key_parts(names_a, a, params, counter_a);
    let parts_b = batch::key_parts(names_b, b, params, counter_b);
    order::lemma_text_order();
    parts_a.lemma_sort_by_ensures(order::by_text());
    parts_b.lemma_sort_by_ensures(order::by_text());
    lemma_sorted_unique(
        order::sorted_texts(parts_a),
        order::sorted_texts(parts_b),
        order::by_text(),
    );
}

} // verus!
