//! Input merging and result splitting for batched invocations: data movement
//! over values, without dispatch or queueing state.

use crate::inputs::{Inputs, NameSet};
use crate::json;
use crate::json::{
    json_clone, json_from_flag, json_from_int, json_from_object, json_from_text, json_object_clone,
};
use crate::serving::batch;
use crate::value::{slice_json, slice_of, Tensor, TensorDataView, TensorView, Value, ValueView};
use serde_json::Value as JsonValue;
use vstd::prelude::*;

verus! {

/// The items that a value of a batch parameter brings: those of a list, or the
/// value itself as one item. A float or an opaque value, which has no JSON form
/// here, brings none.
pub open spec fn items_of(value: ValueView) -> Seq<JsonValue> {
    match value {
        ValueView::List(items) => items,
        ValueView::Null => seq![json::json_of_flag(None)],
        ValueView::Bool(b) => seq![json::json_of_flag(Some(b))],
        ValueView::Int(i) => seq![json::json_of_int(i as int)],
        ValueView::Long(l) => seq![json::json_of_int(l as int)],
        ValueView::String(s) => seq![json::json_of_text(s)],
        ValueView::Dict(object) => seq![json::json_of_object(object)],
        _ => Seq::empty(),
    }
}

/// The items that a request brings under a name.
pub open spec fn brought_items(
    inputs: Map<Seq<char>, ValueView>,
    name: Seq<char>,
) -> Seq<JsonValue> {
    if inputs.dom().contains(name) {
        items_of(inputs[name])
    } else {
        Seq::empty()
    }
}

/// The items of a name across requests, in request order.
pub open spec fn merged_items(
    batch: Seq<Map<Seq<char>, ValueView>>,
    name: Seq<char>,
) -> Seq<JsonValue>
    decreases batch.len(),
{
    if batch.len() == 0 {
        Seq::empty()
    } else {
        merged_items(batch.drop_last(), name) + brought_items(batch.last(), name)
    }
}

/// The inputs of requests, as maps.
pub open spec fn input_maps(batch: Seq<&Inputs>) -> Seq<Map<Seq<char>, ValueView>> {
    batch.map_values(|inputs: &Inputs| inputs@)
}

/// One request's inputs as they are; else the broadcast inputs of the first
/// request, and for each batch parameter the items of all requests.
pub open spec fn merged(
    batch: Seq<Map<Seq<char>, ValueView>>,
    params: Set<Seq<char>>,
) -> Map<Seq<char>, ValueView> {
    if batch.len() == 1 {
        batch[0]
    } else {
        Map::new(
            |name: Seq<char>| params.contains(name) || batch[0].dom().contains(name),
            |name: Seq<char>|
                if params.contains(name) {
                    ValueView::List(merged_items(batch, name))
                } else {
                    batch[0][name]
                },
        )
    }
}

/// Appends an integer.
fn append_int(out: &mut Vec<JsonValue>, n: i64)
    ensures
        final(out)@ == old(out)@.push(json::json_of_int(n as int)),
{
    match json_from_int(n as i128) {
        Some(item) => out.push(item),
        None => {
            assert(false);
        },
    }
}

/// Appends the items that a value brings.
fn append_value(out: &mut Vec<JsonValue>, value: &Value)
    ensures
        final(out)@ == old(out)@ + items_of(value@),
{
    let ghost before = out@;
    match value {
        Value::List(items) => append_items(out, items),
        Value::Null => out.push(json_from_flag(None)),
        Value::Bool(b) => out.push(json_from_flag(Some(*b))),
        Value::Int(i) => append_int(out, *i as i64),
        Value::Long(l) => append_int(out, *l),
        Value::String(s) => out.push(json_from_text(s.as_str())),
        Value::Dict(object) => out.push(json_from_object(json_object_clone(object))),
        _ => {},
    }
    assert(out@ =~= before + items_of(value@));
}

/// Appends copies of list items.
fn append_items(out: &mut Vec<JsonValue>, items: &Vec<JsonValue>)
    ensures
        final(out)@ == old(out)@ + items@,
{
    let ghost before = out@;
    let mut i: usize = 0;
    while i < items.len()
        invariant
            i <= items@.len(),
            out@ == before + items@.take(i as int),
        decreases items.len() - i,
    {
        out.push(json_clone(&items[i]));
        assert(items@.take(i + 1) =~= items@.take(i as int).push(items@[i as int]));
        i = i + 1;
    }
    assert(items@.take(items@.len() as int) =~= items@);
}

/// Merges compatible requests into one input map: batch parameters are
/// concatenated in request order, where a value that is no list is one item, and
/// broadcast parameters come from the first request.
pub fn merge_inputs(batch: &Vec<&Inputs>, batch_params: &NameSet) -> (r: Inputs)
    requires
        batch@.len() >= 1,
        batch_params.wf(),
        forall|i: int| 0 <= i < batch@.len() ==> (#[trigger] batch@[i]).wf(),
    ensures
        r.wf(),
        r@ == merged(input_maps(batch@), batch_params@),
{
    let ghost maps = input_maps(batch@);
    assert(maps[0] == batch@[0]@);
    if batch.len() == 1 {
        return batch[0].clone();
    }
    let mut out: Inputs = Inputs::new();
    let first: &Inputs = batch[0];
    let mut i: usize = 0;
    proof {
        first.lemma_names();
    }
    let ghost names = first.names();
    while i < first.len()
        invariant
            first.wf(),
            out.wf(),
            names == first.names(),
            names.no_duplicates(),
            names.to_set() == first@.dom(),
            i <= names.len(),
            out@ == Map::new(
                |name: Seq<char>| names.take(i as int).contains(name) && !batch_params@.contains(name),
                |name: Seq<char>| first@[name],
            ),
        decreases names.len() - i,
    {
        let name: &str = first.name_at(i);
        let ghost before = out@;
        if !batch_params.contains(name) {
            out.insert(name, first.value_at(i).clone());
        }
        proof {
            let done = names.take(i as int);
            let next = names.take(i + 1);
            assert(next =~= done.push(name@));
            assert forall|n: Seq<char>| next.contains(n) == (done.contains(n) || n == name@) by {
                if done.contains(n) {
                    let k = choose|k: int| 0 <= k < done.len() && done[k] == n;
                    assert(next[k] == n);
                }
                if n == name@ {
                    assert(next[i as int] == n);
                }
            }
            assert(out@ =~= Map::new(
                |name: Seq<char>| next.contains(name) && !batch_params@.contains(name),
                |name: Seq<char>| first@[name],
            ));
        }
        i = i + 1;
    }
    proof {
        assert(names.take(names.len() as int) =~= names);
        assert forall|n: Seq<char>| names.contains(n) == first@.dom().contains(n) by {
            assert(names.to_set().contains(n) == names.contains(n));
        }
        batch_params.lemma_order();
    }
    let ghost order = batch_params.order();
    let mut p: usize = 0;
    assert(out@ =~= Map::new(
        |name: Seq<char>|
            order.take(0).contains(name) || (first@.dom().contains(name) && !batch_params@.contains(
                name,
            )),
        |name: Seq<char>|
            if batch_params@.contains(name) {
                ValueView::List(merged_items(maps, name))
            } else {
                first@[name]
            },
    ));
    while p < batch_params.len()
        invariant
            batch_params.wf(),
            out.wf(),
            maps == input_maps(batch@),
            order == batch_params.order(),
            order.no_duplicates(),
            order.to_set() == batch_params@,
            forall|i: int| 0 <= i < batch@.len() ==> (#[trigger] batch@[i]).wf(),
            p <= order.len(),
            out@ == Map::new(
                |name: Seq<char>|
                    order.take(p as int).contains(name) || (first@.dom().contains(name)
                        && !batch_params@.contains(name)),
                |name: Seq<char>|
                    if batch_params@.contains(name) {
                        ValueView::List(merged_items(maps, name))
                    } else {
                        first@[name]
                    },
            ),
        decreases order.len() - p,
    {
        let name: &str = batch_params.name_at(p);
        let mut combined: Vec<JsonValue> = Vec::new();
        let mut b: usize = 0;
        while b < batch.len()
            invariant
                b <= batch@.len(),
                maps == input_maps(batch@),
                forall|i: int| 0 <= i < batch@.len() ==> (#[trigger] batch@[i]).wf(),
                combined@ == merged_items(maps.take(b as int), name@),
            decreases batch.len() - b,
        {
            proof {
                assert(maps.take(b + 1).drop_last() =~= maps.take(b as int));
                assert(maps.take(b + 1).last() == batch@[b as int]@);
            }
            match batch[b].get(name) {
                Some(value) => {
                    append_value(&mut combined, value);
                },
                None => {
                    assert(combined@ + Seq::<JsonValue>::empty() =~= combined@);
                },
            }
            b = b + 1;
        }
        assert(maps.take(maps.len() as int) =~= maps);
        out.insert(name, Value::List(combined));
        proof {
            let done = order.take(p as int);
            let next = order.take(p + 1);
            assert(next =~= done.push(name@));
            assert forall|n: Seq<char>| next.contains(n) == (done.contains(n) || n == name@) by {
                if done.contains(n) {
                    let k = choose|k: int| 0 <= k < done.len() && done[k] == n;
                    assert(next[k] == n);
                }
                if n == name@ {
                    assert(next[p as int] == n);
                }
            }
            assert(out@ =~= Map::new(
                |name: Seq<char>|
                    next.contains(name) || (first@.dom().contains(name) && !batch_params@.contains(
                        name,
                    )),
                |name: Seq<char>|
                    if batch_params@.contains(name) {
                        ValueView::List(merged_items(maps, name))
                    } else {
                        first@[name]
                    },
            ));
        }
        p = p + 1;
    }
    proof {
        assert(order.take(order.len() as int) =~= order);
        assert forall|n: Seq<char>| order.contains(n) == batch_params@.contains(n) by {
            assert(order.to_set().contains(n) == order.contains(n));
        }
        assert(out@ =~= merged(maps, batch_params@));
    }
    out
}

/// The sum of item counts.
pub open spec fn total_of(counts: Seq<usize>) -> int
    decreases counts.len(),
{
    if counts.len() == 0 {
        0
    } else {
        total_of(counts.drop_last()) + counts.last()
    }
}

/// A prefix has no more items than the whole.
pub proof fn lemma_total_prefix(counts: Seq<usize>, i: int)
    requires
        0 <= i <= counts.len(),
    ensures
        0 <= total_of(counts.take(i)) <= total_of(counts),
        i < counts.len() ==> total_of(counts.take(i + 1)) == total_of(counts.take(i)) + counts[i],
        i < counts.len() ==> total_of(counts.take(i + 1)) <= total_of(counts),
    decreases counts.len(),
{
    if i == counts.len() {
        assert(counts.take(i) =~= counts);
        if counts.len() > 0 {
            lemma_total_prefix(counts.drop_last(), i - 1);
        }
    } else {
        let before = counts.drop_last();
        assert(counts.take(i) =~= before.take(i));
        lemma_total_prefix(before, i);
        assert(counts.take(i + 1).drop_last() =~= counts.take(i));
        if i + 1 < counts.len() {
            assert(counts.take(i + 1) =~= before.take(i + 1));
        } else {
            assert(counts.take(i + 1) =~= counts);
            assert(before.take(i) =~= before);
        }
    }
}

/// The product of dimension extents.
pub open spec fn dim_product(dims: Seq<i32>) -> int
    decreases dims.len(),
{
    if dims.len() == 0 {
        1
    } else {
        dim_product(dims.drop_last()) * (dims.last() as usize)
    }
}

/// Elements per item of a tensor: the product of all dimensions but the first.
pub open spec fn inner_size(shape: Seq<i32>) -> int {
    dim_product(shape.skip(1))
}

/// Whether the first dimension of a tensor counts the items of a batch.
pub open spec fn counts_items(shape: Seq<i32>, total: int) -> bool {
    shape.len() > 0 && (shape[0] as usize) as int == total
}

/// Whether a tensor's dimensions fit the machine and its elements suffice for
/// the items of a batch.
pub open spec fn tensor_splits(tensor: TensorView, total: int) -> bool {
    &&& forall|k: int|
        0 <= k < tensor.shape.len() ==> #[trigger] dim_product(tensor.shape.skip(1).take(k))
            <= usize::MAX
    &&& total * inner_size(tensor.shape) <= tensor.data.items.len()
}

/// Whether one result can be split: a tensor that counts the items holds them all.
pub open spec fn value_splits(value: ValueView, total: int) -> bool {
    value matches ValueView::Tensor(tensor) ==> (counts_items(tensor.shape, total)
        ==> tensor_splits(tensor, total))
}

/// Values, seen as their views.
pub open spec fn value_views(values: Seq<Value>) -> Seq<ValueView> {
    values.map_values(|v: Value| v@)
}

/// Whether the results of a merged invocation can be split by item counts.
pub open spec fn results_split(results: Seq<ValueView>, counts: Seq<usize>) -> bool {
    &&& total_of(counts) <= usize::MAX
    &&& forall|k: int|
        0 <= k < results.len() ==> value_splits(#[trigger] results[k], total_of(counts))
}

/// What one request gets of a merged result: tensors that count the items are
/// split on their first dimension, lists that do so by position, and everything
/// else goes to every request.
pub open spec fn share(value: ValueView, counts: Seq<usize>, i: int) -> ValueView {
    let total = total_of(counts);
    let start = total_of(counts.take(i));
    let end = start + counts[i];
    match value {
        ValueView::Tensor(tensor) => if counts_items(tensor.shape, total) {
            let inner = inner_size(tensor.shape);
            ValueView::Tensor(
                TensorView {
                    data: TensorDataView {
                        dtype: tensor.data.dtype,
                        items: tensor.data.items.subrange(start * inner, end * inner),
                    },
                    shape: tensor.shape.update(0, counts[i] as i32),
                },
            )
        } else {
            value
        },
        ValueView::List(items) => if items.len() == total {
            ValueView::List(items.subrange(start, end))
        } else {
            value
        },
        _ => value,
    }
}

/// What one request gets of all merged results.
pub open spec fn shares(results: Seq<ValueView>, counts: Seq<usize>, i: int) -> Seq<ValueView> {
    results.map_values(|v: ValueView| share(v, counts, i))
}

/// Extents are not negative as sizes, so neither are products of them.
proof fn lemma_dim_product_nonneg(dims: Seq<i32>)
    ensures
        dim_product(dims) >= 0,
    decreases dims.len(),
{
    if dims.len() > 0 {
        lemma_dim_product_nonneg(dims.drop_last());
        let p = dim_product(dims.drop_last());
        let d = (dims.last() as usize) as int;
        assert(p * d >= 0) by (nonlinear_arith)
            requires
                p >= 0,
                d >= 0,
        ;
    }
}

/// Elements per item of a tensor.
fn inner_of(shape: &Vec<i32>) -> (r: usize)
    requires
        shape@.len() > 0,
        forall|k: int|
            0 <= k < shape@.len() ==> #[trigger] dim_product(shape@.skip(1).take(k)) <= usize::MAX,
    ensures
        r == inner_size(shape@),
{
    let ghost dims = shape@.skip(1);
    let mut product: usize = 1;
    let mut k: usize = 1;
    assert(dims.take(0).len() == 0);
    while k < shape.len()
        invariant
            1 <= k <= shape@.len(),
            dims == shape@.skip(1),
            product == dim_product(dims.take(k - 1)),
            forall|k: int|
                0 <= k < shape@.len() ==> #[trigger] dim_product(shape@.skip(1).take(k))
                    <= usize::MAX,
        decreases shape.len() - k,
    {
        let extent: usize = #[verifier::truncate] (shape[k] as usize);
        proof {
            assert(dims.take(k as int).drop_last() =~= dims.take(k - 1));
            assert(dims.take(k as int).last() == shape@[k as int]);
            assert(dim_product(dims.take(k as int)) <= usize::MAX);
            lemma_dim_product_nonneg(dims.take(k as int));
        }
        product = product * extent;
        k = k + 1;
    }
    assert(dims.take(shape@.len() - 1) =~= dims);
    product
}

/// What one request gets of one merged result.
fn share_of(value: &Value, counts: &Vec<usize>, total: usize, i: usize, start: usize) -> (r: Value)
    requires
        i < counts@.len(),
        total == total_of(counts@),
        start == total_of(counts@.take(i as int)),
        value_splits(value@, total as int),
    ensures
        r@ == share(value@, counts@, i as int),
{
    let count: usize = counts[i];
    proof {
        lemma_total_prefix(counts@, i as int);
    }
    match value {
        Value::Tensor(tensor) => {
            if tensor.shape.len() > 0 && #[verifier::truncate] (tensor.shape[0] as usize) == total {
                let inner: usize = inner_of(&tensor.shape);
                let held: usize = tensor.data.len();
                assert(total * inner <= held);
                proof {
                    assert(0 <= start * inner && start * inner <= (start + count) * inner && (start
                        + count) * inner <= total * inner) by (nonlinear_arith)
                        requires
                            start + count <= total,
                            0 <= start,
                            0 <= count,
                            inner >= 0,
                    ;
                }
                let from: usize = start * inner;
                let to: usize = (start + count) * inner;
                let mut shape: Vec<i32> = slice_of(&tensor.shape, 0, tensor.shape.len());
                assert(shape@ =~= tensor.shape@);
                shape.set(0, #[verifier::truncate] (count as i32));
                Value::Tensor(Tensor { data: tensor.data.slice(from, to), shape })
            } else {
                value.clone()
            }
        },
        Value::List(items) => {
            if items.len() == total {
                Value::List(slice_json(items, start, start + count))
            } else {
                value.clone()
            }
        },
        _ => value.clone(),
    }
}

/// Splits merged results back per request.
pub fn split_results(results: &Vec<Value>, counts: &Vec<usize>) -> (r: Vec<Vec<Value>>)
    requires
        results_split(value_views(results@), counts@),
    ensures
        r@.len() == counts@.len(),
        forall|i: int|
            0 <= i < counts@.len() ==> value_views((#[trigger] r@[i])@) == shares(
                value_views(results@),
                counts@,
                i,
            ),
{
    let ghost views = value_views(results@);
    let mut total: usize = 0;
    let mut i: usize = 0;
    while i < counts.len()
        invariant
            i <= counts@.len(),
            total == total_of(counts@.take(i as int)),
            total_of(counts@) <= usize::MAX,
        decreases counts.len() - i,
    {
        proof {
            lemma_total_prefix(counts@, i as int);
        }
        total = total + counts[i];
        i = i + 1;
    }
    assert(counts@.take(counts@.len() as int) =~= counts@);
    let mut splits: Vec<Vec<Value>> = Vec::new();
    let mut start: usize = 0;
    i = 0;
    while i < counts.len()
        invariant
            i <= counts@.len(),
            views == value_views(results@),
            results_split(views, counts@),
            total == total_of(counts@),
            start == total_of(counts@.take(i as int)),
            splits@.len() == i,
            forall|j: int|
                0 <= j < i ==> value_views((#[trigger] splits@[j])@) == shares(views, counts@, j),
        decreases counts.len() - i,
    {
        proof {
            lemma_total_prefix(counts@, i as int);
        }
        let mut split: Vec<Value> = Vec::new();
        let mut k: usize = 0;
        while k < results.len()
            invariant
                k <= results@.len(),
                i < counts@.len(),
                views == value_views(results@),
                results_split(views, counts@),
                total == total_of(counts@),
                start == total_of(counts@.take(i as int)),
                split@.len() == k,
                forall|j: int|
                    0 <= j < k ==> (#[trigger] split@[j])@ == share(views[j], counts@, i as int),
            decreases results.len() - k,
        {
            assert(value_splits(views[k as int], total as int));
            split.push(share_of(&results[k], counts, total, i, start));
            k = k + 1;
        }
        assert(value_views(split@) =~= shares(views, counts@, i as int));
        splits.push(split);
        start = start + counts[i];
        i = i + 1;
    }
    splits
}

/// Tests whether merged results can be split by item counts.
pub fn can_split(results: &Vec<Value>, counts: &Vec<usize>) -> (r: bool)
    ensures
        r == results_split(value_views(results@), counts@),
{
    let ghost views = value_views(results@);
    let mut total: usize = 0;
    let mut i: usize = 0;
    while i < counts.len()
        invariant
            i <= counts@.len(),
            total == total_of(counts@.take(i as int)),
        decreases counts.len() - i,
    {
        proof {
            lemma_total_prefix(counts@, i as int);
        }
        if counts[i] > usize::MAX - total {
            return false;
        }
        total = total + counts[i];
        i = i + 1;
    }
    assert(counts@.take(counts@.len() as int) =~= counts@);
    let mut k: usize = 0;
    while k < results.len()
        invariant
            k <= results@.len(),
            views == value_views(results@),
            total == total_of(counts@),
            forall|j: int| 0 <= j < k ==> value_splits(#[trigger] views[j], total as int),
        decreases results.len() - k,
    {
        match &results[k] {
            Value::Tensor(tensor) => {
                assert(views[k as int] == ValueView::Tensor(tensor@));
                if tensor.shape.len() > 0 && #[verifier::truncate] (tensor.shape[0] as usize) == total {
                    if !tensor_can_split(tensor, total) {
                        assert(!value_splits(views[k as int], total as int));
                        return false;
                    }
                }
            },
            _ => {},
        }
        k = k + 1;
    }
    true
}

/// Tests whether a tensor's dimensions fit and its elements suffice.
fn tensor_can_split(tensor: &Tensor, total: usize) -> (r: bool)
    requires
        tensor.shape@.len() > 0,
    ensures
        r == tensor_splits(tensor@, total as int),
{
    let ghost dims = tensor.shape@.skip(1);
    let mut product: usize = 1;
    let mut k: usize = 1;
    assert(dims.take(0).len() == 0);
    while k < tensor.shape.len()
        invariant
            1 <= k <= tensor.shape@.len(),
            dims == tensor.shape@.skip(1),
            product == dim_product(dims.take(k - 1)),
            forall|j: int| 0 <= j < k ==> #[trigger] dim_product(dims.take(j)) <= usize::MAX,
        decreases tensor.shape.len() - k,
    {
        proof {
            assert(dims.take(k as int).drop_last() =~= dims.take(k - 1));
            assert(dims.take(k as int).last() == tensor.shape@[k as int]);
        }
        match product.checked_mul(#[verifier::truncate] (tensor.shape[k] as usize)) {
            Some(p) => {
                product = p;
            },
            None => {
                assert(dim_product(dims.take(k as int)) > usize::MAX);
                assert(!tensor_splits(tensor@, total as int));
                return false;
            },
        }
        k = k + 1;
    }
    assert(dims.take(tensor.shape@.len() - 1) =~= dims);
    let held: usize = tensor.data.len();
    match total.checked_mul(product) {
        Some(needed) => needed <= held,
        None => {
            assert(total * product > held);
            false
        },
    }
}

/// Whether a value of a batch parameter is merged whole: a list brings its items,
/// and a value with a JSON form is one item.
pub open spec fn is_mergeable(value: ValueView) -> bool {
    match value {
        ValueView::Null => true,
        ValueView::Int(_) => true,
        ValueView::Long(_) => true,
        ValueView::Bool(_) => true,
        ValueView::String(_) => true,
        ValueView::List(_) => true,
        ValueView::Dict(_) => true,
        _ => false,
    }
}

/// The items of a name that requests carry.
pub open spec fn carried_items(batch: Seq<Map<Seq<char>, ValueView>>, name: Seq<char>) -> nat
    decreases batch.len(),
{
    if batch.len() == 0 {
        0
    } else {
        carried_items(batch.drop_last(), name) + (if batch.last().dom().contains(name) {
            batch::value_items(batch.last()[name])
        } else {
            0
        })
    }
}

/// A merged list holds as many items as the requests brought, where their values
/// are merged whole: nothing is lost.
pub proof fn law_merge_keeps_every_item(
    batch: Seq<Map<Seq<char>, ValueView>>,
    name: Seq<char>,
)
    requires
        forall|k: int|
            0 <= k < batch.len() && (#[trigger] batch[k]).dom().contains(name)
                ==> is_mergeable(batch[k][name]),
    ensures
        merged_items(batch, name).len() == carried_items(batch, name),
    decreases batch.len(),
{
    if batch.len() > 0 {
        let before = batch.drop_last();
        assert forall|k: int|
            0 <= k < before.len() && (#[trigger] before[k]).dom().contains(
                name,
            ) implies is_mergeable(before[k][name]) by {
            assert(batch[k] == before[k]);
        }
        law_merge_keeps_every_item(before, name);
        assert(batch[batch.len() - 1] == batch.last());
    }
}

/// Where each request's item count is that of the items it brings, the merged
/// list holds each request's items at the place that the counts give.
proof fn lemma_merged_at(
    batch: Seq<Map<Seq<char>, ValueView>>,
    counts: Seq<usize>,
    name: Seq<char>,
    i: int,
)
    requires
        batch.len() == counts.len(),
        forall|k: int| 0 <= k < batch.len() ==> brought_items(#[trigger] batch[k], name).len() == counts[k],
        0 <= i < batch.len(),
    ensures
        merged_items(batch, name).len() == total_of(counts),
        0 <= total_of(counts.take(i)),
        total_of(counts.take(i)) + counts[i] <= total_of(counts),
        merged_items(batch, name).subrange(
            total_of(counts.take(i)),
            total_of(counts.take(i)) + counts[i],
        ) == brought_items(batch[i], name),
    decreases batch.len(),
{
    let b = batch.drop_last();
    let c = counts.drop_last();
    lemma_total_prefix(counts, i);
    assert forall|k: int| 0 <= k < b.len() implies brought_items(#[trigger] b[k], name).len() == c[k] by {
        assert(b[k] == batch[k]);
    }
    assert(brought_items(batch[batch.len() - 1], name).len() == counts[batch.len() - 1]);
    if b.len() > 0 {
        lemma_merged_at(b, c, name, if i < b.len() { i } else { 0 });
    }
    let all = merged_items(batch, name);
    if i < b.len() {
        assert(counts.take(i) =~= c.take(i));
        assert(all.subrange(total_of(counts.take(i)), total_of(counts.take(i)) + counts[i])
            =~= merged_items(b, name).subrange(
            total_of(c.take(i)),
            total_of(c.take(i)) + c[i],
        ));
    } else {
        assert(counts.take(i) =~= c);
        assert(all == merged_items(b, name) + brought_items(batch[i], name));
        assert(merged_items(b, name).len() == total_of(c));
        assert(all.subrange(total_of(c), total_of(c) + counts[i]) =~= brought_items(batch[i], name));
    }
}

/// A merged list that comes back unchanged is split into the items that the
/// requests brought.
pub proof fn law_merge_split_round_trip(
    batch: Seq<Map<Seq<char>, ValueView>>,
    counts: Seq<usize>,
    name: Seq<char>,
    i: int,
)
    requires
        batch.len() == counts.len(),
        forall|k: int| 0 <= k < batch.len() ==> brought_items(#[trigger] batch[k], name).len() == counts[k],
        0 <= i < batch.len(),
    ensures
        share(ValueView::List(merged_items(batch, name)), counts, i) == ValueView::List(
            brought_items(batch[i], name),
        ),
{
    lemma_merged_at(batch, counts, name, i);
}

/// The first shares of a list, one after another.
pub open spec fn rejoined(items: Seq<JsonValue>, counts: Seq<usize>, n: int) -> Seq<JsonValue>
    decreases n,
{
    if n <= 0 {
        Seq::empty()
    } else {
        rejoined(items, counts, n - 1) + share(ValueView::List(items), counts, n - 1)->List_0
    }
}

proof fn lemma_rejoined(items: Seq<JsonValue>, counts: Seq<usize>, n: int)
    requires
        items.len() == total_of(counts),
        0 <= n <= counts.len(),
    ensures
        rejoined(items, counts, n) == items.take(total_of(counts.take(n))),
    decreases n,
{
    lemma_total_prefix(counts, n);
    if n > 0 {
        lemma_rejoined(items, counts, n - 1);
        lemma_total_prefix(counts, n - 1);
    } else {
        assert(counts.take(0).len() == 0);
    }
    assert(rejoined(items, counts, n) =~= items.take(total_of(counts.take(n))));
}

/// Splitting a list by item counts loses nothing: the shares, one after
/// another, are the list.
pub proof fn law_split_keeps_every_item(items: Seq<JsonValue>, counts: Seq<usize>)
    requires
        items.len() == total_of(counts),
    ensures
        rejoined(items, counts, counts.len() as int) == items,
{
    lemma_rejoined(items, counts, counts.len() as int);
    assert(counts.take(counts.len() as int) =~= counts);
    assert(items.take(items.len() as int) =~= items);
}

/// A tensor that counts the items is split into tensors that count each
/// request's items, of the same element type and inner dimensions, and whose
/// elements fill those dimensions.
pub proof fn law_tensor_share_shape(tensor: TensorView, counts: Seq<usize>, i: int)
    requires
        0 <= i < counts.len(),
        counts_items(tensor.shape, total_of(counts)),
        tensor_splits(tensor, total_of(counts)),
    ensures
        share(ValueView::Tensor(tensor), counts, i) matches ValueView::Tensor(part) && {
            &&& part.data.dtype == tensor.data.dtype
            &&& part.shape.len() == tensor.shape.len()
            &&& part.shape[0] == counts[i] as i32
            &&& part.shape.skip(1) == tensor.shape.skip(1)
            &&& part.data.items.len() == counts[i] * inner_size(tensor.shape)
        },
{
    let total = total_of(counts);
    let start = total_of(counts.take(i));
    let count = counts[i] as int;
    let inner = inner_size(tensor.shape);
    lemma_total_prefix(counts, i);
    lemma_dim_product_nonneg(tensor.shape.skip(1));
    assert(0 <= start * inner && start * inner <= (start + count) * inner && (start + count) * inner
        <= total * inner && (start + count) * inner - start * inner == count * inner)
        by (nonlinear_arith)
        requires
            start + count <= total,
            0 <= start,
            0 <= count,
            inner >= 0,
    ;
    assert(tensor.shape.update(0, counts[i] as i32).skip(1) =~= tensor.shape.skip(1));
}

/// A request on its own is not changed by merging.
pub proof fn law_one_request_is_not_merged(
    inputs: Map<Seq<char>, ValueView>,
    params: Set<Seq<char>>,
)
    ensures
        merged(seq![inputs], params) == inputs,
{
}

/// Merged requests have the inputs of the first and every batch parameter. A batch
/// parameter holds a list of what all of them bring, and any other input is that of
/// the first.
pub proof fn law_merged_inputs(
    batch: Seq<Map<Seq<char>, ValueView>>,
    params: Set<Seq<char>>,
    name: Seq<char>,
)
    requires
        batch.len() >= 2,
    ensures
        merged(batch, params).dom().contains(name) <==> params.contains(name)
            || batch[0].dom().contains(name),
        params.contains(name) ==> merged(batch, params)[name] == ValueView::List(
            merged_items(batch, name),
        ),
        !params.contains(name) && batch[0].dom().contains(name) ==> merged(batch, params)[name]
            == batch[0][name],
{
}

/// What requests bring is put one after another: first what the earlier ones bring.
/// A request without the name brings nothing.
pub proof fn law_merging_concatenates(
    a: Seq<Map<Seq<char>, ValueView>>,
    b: Seq<Map<Seq<char>, ValueView>>,
    inputs: Map<Seq<char>, ValueView>,
    name: Seq<char>,
)
    ensures
        merged_items(a + b, name) == merged_items(a, name) + merged_items(b, name),
        inputs.dom().contains(name) ==> merged_items(seq![inputs], name) == items_of(inputs[name]),
        !inputs.dom().contains(name) ==> merged_items(seq![inputs], name).len() == 0,
    decreases b.len(),
{
    reveal_with_fuel(merged_items, 2);
    assert(seq![inputs].drop_last() =~= Seq::<Map<Seq<char>, ValueView>>::empty());
    assert(merged_items(seq![inputs], name) =~= brought_items(inputs, name));
    if b.len() == 0 {
        assert(a + b =~= a);
        assert(merged_items(a, name) + merged_items(b, name) =~= merged_items(a, name));
    } else {
        law_merging_concatenates(a, b.drop_last(), inputs, name);
        assert((a + b).drop_last() =~= a + b.drop_last());
        assert(merged_items(a + b, name) =~= merged_items(a, name) + merged_items(b, name));
    }
}

/// A value that is no list is one item, in the JSON form of just that value; a list
/// brings its items as they are.
pub proof fn law_items_are_the_values(value: Value)
    ensures
        match value {
            Value::List(items) => items_of(value@) == items@,
            Value::Null => items_of(value@) == seq![json::json_of_flag(None)],
            Value::Bool(b) => items_of(value@) == seq![json::json_of_flag(Some(b))],
            Value::Int(i) => items_of(value@) == seq![json::json_of_int(i as int)],
            Value::Long(l) => items_of(value@) == seq![json::json_of_int(l as int)],
            Value::String(s) => items_of(value@) == seq![json::json_of_text(s@)],
            Value::Dict(object) => items_of(value@) == seq![json::json_of_object(object)],
            _ => items_of(value@).len() == 0,
        },
{
}

/// A long and an int of the same number bring the same item.
pub proof fn law_numbers_merge_by_value(i: i32)
    ensures
        items_of(ValueView::Int(i)) == items_of(ValueView::Long(i as i64)),
{
}

/// Totals add up, and extents multiply.
pub proof fn law_totals_add_up(counts: Seq<usize>, count: usize, dims: Seq<i32>, dim: i32)
    ensures
        total_of(Seq::empty()) == 0,
        total_of(counts.push(count)) == total_of(counts) + count,
        dim_product(Seq::empty()) == 1,
        dim >= 0 ==> dim_product(dims.push(dim)) == dim_product(dims) * dim,
        inner_size(seq![dim] + dims) == dim_product(dims),
{
    assert(counts.push(count).drop_last() =~= counts);
    assert(dims.push(dim).drop_last() =~= dims);
    assert((seq![dim] + dims).skip(1) =~= dims);
}

/// The item of a list at a position goes to the request whose items cover that
/// position, in order: a request's share begins where those before it end.
pub proof fn law_list_shares_are_consecutive(
    items: Seq<JsonValue>,
    counts: Seq<usize>,
    i: int,
    k: int,
)
    requires
        items.len() == total_of(counts),
        0 <= i < counts.len(),
        0 <= k < counts[i],
    ensures
        share(ValueView::List(items), counts, i) matches ValueView::List(part) && part.len()
            == counts[i] && part[k] == items[total_of(counts.take(i)) + k],
{
    lemma_total_prefix(counts, i);
}

/// The elements of a tensor that counts the items go to the requests in order: a
/// request's share begins where those before it end, and holds the elements of each
/// of its items.
pub proof fn law_tensor_shares_are_consecutive(
    tensor: TensorView,
    counts: Seq<usize>,
    i: int,
    k: int,
)
    requires
        0 <= i < counts.len(),
        tensor.shape.len() > 0,
        tensor.shape[0] as usize == total_of(counts),
        total_of(counts) * inner_size(tensor.shape) <= tensor.data.items.len(),
        0 <= k < counts[i] * inner_size(tensor.shape),
    ensures
        share(ValueView::Tensor(tensor), counts, i) matches ValueView::Tensor(part)
            && part.data.items.len() == counts[i] * inner_size(tensor.shape) && part.data.items[k]
            == tensor.data.items[total_of(counts.take(i)) * inner_size(tensor.shape) + k]
            && part.data.dtype == tensor.data.dtype && part.shape == tensor.shape.update(
            0,
            counts[i] as i32,
        ),
{
    let total = total_of(counts);
    let start = total_of(counts.take(i));
    let count = counts[i] as int;
    let inner = inner_size(tensor.shape);
    lemma_total_prefix(counts, i);
    lemma_dim_product_nonneg(tensor.shape.skip(1));
    assert(0 <= start * inner && start * inner <= (start + count) * inner && (start + count) * inner
        <= total * inner && (start + count) * inner - start * inner == count * inner)
        by (nonlinear_arith)
        requires
            start + count <= total,
            0 <= start,
            0 <= count,
            inner >= 0,
    ;
}

/// A result that does not count the items goes to every request as it is.
pub proof fn law_other_results_are_broadcast(value: ValueView, counts: Seq<usize>, i: int)
    requires
        value matches ValueView::List(items) ==> items.len() != total_of(counts),
        value matches ValueView::Tensor(tensor) ==> tensor.shape.len() == 0
            || tensor.shape[0] as usize != total_of(counts),
    ensures
        share(value, counts, i) == value,
{
}

/// A request gets as many results as there are, and of each its share.
pub proof fn law_every_result_is_shared(
    results: Seq<ValueView>,
    counts: Seq<usize>,
    i: int,
    k: int,
)
    requires
        0 <= k < results.len(),
    ensures
        shares(results, counts, i).len() == results.len(),
        shares(results, counts, i)[k] == share(results[k], counts, i),
{
}

/// A batch of one request gets back what came out: where the whole belongs to one
/// request, its share of a list is the list.
pub proof fn law_one_request_gets_the_whole(items: Seq<JsonValue>, count: usize)
    requires
        items.len() == count,
    ensures
        share(ValueView::List(items), seq![count], 0) == ValueView::List(items),
{
    let counts = seq![count];
    lemma_total_prefix(counts, 0);
    assert(counts.take(0) =~= Seq::<usize>::empty());
    assert(counts.take(1) =~= counts);
    assert(items.subrange(0, count as int) =~= items);
}

/// Everything can be split but a tensor that counts the items and lacks elements for them,
/// or whose extents do not fit the machine: lists always can, and so can a tensor that holds
/// just the elements that its items need.
pub proof fn law_full_results_can_be_split(value: ValueView, total: int)
    ensures
        !(value is Tensor) ==> value_splits(value, total),
        value matches ValueView::Tensor(tensor) ==> (value_splits(value, total)
            <==> tensor.shape.len() == 0 || tensor.shape[0] as usize != total || (total
            * inner_size(tensor.shape) <= tensor.data.items.len() && forall|k: int|
            0 <= k < tensor.shape.len() ==> #[trigger] dim_product(tensor.shape.skip(1).take(k))
                <= usize::MAX)),
{
}

/// Results can be split exactly where each of them can and the items can be counted.
pub proof fn law_results_split_one_by_one(results: Seq<ValueView>, counts: Seq<usize>)
    ensures
        results_split(results, counts) <==> total_of(counts) <= usize::MAX && forall|k: int|
            0 <= k < results.len() ==> value_splits(#[trigger] results[k], total_of(counts)),
{
}

} // verus!
