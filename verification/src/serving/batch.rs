//! Signature-driven batching plan and batch-key fingerprints.

use crate::inputs::{Inputs, NameSet};
use crate::json;
use crate::json::{json_list_to_string, json_object_to_string};
use crate::order;
use crate::order::{join_texts, sort_texts};
use crate::text;
use crate::text::{chars_of, decimal_text, joined, signed_decimal_text};
use crate::value::{Dtype, Value, ValueView};
use vstd::prelude::*;

verus! {

/// How a predictor batches one of its inputs.
#[derive(Clone, Copy, Debug, PartialEq, Eq, Structural)]
pub enum BatchMode {
    Static,
    Dynamic,
    Continuous,
}

/// Batching of one input parameter.
#[derive(Clone, Copy, Debug, PartialEq, Eq, Structural)]
pub struct BatchConfig {
    pub mode: BatchMode,
    /// Most items in one invocation.
    pub capacity: Option<usize>,
}

/// Input or output parameter of a predictor.
#[derive(Debug)]
pub struct Parameter {
    pub name: String,
    pub dtype: Option<Dtype>,
    pub batch: Option<BatchConfig>,
}

/// Signature of a predictor.
#[derive(Debug)]
pub struct Signature {
    pub inputs: Vec<Parameter>,
    pub outputs: Vec<Parameter>,
}

/// How the server dispatches predictions for a model, derived from its
/// signature at load time.
#[derive(Debug, PartialEq)]
pub enum BatchPlan {
    /// No input is batched: one prediction at a time.
    Sequential,
    /// Static or dynamic batching: requests wait in a queue, merge up to the
    /// capacity, and flush at capacity or deadline. A partial batch is never
    /// padded.
    Buffered {
        /// Input parameters that are merged across requests.
        params: NameSet,
        /// Most items across merged requests.
        capacity: usize,
    },
    /// Continuous batching: the engine batches and synchronizes internally.
    Continuous,
}

/// A batch plan with its parameters as a set.
pub enum PlanView {
    Sequential,
    Buffered { params: Set<Seq<char>>, capacity: usize },
    Continuous,
}

impl View for BatchPlan {
    type V = PlanView;

    open spec fn view(&self) -> PlanView {
        match self {
            BatchPlan::Sequential => PlanView::Sequential,
            BatchPlan::Buffered { params, capacity } => PlanView::Buffered {
                params: params@,
                capacity: *capacity,
            },
            BatchPlan::Continuous => PlanView::Continuous,
        }
    }
}

impl BatchPlan {
    /// The merged parameters are a set.
    pub open spec fn wf(&self) -> bool {
        self matches BatchPlan::Buffered { params, .. } ==> params.wf()
    }
}

impl Clone for BatchPlan {
    fn clone(&self) -> (r: Self)
        ensures
            r@ == self@,
            self.wf() ==> r.wf(),
    {
        match self {
            BatchPlan::Sequential => BatchPlan::Sequential,
            BatchPlan::Buffered { params, capacity } => BatchPlan::Buffered {
                params: params.clone(),
                capacity: *capacity,
            },
            BatchPlan::Continuous => BatchPlan::Continuous,
        }
    }
}

/// Whether an input is batched in continuous mode.
pub open spec fn is_continuous(p: Parameter) -> bool {
    p.batch matches Some(b) && b.mode == BatchMode::Continuous
}

/// The capacity that an input declares.
pub open spec fn declared_capacity(p: Parameter) -> Option<usize> {
    match p.batch {
        Some(b) => b.capacity,
        None => None,
    }
}

/// The names of the batched inputs.
pub open spec fn batched_names(inputs: Seq<Parameter>) -> Set<Seq<char>> {
    Set::new(
        |name: Seq<char>|
            exists|i: int|
                0 <= i < inputs.len() && (#[trigger] inputs[i]).batch is Some && inputs[i].name@
                    == name,
    )
}

/// Whether a number is the smallest capacity that an input declares, or one
/// where none declares any.
pub open spec fn is_min_capacity(inputs: Seq<Parameter>, capacity: usize) -> bool {
    &&& forall|i: int|
        0 <= i < inputs.len() ==> (declared_capacity(#[trigger] inputs[i]) matches Some(c)
            ==> capacity <= c)
    &&& {
        ||| exists|i: int|
            0 <= i < inputs.len() && declared_capacity(#[trigger] inputs[i]) == Some(capacity)
        ||| capacity == 1 && forall|i: int|
            0 <= i < inputs.len() ==> declared_capacity(#[trigger] inputs[i]) is None
    }
}

/// Whether a plan is the one that a signature's inputs call for.
pub open spec fn is_plan_of(plan: BatchPlan, inputs: Seq<Parameter>) -> bool {
    if forall|i: int| 0 <= i < inputs.len() ==> (#[trigger] inputs[i]).batch is None {
        plan is Sequential
    } else if exists|i: int| 0 <= i < inputs.len() && is_continuous(#[trigger] inputs[i]) {
        plan is Continuous
    } else {
        plan matches BatchPlan::Buffered { params, capacity } && params.wf() && params@
            == batched_names(inputs) && is_min_capacity(inputs, capacity)
    }
}

impl BatchPlan {
    /// Derives the dispatch plan from a predictor signature.
    pub fn from_signature(signature: &Signature) -> (r: BatchPlan)
        ensures
            is_plan_of(r, signature.inputs@),
    {
        let inputs: &Vec<Parameter> = &signature.inputs;
        let mut any: bool = false;
        let mut continuous: bool = false;
        let mut params: NameSet = NameSet::new();
        let mut capacity: Option<usize> = None;
        let mut i: usize = 0;
        proof {
            assert(batched_names(inputs@.take(0)) =~= params@);
        }
        while i < inputs.len()
            invariant
                i <= inputs@.len(),
                any == exists|j: int| 0 <= j < i && (#[trigger] inputs@[j]).batch is Some,
                continuous == exists|j: int| 0 <= j < i && is_continuous(#[trigger] inputs@[j]),
                params.wf(),
                params@ == batched_names(inputs@.take(i as int)),
                forall|j: int|
                    0 <= j < i ==> (declared_capacity(#[trigger] inputs@[j]) matches Some(c)
                        ==> capacity is Some && capacity->0 <= c),
                capacity matches Some(c) ==> exists|j: int|
                    0 <= j < i && declared_capacity(#[trigger] inputs@[j]) == Some(c),
            decreases inputs.len() - i,
        {
            let ghost done = inputs@.take(i as int);
            let ghost next = inputs@.take(i + 1);
            proof {
                assert forall|n: Seq<char>| batched_names(done).contains(n) implies batched_names(
                    next,
                ).contains(n) by {
                    let j = choose|j: int|
                        0 <= j < done.len() && (#[trigger] done[j]).batch is Some && done[j].name@
                            == n;
                    assert(next[j] == done[j]);
                }
                assert forall|n: Seq<char>|
                    batched_names(next).contains(n) && !batched_names(done).contains(
                        n,
                    ) implies inputs@[i as int].batch is Some && inputs@[i as int].name@ == n by {
                    let j = choose|j: int|
                        0 <= j < next.len() && (#[trigger] next[j]).batch is Some && next[j].name@
                            == n;
                    if j < i {
                        assert(done[j] == next[j]);
                    }
                }
                assert(next[i as int] == inputs@[i as int]);
            }
            match &inputs[i].batch {
                Some(config) => {
                    any = true;
                    if config.mode == BatchMode::Continuous {
                        assert(is_continuous(inputs@[i as int]));
                        continuous = true;
                    }
                    params.insert(inputs[i].name.as_str());
                    match config.capacity {
                        Some(c) => {
                            assert(declared_capacity(inputs@[i as int]) == Some(c));
                            let smaller: bool = match capacity {
                                Some(least) => c < least,
                                None => true,
                            };
                            if smaller {
                                capacity = Some(c);
                            }
                        },
                        None => {},
                    }
                    assert(batched_names(next).contains(inputs@[i as int].name@));
                },
                None => {},
            }
            proof {
                assert(params@ =~= batched_names(next));
            }
            i = i + 1;
        }
        assert(inputs@.take(inputs@.len() as int) =~= inputs@);
        if !any {
            return BatchPlan::Sequential;
        }
        if continuous {
            return BatchPlan::Continuous;
        }
        let capacity: usize = match capacity {
            Some(c) => c,
            None => 1,
        };
        BatchPlan::Buffered { params, capacity }
    }
}

/// Whether a value cannot be compared by its fingerprint.
pub open spec fn is_opaque(value: ValueView) -> bool {
    match value {
        ValueView::Tensor(_) => true,
        ValueView::Image(_) => true,
        ValueView::ImageList(_) => true,
        ValueView::ArrayList(_) => true,
        ValueView::Binary(_) => true,
        _ => false,
    }
}

/// The text of a result, or nothing where there is an error.
pub open spec fn text_or_empty(r: Result<Seq<char>, Seq<char>>) -> Seq<char> {
    match r {
        Ok(s) => s,
        Err(_) => Seq::empty(),
    }
}

/// The fingerprint of a value; opaque values take the number that they are given.
///
/// Floats go by their bits: they come from request bodies, not from arithmetic.
pub open spec fn fingerprint(value: ValueView, number: nat) -> Seq<char> {
    match value {
        ValueView::Null => "null"@,
        ValueView::String(s) => "s:"@ + s,
        ValueView::Float(bits) => "f:"@ + text::decimal(bits as nat),
        ValueView::Double(bits) => "d:"@ + text::decimal(bits as nat),
        ValueView::Int(i) => "i:"@ + text::signed_decimal(i as int),
        ValueView::Long(l) => "l:"@ + text::signed_decimal(l as int),
        ValueView::Bool(b) => "b:"@ + (if b { "true"@ } else { "false"@ }),
        ValueView::List(items) => "list:"@ + text_or_empty(json::json_list_text(items)),
        ValueView::Dict(object) => "dict:"@ + text_or_empty(json::json_object_text(object)),
        _ => "__opaque_"@ + text::decimal(number) + "__"@,
    }
}

/// The counter after it has been read once; it wraps around.
pub open spec fn next_number(number: u64) -> u64 {
    if number == u64::MAX {
        0
    } else {
        (number + 1) as u64
    }
}

/// Writes a deterministic text for one value, for comparing batch keys. An
/// opaque value takes a number of the counter, so that no two ever match.
pub fn value_fingerprint(value: &Value, counter: &mut u64) -> (r: String)
    ensures
        r@ == fingerprint(value@, *old(counter) as nat),
        *final(counter) == (if is_opaque(value@) { next_number(*old(counter)) } else { *old(counter) }),
{
    match value {
        Value::Null => "null".to_owned(),
        Value::String(s) => joined("s:", s.as_str()),
        Value::Float(bits) => joined("f:", decimal_text(*bits as u128).as_str()),
        Value::Double(bits) => joined("d:", decimal_text(*bits as u128).as_str()),
        Value::Int(i) => joined("i:", signed_decimal_text(*i as i64).as_str()),
        Value::Long(l) => joined("l:", signed_decimal_text(*l).as_str()),
        Value::Bool(b) => joined("b:", if *b { "true" } else { "false" }),
        Value::List(items) => {
            let body: String = match json_list_to_string(items) {
                Ok(s) => s,
                Err(_) => String::new(),
            };
            joined("list:", body.as_str())
        },
        Value::Dict(object) => {
            let body: String = match json_object_to_string(object) {
                Ok(s) => s,
                Err(_) => String::new(),
            };
            joined("dict:", body.as_str())
        },
        _ => {
            let number: u64 = *counter;
            *counter = number.wrapping_add(1);
            let head: String = joined("__opaque_", decimal_text(number as u128).as_str());
            joined(head.as_str(), "__")
        },
    }
}

/// How a character stands in a key: those that a key is built with are replaced.
pub open spec fn escaped_char(c: char) -> Seq<char> {
    if c == '%' {
        seq!['%', '2', '5']
    } else if c == '&' {
        seq!['%', '2', '6']
    } else if c == '=' {
        seq!['%', '3', 'D']
    } else {
        seq![c]
    }
}

/// How a text stands in a key.
pub open spec fn escaped(text: Seq<char>) -> Seq<char>
    decreases text.len(),
{
    if text.len() == 0 {
        Seq::empty()
    } else {
        escaped(text.drop_last()) + escaped_char(text.last())
    }
}

/// Writes a text as it stands in a key.
fn escape(text: &str) -> (r: String)
    ensures
        r@ == escaped(text@),
{
    proof {
        reveal_strlit("%25");
        reveal_strlit("%26");
        reveal_strlit("%3D");
    }
    let chars: Vec<char> = chars_of(text);
    let mut out: String = String::new();
    let mut i: usize = 0;
    while i < chars.len()
        invariant
            i <= chars@.len(),
            chars@ == text@,
            out@ == escaped(text@.take(i as int)),
            "%25"@ =~= seq!['%', '2', '5'],
            "%26"@ =~= seq!['%', '2', '6'],
            "%3D"@ =~= seq!['%', '3', 'D'],
        decreases chars.len() - i,
    {
        assert(text@.take(i + 1).drop_last() =~= text@.take(i as int));
        let c: char = chars[i];
        let ghost before = out@;
        if c == '%' {
            out.append("%25");
        } else if c == '&' {
            out.append("%26");
        } else if c == '=' {
            out.append("%3D");
        } else {
            out.push(c);
        }
        assert(out@ =~= before + escaped_char(c));
        i = i + 1;
    }
    assert(text@.take(text@.len() as int) =~= text@);
    out
}

/// The counter after the broadcast values of some names have been written.
pub open spec fn counter_after(
    names: Seq<Seq<char>>,
    inputs: Map<Seq<char>, ValueView>,
    params: Set<Seq<char>>,
    counter: u64,
) -> u64
    decreases names.len(),
{
    if names.len() == 0 {
        counter
    } else {
        let before = counter_after(names.drop_last(), inputs, params, counter);
        if !params.contains(names.last()) && is_opaque(inputs[names.last()]) {
            next_number(before)
        } else {
            before
        }
    }
}

/// The part of a broadcast input: its name, an equals sign, and its fingerprint.
pub open spec fn key_part(name: Seq<char>, value: ValueView, number: nat) -> Seq<char> {
    escaped(name) + "="@ + escaped(fingerprint(value, number))
}

/// One part per broadcast input.
pub open spec fn key_parts(
    names: Seq<Seq<char>>,
    inputs: Map<Seq<char>, ValueView>,
    params: Set<Seq<char>>,
    counter: u64,
) -> Seq<Seq<char>>
    decreases names.len(),
{
    if names.len() == 0 {
        Seq::empty()
    } else {
        let name = names.last();
        let before = key_parts(names.drop_last(), inputs, params, counter);
        if params.contains(name) {
            before
        } else {
            let number = counter_after(names.drop_last(), inputs, params, counter);
            before.push(key_part(name, inputs[name], number as nat))
        }
    }
}

/// The batch key: the parts of the broadcast inputs in order, joined.
pub open spec fn batch_key(
    names: Seq<Seq<char>>,
    inputs: Map<Seq<char>, ValueView>,
    params: Set<Seq<char>>,
    counter: u64,
) -> Seq<char> {
    order::joined_texts(order::sorted_texts(key_parts(names, inputs, params, counter)), "&"@)
}

/// Computes a deterministic key from the broadcast (non-batch) values.
///
/// Two requests merge only where their keys are equal, so that a broadcast
/// value is never silently overwritten. Batch parameters are left out.
pub fn compute_batch_key(inputs: &Inputs, batch_params: &NameSet, counter: &mut u64) -> (r: String)
    requires
        inputs.wf(),
    ensures
        r@ == batch_key(inputs.names(), inputs@, batch_params@, *old(counter)),
        *final(counter) == counter_after(
            inputs.names(),
            inputs@,
            batch_params@,
            *old(counter),
        ),
{
    let mut parts: Vec<String> = Vec::new();
    let ghost names = inputs.names();
    let mut i: usize = 0;
    while i < inputs.len()
        invariant
            inputs.wf(),
            names == inputs.names(),
            i <= names.len(),
            order::texts(parts@) == key_parts(
                names.take(i as int),
                inputs@,
                batch_params@,
                *old(counter),
            ),
            *counter == counter_after(
                names.take(i as int),
                inputs@,
                batch_params@,
                *old(counter),
            ),
        decreases names.len() - i,
    {
        let name: &str = inputs.name_at(i);
        assert(names.take(i + 1).drop_last() =~= names.take(i as int));
        if !batch_params.contains(name) {
            let ghost before = parts@;
            let print: String = value_fingerprint(inputs.value_at(i), counter);
            let head: String = joined(escape(name).as_str(), "=");
            parts.push(joined(head.as_str(), escape(print.as_str()).as_str()));
            assert(order::texts(parts@) =~= order::texts(before).push(parts@.last()@));
        }
        i = i + 1;
    }
    assert(names.take(names.len() as int) =~= names);
    let sorted: Vec<String> = sort_texts(parts);
    join_texts(&sorted, "&")
}

/// The items that one batch value carries.
pub open spec fn value_items(value: ValueView) -> nat {
    match value {
        ValueView::List(items) => items.len(),
        _ => 1,
    }
}

/// Whether a number is the most items that a batch input carries, at least one.
pub open spec fn is_item_count(
    n: nat,
    inputs: Map<Seq<char>, ValueView>,
    params: Set<Seq<char>>,
) -> bool {
    &&& n >= 1
    &&& forall|name: Seq<char>| #[trigger]
        params.contains(name) && inputs.dom().contains(name) ==> value_items(inputs[name]) <= n
    &&& n == 1 || exists|name: Seq<char>| #[trigger]
        params.contains(name) && inputs.dom().contains(name) && value_items(inputs[name]) == n
}

/// Counts the batch items that a request carries.
pub fn item_count(inputs: &Inputs, batch_params: &NameSet) -> (r: usize)
    requires
        inputs.wf(),
        batch_params.wf(),
    ensures
        is_item_count(r as nat, inputs@, batch_params@),
{
    let mut most: usize = 1;
    let mut i: usize = 0;
    proof {
        batch_params.lemma_order();
    }
    let ghost order = batch_params.order();
    while i < batch_params.len()
        invariant
            inputs.wf(),
            order == batch_params.order(),
            order.to_set() == batch_params@,
            i <= order.len(),
            most >= 1,
            forall|j: int|
                0 <= j < i && inputs@.dom().contains(#[trigger] order[j]) ==> value_items(
                    inputs@[order[j]],
                ) <= most,
            most == 1 || exists|j: int|
                0 <= j < i && inputs@.dom().contains(#[trigger] order[j]) && value_items(
                    inputs@[order[j]],
                ) == most,
        decreases order.len() - i,
    {
        match inputs.get(batch_params.name_at(i)) {
            Some(value) => {
                let items: usize = match value {
                    Value::List(items) => items.len(),
                    _ => 1,
                };
                assert(inputs@.dom().contains(order[i as int]));
                if items > most {
                    most = items;
                }
            },
            None => {},
        }
        i = i + 1;
    }
    proof {
        assert forall|name: Seq<char>| #[trigger]
            batch_params@.contains(name) && inputs@.dom().contains(name) implies value_items(
            inputs@[name],
        ) <= most by {
            assert(order.to_set().contains(name));
            let j = choose|j: int| 0 <= j < order.len() && order[j] == name;
            assert(inputs@.dom().contains(order[j]));
        }
        if most != 1 {
            let j = choose|j: int|
                0 <= j < order.len() && inputs@.dom().contains(#[trigger] order[j])
                    && value_items(inputs@[order[j]]) == most;
            assert(order.to_set().contains(order[j]));
            assert(batch_params@.contains(order[j]));
        }
    }
    most
}

/// A model is dispatched by what its inputs declare. Without a batched input it is
/// sequential; with a continuous one the engine batches; otherwise requests are
/// buffered, the batched inputs are the ones that are merged, and a batch holds no
/// more items than any input allows: as many as the strictest declares, or one where
/// none declares a limit.
pub proof fn law_plans_follow_the_signature(plan: BatchPlan, inputs: Seq<Parameter>)
    requires
        is_plan_of(plan, inputs),
    ensures
        plan is Sequential <==> forall|i: int|
            0 <= i < inputs.len() ==> (#[trigger] inputs[i]).batch is None,
        plan is Continuous <==> exists|i: int|
            0 <= i < inputs.len() && ((#[trigger] inputs[i]).batch matches Some(b) && b.mode
                == BatchMode::Continuous),
        plan matches BatchPlan::Buffered { params, capacity } ==> {
            &&& forall|i: int|
                0 <= i < inputs.len() ==> (params@.contains((#[trigger] inputs[i]).name@)
                    <==> exists|j: int|
                    0 <= j < inputs.len() && (#[trigger] inputs[j]).batch is Some && inputs[j].name@
                        == inputs[i].name@)
            &&& forall|name: Seq<char>| #[trigger]
                params@.contains(name) ==> exists|j: int|
                    0 <= j < inputs.len() && (#[trigger] inputs[j]).batch is Some && inputs[j].name@
                        == name
            &&& forall|i: int|
                0 <= i < inputs.len() ==> ((#[trigger] inputs[i]).batch matches Some(b) ==> (
                b.capacity matches Some(c) ==> capacity <= c))
            &&& capacity == 1 || exists|i: int|
                0 <= i < inputs.len() && ((#[trigger] inputs[i]).batch matches Some(b) && b.capacity
                    == Some(capacity))
            &&& forall|i: int|
                0 <= i < inputs.len() ==> !((#[trigger] inputs[i]).batch matches Some(b) && b.mode
                    == BatchMode::Continuous)
        },
{
    if let BatchPlan::Buffered { params, capacity } = plan {
        assert forall|i: int| 0 <= i < inputs.len() implies ((#[trigger] inputs[i]).batch matches Some(
            b,
        ) ==> (b.capacity matches Some(c) ==> capacity <= c)) by {
            assert(declared_capacity(inputs[i]) matches Some(c) ==> capacity <= c);
        }
        assert forall|i: int| 0 <= i < inputs.len() implies !((
        #[trigger] inputs[i]).batch matches Some(b) && b.mode == BatchMode::Continuous) by {
            assert(!is_continuous(inputs[i]));
        }
        if exists|i: int| 0 <= i < inputs.len() && declared_capacity(#[trigger] inputs[i]) == Some(
            capacity,
        ) {
            let i = choose|i: int|
                0 <= i < inputs.len() && declared_capacity(#[trigger] inputs[i]) == Some(capacity);
            assert(inputs[i].batch matches Some(b) && b.capacity == Some(capacity));
        }
    } else if let BatchPlan::Continuous = plan {
        let i = choose|i: int| 0 <= i < inputs.len() && is_continuous(#[trigger] inputs[i]);
        assert(inputs[i].batch matches Some(b) && b.mode == BatchMode::Continuous);
    } else {
        assert forall|i: int| 0 <= i < inputs.len() implies !is_continuous(#[trigger] inputs[i]) by {
            assert(inputs[i].batch is None);
        }
    }
}

/// A signature calls for one plan: any two that it calls for are alike.
pub proof fn law_plans_are_unique(a: BatchPlan, b: BatchPlan, inputs: Seq<Parameter>)
    requires
        is_plan_of(a, inputs),
        is_plan_of(b, inputs),
    ensures
        a@ == b@,
{
    if let BatchPlan::Buffered { params: p, capacity: c } = a {
        if let BatchPlan::Buffered { params: q, capacity: d } = b {
            assert(c <= d && d <= c) by {
                if exists|i: int| 0 <= i < inputs.len() && declared_capacity(#[trigger] inputs[i])
                    == Some(c) {
                    let i = choose|i: int|
                        0 <= i < inputs.len() && declared_capacity(#[trigger] inputs[i]) == Some(c);
                    assert(declared_capacity(inputs[i]) matches Some(x) ==> d <= x);
                }
                if exists|i: int| 0 <= i < inputs.len() && declared_capacity(#[trigger] inputs[i])
                    == Some(d) {
                    let i = choose|i: int|
                        0 <= i < inputs.len() && declared_capacity(#[trigger] inputs[i]) == Some(d);
                    assert(declared_capacity(inputs[i]) matches Some(x) ==> c <= x);
                }
            }
        }
    }
}

/// A request carries as many items as its longest batch list, and one where it has
/// none or only shorter ones. Inputs that are not batched do not count.
pub proof fn law_item_count_is_the_longest_list(
    n: nat,
    inputs: Map<Seq<char>, ValueView>,
    params: Set<Seq<char>>,
)
    requires
        is_item_count(n, inputs, params),
    ensures
        n >= 1,
        forall|name: Seq<char>| #[trigger]
            params.contains(name) && inputs.dom().contains(name) ==> (
            inputs[name] matches ValueView::List(items) ==> items.len() <= n),
        n > 1 ==> exists|name: Seq<char>| #[trigger]
            params.contains(name) && inputs.dom().contains(name) && (
            inputs[name] matches ValueView::List(items) && items.len() == n),
        forall|m: nat| #[trigger] is_item_count(m, inputs, params) ==> m == n,
{
    assert forall|name: Seq<char>| #[trigger]
        params.contains(name) && inputs.dom().contains(name) implies (
    inputs[name] matches ValueView::List(items) ==> items.len() <= n) by {
        assert(value_items(inputs[name]) <= n);
    }
    if n > 1 {
        let name = choose|name: Seq<char>| #[trigger]
            params.contains(name) && inputs.dom().contains(name) && value_items(inputs[name]) == n;
        assert(params.contains(name));
    }
    assert forall|m: nat| #[trigger] is_item_count(m, inputs, params) implies m == n by {
        if m > n {
            let name = choose|name: Seq<char>| #[trigger]
                params.contains(name) && inputs.dom().contains(name) && value_items(inputs[name])
                    == m;
            assert(params.contains(name));
        }
        if n > m {
            let name = choose|name: Seq<char>| #[trigger]
                params.contains(name) && inputs.dom().contains(name) && value_items(inputs[name])
                    == n;
            assert(params.contains(name));
        }
    }
}

/// Only what has no text of its own is opaque: tensors, images and bytes. Each of
/// them uses up one number, and nothing else does.
pub proof fn law_opaque_values_take_numbers(
    value: Value,
    name: Seq<char>,
    inputs: Map<Seq<char>, ValueView>,
    params: Set<Seq<char>>,
    counter: u64,
)
    requires
        inputs[name] == value@,
        !params.contains(name),
        counter < u64::MAX,
    ensures
        is_opaque(value@) <==> value is Tensor || value is Image || value is ImageList || value
            is ArrayList || value is Binary,
        counter_after(seq![name], inputs, params, counter) == counter + (if is_opaque(value@) {
            1int
        } else {
            0int
        }),
        !is_opaque(value@) ==> forall|m: nat| #[trigger]
            fingerprint(value@, m) == fingerprint(value@, 0),
{
    reveal_with_fuel(counter_after, 2);
    assert(seq![name].drop_last() =~= Seq::<Seq<char>>::empty());
}

} // verus!
