//! Batch plans, batch keys, merging and splitting.

use muna_server::inputs::{Inputs, NameSet};
use muna_server::serving::batch::{
    compute_batch_key, item_count, value_fingerprint, BatchConfig, BatchMode, BatchPlan, Parameter,
    Signature,
};
use muna_server::serving::dispatch::merge::{can_split, merge_inputs, split_results};
use muna_server::value::{Dtype, Tensor, TensorData, Value};
use serde_json::Value as JsonValue;

fn param(name: &str, dtype: Dtype, batch: Option<BatchConfig>) -> Parameter {
    Parameter { name: name.into(), dtype: Some(dtype), batch }
}

fn signature(inputs: Vec<Parameter>) -> Signature {
    Signature { inputs, outputs: vec![] }
}

fn names(list: &[&str]) -> NameSet {
    let mut set = NameSet::new();
    for name in list {
        set.insert(name);
    }
    set
}

fn inputs(entries: Vec<(&str, Value)>) -> Inputs {
    let mut inputs = Inputs::new();
    for (name, value) in entries {
        inputs.insert(name, value);
    }
    inputs
}

fn list(items: &[i64]) -> Value {
    Value::List(items.iter().map(|i| JsonValue::from(*i)).collect())
}

fn texts(items: &[&str]) -> Value {
    Value::List(items.iter().map(|i| JsonValue::from(*i)).collect())
}

fn floats(values: &[f32]) -> TensorData {
    TensorData::Float32(values.iter().map(|v| v.to_bits()).collect())
}

/// Keys of two requests from one run of the server.
fn keys(a: &Inputs, b: &Inputs, params: &NameSet) -> (String, String) {
    let mut counter: u64 = 0;
    (compute_batch_key(a, params, &mut counter), compute_batch_key(b, params, &mut counter))
}

#[test]
fn plan_no_batch_params_is_sequential() {
    let sig = signature(vec![
        param("texts", Dtype::List, None),
        param("dimensions", Dtype::Int32, None),
    ]);
    assert_eq!(BatchPlan::from_signature(&sig), BatchPlan::Sequential);
}

#[test]
fn plan_continuous_param_wins() {
    let sig = signature(vec![
        param(
            "messages",
            Dtype::List,
            Some(BatchConfig { mode: BatchMode::Continuous, capacity: None }),
        ),
        param(
            "images",
            Dtype::List,
            Some(BatchConfig { mode: BatchMode::Dynamic, capacity: Some(8) }),
        ),
    ]);
    assert_eq!(BatchPlan::from_signature(&sig), BatchPlan::Continuous);
}

#[test]
fn plan_dynamic_uses_min_capacity() {
    let sig = signature(vec![
        param(
            "texts",
            Dtype::List,
            Some(BatchConfig { mode: BatchMode::Dynamic, capacity: Some(128) }),
        ),
        param(
            "images",
            Dtype::List,
            Some(BatchConfig { mode: BatchMode::Dynamic, capacity: Some(32) }),
        ),
        param("dimensions", Dtype::Int32, None),
    ]);
    match BatchPlan::from_signature(&sig) {
        BatchPlan::Buffered { params, capacity } => {
            assert_eq!(params, names(&["texts", "images"]));
            assert_eq!(capacity, 32);
        }
        other => panic!("expected Buffered, got {other:?}"),
    }
}

#[test]
fn plan_static_and_dynamic_derive_identical_plans() {
    // Static and dynamic differ only in the compiled predictor's shape
    // contract (a static predictor pads internally); the server dispatches
    // both identically.
    let static_sig = signature(vec![param(
        "texts",
        Dtype::List,
        Some(BatchConfig { mode: BatchMode::Static, capacity: Some(4) }),
    )]);
    let dynamic_sig = signature(vec![param(
        "texts",
        Dtype::List,
        Some(BatchConfig { mode: BatchMode::Dynamic, capacity: Some(4) }),
    )]);
    let static_plan = BatchPlan::from_signature(&static_sig);
    assert_eq!(static_plan, BatchPlan::from_signature(&dynamic_sig));
    match static_plan {
        BatchPlan::Buffered { capacity, .. } => assert_eq!(capacity, 4),
        other => panic!("expected Buffered, got {other:?}"),
    }
}

#[test]
fn batch_key_same_broadcast_values_match() {
    let bp = names(&["texts"]);
    let a = inputs(vec![("texts", list(&[])), ("dimensions", Value::Int(10))]);
    let b = inputs(vec![("texts", list(&[])), ("dimensions", Value::Int(10))]);
    let (ka, kb) = keys(&a, &b, &bp);
    assert_eq!(ka, kb);
}

#[test]
fn batch_key_different_broadcast_values_differ() {
    let bp = names(&["texts"]);
    let a = inputs(vec![("texts", list(&[])), ("dimensions", Value::Int(10))]);
    let b = inputs(vec![("texts", list(&[])), ("dimensions", Value::Int(20))]);
    let (ka, kb) = keys(&a, &b, &bp);
    assert_ne!(ka, kb);
}

#[test]
fn batch_key_excludes_batch_params() {
    let bp = names(&["texts"]);
    let a = inputs(vec![("texts", list(&[1])), ("dimensions", Value::Int(10))]);
    let b = inputs(vec![("texts", list(&[1, 2, 3])), ("dimensions", Value::Int(10))]);
    let (ka, kb) = keys(&a, &b, &bp);
    assert_eq!(ka, kb);
}

#[test]
fn batch_key_missing_optional_broadcast_differs() {
    let bp = names(&["texts"]);
    let a = inputs(vec![("texts", list(&[])), ("dimensions", Value::Int(10))]);
    let b = inputs(vec![("texts", list(&[]))]);
    let (ka, kb) = keys(&a, &b, &bp);
    assert_ne!(ka, kb);
}

#[test]
fn batch_key_floats_compare_by_bits() {
    let bp = names(&[]);
    let a = inputs(vec![("t", Value::Float(0.5f32.to_bits()))]);
    let b = inputs(vec![("t", Value::Float(0.5f32.to_bits()))]);
    let c = inputs(vec![("t", Value::Float(0.25f32.to_bits()))]);
    let (ka, kb) = keys(&a, &b, &bp);
    assert_eq!(ka, kb);
    let (ka, kc) = keys(&a, &c, &bp);
    assert_ne!(ka, kc);
}

#[test]
fn batch_key_opaque_values_never_match() {
    let bp = names(&[]);
    let tensor = || Value::Tensor(Tensor { data: floats(&[1.0]), shape: vec![1] });
    let a = inputs(vec![("t", tensor())]);
    let b = inputs(vec![("t", tensor())]);
    let (ka, kb) = keys(&a, &b, &bp);
    assert_ne!(ka, kb);
}

/// The characters that a key is built with are escaped, so that no value can
/// pass for another input.
#[test]
fn batch_key_escapes_separators() {
    let bp = names(&[]);
    let a = inputs(vec![("a", Value::String("1&b=s:2".into()))]);
    let b = inputs(vec![("a", Value::String("1".into())), ("b", Value::String("2".into()))]);
    let (ka, kb) = keys(&a, &b, &bp);
    assert_eq!(ka, "a=s:1%26b%3Ds:2");
    assert_eq!(kb, "a=s:1&b=s:2");
    let escaped = inputs(vec![("a", Value::String("1%26b%3Ds:2".into()))]);
    assert_eq!(keys(&escaped, &a, &bp).0, "a=s:1%2526b%253Ds:2");
    let named = inputs(vec![("a=s:1&b", Value::String("é".into()))]);
    assert_eq!(keys(&named, &a, &bp).0, "a%3Ds:1%26b=s:é");
    let clean = inputs(vec![("dimensions", Value::Int(10))]);
    assert_eq!(keys(&clean, &clean, &bp).0, "dimensions=i:10");
}

/// Batch parameters are left out of the key, whatever they hold.
#[test]
fn batch_key_leaves_out_any_batch_value() {
    let bp = names(&["prompt"]);
    let of = |value: Value| inputs(vec![("prompt", value), ("n", Value::Int(1))]);
    for value in [|| Value::Float(1), || Value::Binary(vec![1]), || Value::String("a".into())] {
        let (ka, kb) = keys(&of(value()), &of(list(&[1])), &bp);
        assert_eq!((ka.as_str(), kb.as_str()), ("n=i:1", "n=i:1"));
    }
}

#[test]
fn item_count_uses_max_batch_list_len() {
    let bp = names(&["texts", "images"]);
    let given = inputs(vec![
        ("texts", list(&[1, 2, 3])),
        ("images", list(&[1])),
        ("dims", Value::Int(10)),
    ]);
    assert_eq!(item_count(&given, &bp), 3);
}

#[test]
fn item_count_defaults_to_one() {
    let bp = names(&["texts"]);
    let given = inputs(vec![("dims", Value::Int(10))]);
    assert_eq!(item_count(&given, &bp), 1);
}

/// Keys are sorted by name, whatever the order of the inputs.
#[test]
fn batch_key_ignores_input_order() {
    let bp = names(&[]);
    let a = inputs(vec![("x", Value::Int(1)), ("y", Value::Bool(true))]);
    let b = inputs(vec![("y", Value::Bool(true)), ("x", Value::Int(1))]);
    let (ka, kb) = keys(&a, &b, &bp);
    assert_eq!(ka, kb);
    assert!(ka.find("x=").unwrap() < ka.find("y=").unwrap());
}

/// Values of different kinds have different fingerprints; equal plain values
/// share one, and lists and objects go by their JSON.
#[test]
fn fingerprints_tell_kinds_apart() {
    let mut n: u64 = 0;
    let mut object = serde_json::Map::new();
    object.insert("a".to_string(), JsonValue::from(1));
    let values = vec![
        Value::Null,
        Value::Float(1),
        Value::Double(1),
        Value::Int(1),
        Value::Long(1),
        Value::Bool(true),
        Value::String("1".to_string()),
        list(&[1]),
        Value::Dict(object),
    ];
    let prints: Vec<String> = values.iter().map(|v| value_fingerprint(v, &mut n)).collect();
    for i in 0..prints.len() {
        for j in 0..i {
            assert_ne!(prints[i], prints[j]);
        }
    }
    assert_eq!(n, 0);
    for (value, print) in values.iter().zip(&prints) {
        assert_eq!(value_fingerprint(value, &mut n), *print);
    }
    assert!(prints[7].contains("[1]"));
    assert!(prints[8].contains(r#"{"a":1}"#));
    assert_ne!(
        value_fingerprint(&Value::Binary(vec![1]), &mut n),
        value_fingerprint(&Value::Binary(vec![1]), &mut n)
    );
    assert_eq!(n, 2);
}

fn check_merge_single_item_returns_inputs() {
    let bp = names(&["texts"]);
    let given = inputs(vec![("texts", texts(&["hello"])), ("dims", Value::Int(10))]);
    let merged = merge_inputs(&vec![&given], &bp);
    assert_eq!(merged.len(), 2);
    assert!(matches!(merged.get("dims"), Some(Value::Int(10))));
}

fn check_merge_concatenates_batch_params() {
    let bp = names(&["texts"]);
    let a = inputs(vec![("texts", texts(&["a", "b"])), ("dims", Value::Int(10))]);
    let b = inputs(vec![("texts", texts(&["c"])), ("dims", Value::Int(10))]);
    let merged = merge_inputs(&vec![&a, &b], &bp);
    match merged.get("texts") {
        Some(Value::List(items)) => assert_eq!(items.len(), 3),
        other => panic!("expected list of 3, got {other:?}"),
    }
    assert!(matches!(merged.get("dims"), Some(Value::Int(10))));
}

/// A value that is no list is one item of the merged list.
#[test]
fn merge_takes_scalars_as_items() {
    let bp = names(&["prompt"]);
    let of = |value: Value| inputs(vec![("prompt", value)]);
    let mut object = serde_json::Map::new();
    object.insert("k".to_string(), JsonValue::from(1));
    let batch = [
        of(Value::String("a".into())),
        of(texts(&["b", "c"])),
        of(Value::Int(-3)),
        of(Value::Long(1 << 40)),
        of(Value::Bool(true)),
        of(Value::Null),
        of(Value::Dict(object.clone())),
        inputs(vec![]),
    ];
    let merged = merge_inputs(&batch.iter().collect(), &bp);
    let expected = vec![
        JsonValue::from("a"),
        JsonValue::from("b"),
        JsonValue::from("c"),
        JsonValue::from(-3),
        JsonValue::from(1i64 << 40),
        JsonValue::from(true),
        JsonValue::Null,
        JsonValue::from(object),
    ];
    match merged.get("prompt") {
        Some(Value::List(items)) => assert_eq!(items, &expected),
        other => panic!("expected a list, got {other:?}"),
    }
}

fn split(results: Vec<Value>, counts: &[usize]) -> Vec<Vec<Value>> {
    let counts = counts.to_vec();
    assert!(can_split(&results, &counts));
    split_results(&results, &counts)
}

fn check_split_tensor_along_dim0() {
    let tensor = Value::Tensor(Tensor {
        data: floats(&[1.0, 2.0, 3.0, 4.0, 5.0, 6.0, 7.0, 8.0, 9.0, 10.0, 11.0, 12.0]),
        shape: vec![3, 4],
    });
    let splits = split(vec![tensor], &[2, 1]);
    assert_eq!(splits.len(), 2);
    match &splits[0][0] {
        Value::Tensor(t) => {
            assert_eq!(t.shape, vec![2, 4]);
            let expected = [1.0f32, 2.0, 3.0, 4.0, 5.0, 6.0, 7.0, 8.0].map(f32::to_bits);
            assert!(matches!(&t.data, TensorData::Float32(v) if v == &expected));
        }
        other => panic!("expected tensor, got {other:?}"),
    }
    match &splits[1][0] {
        Value::Tensor(t) => {
            assert_eq!(t.shape, vec![1, 4]);
            let expected = [9.0f32, 10.0, 11.0, 12.0].map(f32::to_bits);
            assert!(matches!(&t.data, TensorData::Float32(v) if v == &expected));
        }
        other => panic!("expected tensor, got {other:?}"),
    }
}

fn check_split_list_by_counts() {
    let list = texts(&["a", "b", "c", "d", "e"]);
    let splits = split(vec![list], &[3, 2]);
    assert_eq!(splits.len(), 2);
    match &splits[0][0] {
        Value::List(items) => assert_eq!(items.len(), 3),
        other => panic!("expected list, got {other:?}"),
    }
    match &splits[1][0] {
        Value::List(items) => assert_eq!(items.len(), 2),
        other => panic!("expected list, got {other:?}"),
    }
}

fn check_split_scalar_broadcasts() {
    let splits = split(vec![Value::Float(42.0f32.to_bits())], &[2, 3]);
    assert!(matches!(&splits[0][0], Value::Float(f) if f32::from_bits(*f) == 42.0));
    assert!(matches!(&splits[1][0], Value::Float(f) if f32::from_bits(*f) == 42.0));
}

fn check_split_tensor_dim0_mismatch_broadcasts() {
    let tensor =
        Value::Tensor(Tensor { data: floats(&[1.0, 2.0, 3.0, 4.0]), shape: vec![4, 1] });
    let splits = split(vec![tensor], &[2, 1]);
    match (&splits[0][0], &splits[1][0]) {
        (Value::Tensor(a), Value::Tensor(b)) => {
            assert_eq!(a.shape, vec![4, 1]);
            assert_eq!(b.shape, vec![4, 1]);
        }
        _ => panic!("expected tensors"),
    }
}

fn check_merge_split_round_trip() {
    // Two requests of 2 + 1 items merge into a 3-item invocation whose list
    // output splits back to the original request shapes.
    let bp = names(&["texts"]);
    let a = inputs(vec![("texts", texts(&["a", "b"]))]);
    let b = inputs(vec![("texts", texts(&["c"]))]);
    let merged = merge_inputs(&vec![&a, &b], &bp);
    let merged_texts = match merged.get("texts") {
        Some(Value::List(items)) => items.clone(),
        other => panic!("expected list, got {other:?}"),
    };
    let splits = split(vec![Value::List(merged_texts)], &[2, 1]);
    assert!(matches!(&splits[0][0], Value::List(items) if items.len() == 2));
    assert!(matches!(&splits[1][0], Value::List(items) if items.len() == 1));
    assert!(matches!(&splits[0][0], Value::List(items) if items[1] == "b"));
    assert!(matches!(&splits[1][0], Value::List(items) if items[0] == "c"));
}

#[test]
fn dispatch_merge_single_item_returns_inputs() {
    check_merge_single_item_returns_inputs();
}

#[test]
fn dispatch_merge_concatenates_batch_params() {
    check_merge_concatenates_batch_params();
}

#[test]
fn dispatch_split_tensor_along_dim0() {
    check_split_tensor_along_dim0();
}

#[test]
fn dispatch_split_list_by_counts() {
    check_split_list_by_counts();
}

#[test]
fn dispatch_split_scalar_broadcasts() {
    check_split_scalar_broadcasts();
}

#[test]
fn dispatch_split_tensor_dim0_mismatch_broadcasts() {
    check_split_tensor_dim0_mismatch_broadcasts();
}

#[test]
fn dispatch_merge_split_round_trip() {
    check_merge_split_round_trip();
}

#[test]
fn merge_merge_single_item_returns_inputs() {
    check_merge_single_item_returns_inputs();
}

#[test]
fn merge_merge_concatenates_batch_params() {
    check_merge_concatenates_batch_params();
}

#[test]
fn merge_split_tensor_along_dim0() {
    check_split_tensor_along_dim0();
}

#[test]
fn merge_split_list_by_counts() {
    check_split_list_by_counts();
}

#[test]
fn merge_split_scalar_broadcasts() {
    check_split_scalar_broadcasts();
}

#[test]
fn merge_split_tensor_dim0_mismatch_broadcasts() {
    check_split_tensor_dim0_mismatch_broadcasts();
}

#[test]
fn merge_merge_split_round_trip() {
    check_merge_split_round_trip();
}

/// A tensor that claims more elements than it holds cannot be split.
#[test]
fn short_tensors_cannot_be_split() {
    let tensor = Value::Tensor(Tensor { data: floats(&[1.0, 2.0]), shape: vec![2, 2] });
    assert!(!can_split(&vec![tensor], &vec![1, 1]));
}

/// Rows without elements split into rows without elements.
#[test]
fn empty_rows_split_along_dim0() {
    let tensor = Value::Tensor(Tensor { data: floats(&[]), shape: vec![3, 0] });
    let splits = split(vec![tensor], &[2, 1]);
    let shapes: Vec<&Vec<i32>> = splits
        .iter()
        .map(|values| match &values[0] {
            Value::Tensor(t) => {
                assert_eq!(t.data.len(), 0);
                &t.shape
            }
            other => panic!("expected a tensor, got {other:?}"),
        })
        .collect();
    assert_eq!(shapes, vec![&vec![2, 0], &vec![1, 0]]);
}

/// A list of another length than the items is handed to every request whole.
#[test]
fn list_length_mismatch_broadcasts() {
    let splits = split(vec![texts(&["a"])], &[2, 1]);
    assert!(matches!(&splits[0][0], Value::List(items) if items.len() == 1));
    assert!(matches!(&splits[1][0], Value::List(items) if items.len() == 1));
}

/// Every element type splits.
#[test]
fn every_element_type_splits() {
    let all = vec![
        TensorData::Float64(vec![1, 2]),
        TensorData::Int8(vec![1, 2]),
        TensorData::Int16(vec![1, 2]),
        TensorData::Int32(vec![1, 2]),
        TensorData::Int64(vec![1, 2]),
        TensorData::Uint8(vec![1, 2]),
        TensorData::Uint16(vec![1, 2]),
        TensorData::Uint32(vec![1, 2]),
        TensorData::Uint64(vec![1, 2]),
        TensorData::Complex64(vec![(1, 0), (2, 0)]),
        TensorData::Complex128(vec![(1, 0), (2, 0)]),
        TensorData::Bool(vec![true, false]),
    ];
    for data in all {
        let dtype = data.dtype();
        let splits = split(vec![Value::Tensor(Tensor { data, shape: vec![2] })], &[1, 1]);
        for part in &splits {
            match &part[0] {
                Value::Tensor(t) => {
                    assert_eq!(t.shape, vec![1]);
                    assert_eq!(t.data.dtype(), dtype);
                    assert_eq!(t.data.len(), 1);
                }
                other => panic!("expected tensor, got {other:?}"),
            }
        }
    }
}
