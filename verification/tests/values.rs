//! Remote values and data URLs.

use muna_server::codec::{decode_data_url, encode_data_url};
use muna_server::handlers::predictions::{
    create_prediction_id, create_remote_value, error_prediction, finish_remote_value,
    is_tensor_dtype, local_acceleration, native_part, parse_remote_bytes, parse_remote_value,
    to_remote_prediction, NativePart, ParsePlan,
};
use muna_server::prediction::{Acceleration, PredictError, Prediction, RemoteValue};
use muna_server::value::{Dtype, Image, Tensor, TensorData, Value};
use serde_json::Value as JsonValue;

fn remote(url: &str, dtype: Dtype) -> RemoteValue {
    RemoteValue { data: Some(url.to_string()), dtype }
}

fn write(value: &Value) -> RemoteValue {
    assert!(matches!(native_part(value), NativePart::Nothing));
    let unused = Err(PredictError::Native("not asked".into()));
    create_remote_value(value, &unused).unwrap()
}

fn read(remote: &RemoteValue) -> Value {
    match parse_remote_value(remote) {
        Ok(ParsePlan::Value(value)) => value,
        other => panic!("expected a value, got {other:?}"),
    }
}

fn failure(remote: &RemoteValue) -> String {
    match parse_remote_value(remote) {
        Err(PredictError::Prediction(message)) => message,
        other => panic!("expected a prediction error, got {other:?}"),
    }
}

#[test]
fn data_urls_carry_base64() {
    assert_eq!(encode_data_url(b"hello", "text/plain"), "data:text/plain;base64,aGVsbG8=");
    assert_eq!(decode_data_url("data:text/plain;base64,aGVsbG8="), Ok(b"hello".to_vec()));
    assert_eq!(decode_data_url(&encode_data_url(&[0, 255, 7], "a/b")), Ok(vec![0, 255, 7]));
    assert_eq!(decode_data_url(&encode_data_url(&[], "a/b")), Ok(vec![]));
}

#[test]
fn other_urls_are_refused() {
    let refused =
        "Unsupported value data URL; only inline base64 `data:` URLs are supported".to_string();
    assert_eq!(decode_data_url("https://example.com/x"), Err(refused.clone()));
    assert_eq!(decode_data_url("data:text/plain,hello"), Err(refused.clone()));
    assert_eq!(decode_data_url(""), Err(refused));
    let broken = decode_data_url("data:text/plain;base64,a").unwrap_err();
    assert!(broken.starts_with("Base64 decode error: "));
    assert!(broken.len() > "Base64 decode error: ".len());
}

#[test]
fn text_bytes_and_null_read_back() {
    for s in ["", "hello", "naïve ✓", "data:;base64,"] {
        match read(&write(&Value::String(s.to_string()))) {
            Value::String(back) => assert_eq!(back, s),
            other => panic!("expected text, got {other:?}"),
        }
    }
    match read(&write(&Value::Binary(vec![1, 2, 255]))) {
        Value::Binary(back) => assert_eq!(back, vec![1, 2, 255]),
        other => panic!("expected bytes, got {other:?}"),
    }
    assert!(matches!(read(&write(&Value::Null)), Value::Null));
    assert!(write(&Value::Null).data.is_none());
}

#[test]
fn lists_and_objects_are_json() {
    let list = Value::List(vec![JsonValue::from(1), JsonValue::from("a")]);
    let written = write(&list);
    assert_eq!(written.dtype, Dtype::List);
    assert_eq!(
        decode_data_url(written.data.as_deref().unwrap()).unwrap(),
        br#"[1,"a"]"#.to_vec()
    );
    match read(&written) {
        Value::List(items) => assert_eq!(items, vec![JsonValue::from(1), JsonValue::from("a")]),
        other => panic!("expected a list, got {other:?}"),
    }
    let mut object = serde_json::Map::new();
    object.insert("k".to_string(), JsonValue::Null);
    let written = write(&Value::Dict(object.clone()));
    assert!(written.data.as_deref().unwrap().starts_with("data:application/json;base64,"));
    match read(&written) {
        Value::Dict(back) => assert_eq!(back, object),
        other => panic!("expected an object, got {other:?}"),
    }
}

#[test]
fn plain_lists_and_objects_read_back() {
    let items = vec![
        JsonValue::from("naïve \"✓\"\n\u{1}"),
        JsonValue::from(i64::MIN),
        JsonValue::from(i64::MAX),
        JsonValue::from(u64::MAX),
        JsonValue::from(0),
        JsonValue::from(false),
        JsonValue::Null,
        JsonValue::from(vec![JsonValue::from(1), JsonValue::from(vec!["x"])]),
    ];
    match read(&write(&Value::List(items.clone()))) {
        Value::List(back) => assert_eq!(back, items),
        other => panic!("expected a list, got {other:?}"),
    }
    let mut object = serde_json::Map::new();
    for (i, item) in items.into_iter().enumerate() {
        object.insert(format!("k{i}"), item);
    }
    match read(&write(&Value::Dict(object.clone()))) {
        Value::Dict(back) => assert_eq!(back, object),
        other => panic!("expected an object, got {other:?}"),
    }
}

#[test]
fn malformed_payloads_are_refused() {
    let no_url = RemoteValue { data: None, dtype: Dtype::String };
    assert_eq!(failure(&no_url), "Remote value has no data URL");
    let not_text = finish_remote_value(&[0xff, 0xfe], "text/plain", Dtype::String);
    assert!(failure(&not_text).starts_with("UTF-8 decode error: "));
    let not_list = finish_remote_value(b"{}", "application/json", Dtype::List);
    assert!(matches!(parse_remote_value(&not_list), Err(PredictError::Json(_))));
    let not_object = finish_remote_value(b"[", "application/json", Dtype::Dict);
    assert!(matches!(parse_remote_value(&not_object), Err(PredictError::Json(_))));
    assert!(failure(&remote("ftp://x", Dtype::Binary)).starts_with("Unsupported value data URL"));
}

#[test]
fn native_values_go_to_the_runtime() {
    let cases = [
        (Dtype::Float32, "application/vnd.muna.tensor"),
        (Dtype::BFloat16, "application/vnd.muna.tensor"),
        (Dtype::Bool, "application/vnd.muna.tensor"),
        (Dtype::Image, "image/*"),
        (Dtype::ArrayList, "application/x-npz"),
        (Dtype::ImageList, "image/avif"),
    ];
    for (dtype, mime) in cases {
        match parse_remote_bytes(vec![1, 2], dtype) {
            Ok(ParsePlan::Native(bytes, m)) => {
                assert_eq!(bytes, vec![1, 2]);
                assert_eq!(m, mime);
            }
            other => panic!("expected native bytes, got {other:?}"),
        }
    }
    assert!(is_tensor_dtype(Dtype::Complex128));
    assert!(!is_tensor_dtype(Dtype::Image));
}

#[test]
fn scalars_are_written_as_tensors() {
    let cases = vec![
        (Value::Float(0.5f32.to_bits()), Dtype::Float32),
        (Value::Int(-3), Dtype::Int32),
        (Value::Long(1 << 40), Dtype::Int64),
        (Value::Bool(true), Dtype::Bool),
    ];
    for (value, dtype) in cases {
        match native_part(&value) {
            NativePart::Tensor(t) => {
                assert_eq!(t.data.dtype(), dtype);
                assert_eq!(t.data.len(), 1);
                assert!(t.shape.is_empty());
            }
            other => panic!("expected a tensor, got {other:?}"),
        }
        let remote = create_remote_value(&value, &Ok(vec![1, 2])).unwrap();
        assert_eq!(remote.dtype, dtype);
        assert_eq!(remote.data.as_deref(), Some("data:application/octet-stream;base64,AQI="));
    }
    let bits = 0.25f64.to_bits();
    let double = Value::Double(bits);
    assert!(matches!(native_part(&double), NativePart::Narrowed(b) if b == bits));
    assert_eq!(create_remote_value(&double, &Ok(vec![])).unwrap().dtype, Dtype::Float32);
}

#[test]
fn native_values_are_written_by_the_runtime() {
    let image = || Image { data: vec![0], width: 1, height: 1, channels: 1 };
    let tensor = || Tensor { data: TensorData::Int8(vec![1]), shape: vec![1] };
    let cases = vec![
        (Value::Tensor(tensor()), "application/octet-stream", Dtype::Int8),
        (Value::Image(image()), "image/png", Dtype::Image),
        (Value::ArrayList(vec![tensor()]), "application/x-npz", Dtype::ArrayList),
        (Value::ImageList(vec![image()]), "image/avif", Dtype::ImageList),
    ];
    for (value, mime, dtype) in cases {
        assert!(matches!(native_part(&value), NativePart::Itself));
        let remote = create_remote_value(&value, &Ok(vec![7])).unwrap();
        assert_eq!(remote.dtype, dtype);
        assert_eq!(remote.data.as_deref(), Some(format!("data:{mime};base64,Bw==").as_str()));
        // The runtime reads back the bytes that it wrote.
        match parse_remote_value(&remote) {
            Ok(ParsePlan::Native(bytes, _)) => assert_eq!(bytes, vec![7]),
            other => panic!("expected a native value, got {other:?}"),
        }
        let failed = create_remote_value(&value, &Err(PredictError::Native("no codec".into())));
        assert!(matches!(failed, Err(PredictError::Native(m)) if m == "no codec"));
    }
}

#[test]
fn accelerations_are_local() {
    let cpu = local_acceleration(&Some(Acceleration::RemoteCpu));
    assert!(matches!(cpu, Acceleration::LocalCpu));
    let named = local_acceleration(&Some(Acceleration::Adaptive("remote_cpu".into())));
    assert!(matches!(named, Acceleration::LocalCpu));
    let other = local_acceleration(&Some(Acceleration::Adaptive("remote_b200".into())));
    assert!(matches!(other, Acceleration::LocalGpu));
    assert!(matches!(local_acceleration(&Some(Acceleration::LocalCpu)), Acceleration::LocalGpu));
    assert!(matches!(local_acceleration(&None), Acceleration::LocalGpu));
}

#[test]
fn predictions_are_sent_with_remote_results() {
    let prediction = Prediction {
        id: "pred_1".into(),
        tag: "@a/x".into(),
        created: "7".into(),
        results: Some(vec![Value::Null, Value::Int(3)]),
        latency: Some(1.5f64.to_bits()),
        error: Some("e".into()),
        logs: Some("l".into()),
    };
    let remote = to_remote_prediction(&prediction, &vec![Ok(vec![]), Ok(vec![3])]).unwrap();
    assert_eq!((remote.id.as_str(), remote.tag.as_str()), ("pred_1", "@a/x"));
    assert_eq!(remote.created, "7");
    let results = remote.results.unwrap();
    assert_eq!(results.len(), 2);
    assert!(results[0].data.is_none());
    assert_eq!(results[1].data.as_deref(), Some("data:application/octet-stream;base64,Aw=="));
    assert_eq!(remote.latency, Some(1.5f64.to_bits()));
    assert_eq!((remote.error.as_deref(), remote.logs.as_deref()), (Some("e"), Some("l")));
    // A prediction without results stays without them.
    let empty = Prediction { results: None, ..prediction };
    assert!(to_remote_prediction(&empty, &vec![]).unwrap().results.is_none());
}

#[test]
fn the_first_result_that_cannot_be_written_fails_the_prediction() {
    let prediction = Prediction {
        id: "pred_1".into(),
        tag: "@a/x".into(),
        created: "7".into(),
        results: Some(vec![Value::Bool(true), Value::Long(1), Value::Int(2)]),
        latency: None,
        error: None,
        logs: None,
    };
    let written = vec![
        Ok(vec![1]),
        Err(PredictError::Native("first".into())),
        Err(PredictError::Native("second".into())),
    ];
    let failed = to_remote_prediction(&prediction, &written);
    assert!(matches!(failed, Err(PredictError::Native(m)) if m == "first"));
}

#[test]
fn failures_in_streams_are_predictions() {
    assert_eq!(create_prediction_id(0), "pred_0");
    assert_eq!(create_prediction_id(1_700_000_000_000_000_001), "pred_1700000000000000001");
    let remote = error_prediction("@a/x", "boom", 12, 34);
    assert_eq!(remote.id, "pred_12");
    assert_eq!(remote.created, "34");
    assert_eq!(remote.error.as_deref(), Some("boom"));
    assert!(remote.results.is_none() && remote.latency.is_none() && remote.logs.is_none());
}
