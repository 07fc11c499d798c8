//! Error envelopes and the parameters of the protocol surfaces.

use muna_server::handlers::error::{anthropic_error_type, commit_first, AppError};
use muna_server::handlers::openai::{
    models, parse_encoding_format, parse_size, EmbeddingsInput, EncodingFormat, ImageSize,
};
use muna_server::prediction::PredictError;
use muna_server::serving::batch::Signature;
use muna_server::serving::registry::{Loaded, ModelRegistry, RegistryError};

#[test]
fn errors_have_the_openai_shape() {
    let e = AppError::bad_request("no".into());
    assert_eq!((e.status, e.message.as_str()), (400, "no"));
    assert_eq!((e.kind.as_str(), e.retry_after), ("invalid_request_error", None));
    assert!(e.code.is_none());
    let e = AppError::unavailable("later".into(), 30);
    assert_eq!((e.status, e.kind.as_str(), e.retry_after), (503, "unavailable_error", Some(30)));
    let e = AppError::retry_later("later".into(), 5);
    assert_eq!((e.status, e.kind.as_str(), e.retry_after), (429, "rate_limit_error", Some(5)));
    let e = AppError::internal("oops".into());
    assert_eq!((e.status, e.kind.as_str(), e.retry_after), (500, "muna_error", None));
    let e = AppError::model_not_found("@a/x");
    assert_eq!(e.status, 404);
    assert_eq!(e.message, "model '@a/x' is not served by this deployment");
    assert_eq!(e.kind, "invalid_request_error");
    assert_eq!(e.code.as_deref(), Some("model_not_found"));
}

#[test]
fn prediction_errors_are_internal() {
    let errors = vec![
        PredictError::Api { message: "m".into(), status: 401 },
        PredictError::Http("m".into()),
        PredictError::Prediction("m".into()),
        PredictError::InvalidInput("m".into()),
        PredictError::Json("m".into()),
        PredictError::Native("m".into()),
    ];
    for error in &errors {
        let e = AppError::from_predict_error(error);
        assert_eq!((e.status, e.message.as_str(), e.kind.as_str()), (500, "m", "muna_error"));
    }
}

#[test]
fn registry_errors_are_told_apart() {
    let e = AppError::from_registry_error(&RegistryError::Loading { retry_after: 12 });
    assert_eq!((e.status, e.message.as_str(), e.retry_after), (429, "model is loading", Some(12)));
    let e = AppError::from_registry_error(&RegistryError::Failed("boom".into()));
    assert_eq!((e.status, e.message.as_str()), (500, "model failed to load: boom"));
    let e = AppError::from_registry_error(&RegistryError::NotServed("@a/x".into()));
    assert_eq!((e.status, e.code.as_deref()), (404, Some("model_not_found")));
}

#[test]
fn anthropic_error_types_follow_the_status() {
    let cases = [
        (400, "invalid_request_error"),
        (404, "not_found_error"),
        (429, "rate_limit_error"),
        (503, "overloaded_error"),
        (500, "api_error"),
        (418, "api_error"),
    ];
    for (status, kind) in cases {
        assert_eq!(anthropic_error_type(status), kind);
    }
}

#[test]
fn streams_commit_on_their_first_item() {
    assert_eq!(commit_first(Some(Ok(5))).unwrap(), 5);
    let failed: Option<Result<u8, PredictError>> =
        Some(Err(PredictError::Prediction("context length".into())));
    let e = commit_first(failed).unwrap_err();
    assert_eq!((e.status, e.message.as_str()), (500, "context length"));
    let e = commit_first::<u8>(None).unwrap_err();
    assert_eq!(e.message, "prediction stream ended before producing output");
}

#[test]
fn image_sizes_are_a_closed_vocabulary() {
    let cases = [
        ("256x256", ImageSize::Size256x256),
        ("512x512", ImageSize::Size512x512),
        ("1024x1024", ImageSize::Size1024x1024),
        ("1536x1024", ImageSize::Size1536x1024),
        ("1024x1536", ImageSize::Size1024x1536),
        ("1792x1024", ImageSize::Size1792x1024),
        ("1024x1792", ImageSize::Size1024x1792),
    ];
    for (text, size) in cases {
        assert_eq!(parse_size(Some(text)).unwrap(), Some(size));
    }
    assert_eq!(parse_size(None).unwrap(), None);
    assert_eq!(parse_size(Some("auto")).unwrap(), None);
    let e = parse_size(Some("10x10")).unwrap_err();
    assert_eq!((e.status, e.message.as_str()), (400, "unsupported size `10x10`"));
}

#[test]
fn encoding_formats_are_a_closed_vocabulary() {
    assert_eq!(parse_encoding_format(Some("float")).unwrap(), Some(EncodingFormat::Float));
    assert_eq!(parse_encoding_format(Some("base64")).unwrap(), Some(EncodingFormat::Base64));
    assert_eq!(parse_encoding_format(None).unwrap(), None);
    let e = parse_encoding_format(Some("hex")).unwrap_err();
    assert_eq!((e.status, e.message.as_str()), (400, "unsupported encoding_format `hex`"));
}

#[test]
fn embeddings_take_one_text_or_many() {
    assert_eq!(EmbeddingsInput::String("a".into()).into_vec(), vec!["a".to_string()]);
    let many = EmbeddingsInput::Strings(vec!["a".into(), "b".into()]).into_vec();
    assert_eq!(many, vec!["a".to_string(), "b".to_string()]);
}

#[test]
fn ready_models_are_listed_with_their_age() {
    const SECOND: u64 = 1_000_000_000;
    let mut registry = ModelRegistry::new(None);
    registry.warm("@a/x", 0);
    let outcome = Loaded {
        signature: Signature { inputs: vec![], outputs: vec![] },
        handle: 1,
        download: 0,
        load: 0,
    };
    registry.complete_load("@a/x", Ok(outcome), 0, 10 * SECOND, (None, None));
    registry.warm("@a/loading", 0);
    let listed = models(&registry, 25 * SECOND, 1_000);
    assert_eq!(listed.len(), 1);
    assert_eq!((listed[0].id.as_str(), listed[0].created), ("@a/x", 985));
    assert_eq!(models(&registry, 25 * SECOND, 3)[0].created, 0);
}
