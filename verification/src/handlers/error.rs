//! Error envelopes of the protocol surfaces.

use crate::prediction;
use crate::prediction::PredictError;
use crate::serving::registry::RegistryError;
use crate::text;
use crate::text::joined;
use vstd::prelude::*;

verus! {

/// An error answer: an HTTP status and the fields of the error envelope.
#[derive(Debug)]
pub struct AppError {
    pub status: u16,
    pub message: String,
    /// The `type` field of the envelope.
    pub kind: String,
    /// The `code` field of the envelope.
    pub code: Option<String>,
    /// Seconds for the `Retry-After` header.
    pub retry_after: Option<u64>,
}

#[verifier::ext_equal]
pub struct AppErrorView {
    pub status: u16,
    pub message: Seq<char>,
    pub kind: Seq<char>,
    pub code: Option<Seq<char>>,
    pub retry_after: Option<u64>,
}

impl View for AppError {
    type V = AppErrorView;

    open spec fn view(&self) -> AppErrorView {
        AppErrorView {
            status: self.status,
            message: self.message@,
            kind: self.kind@,
            code: text::text_option(self.code),
            retry_after: self.retry_after,
        }
    }
}

/// An error without code or retry time.
pub open spec fn plain_error(status: u16, message: Seq<char>, kind: Seq<char>) -> AppErrorView {
    AppErrorView { status, message, kind, code: None, retry_after: None }
}

/// The answer to a tag that is not served.
pub open spec fn not_found_error(model: Seq<char>) -> AppErrorView {
    AppErrorView {
        status: 404,
        message: "model '"@ + model + "' is not served by this deployment"@,
        kind: "invalid_request_error"@,
        code: Some("model_not_found"@),
        retry_after: None,
    }
}

/// The answer to a request that the draining node refuses.
pub open spec fn draining_error() -> AppErrorView {
    AppErrorView {
        retry_after: Some(30),
        ..plain_error(503, "node is draining"@, "unavailable_error"@)
    }
}

/// The answer to a failed prediction.
pub open spec fn predict_error(e: PredictError) -> AppErrorView {
    plain_error(500, prediction::error_message(e), "muna_error"@)
}

/// The answer to a stream that ended before any output.
pub open spec fn no_output_error() -> AppErrorView {
    plain_error(500, "prediction stream ended before producing output"@, "muna_error"@)
}

/// The answer to a model that is not available.
pub open spec fn registry_error(e: RegistryError) -> AppErrorView {
    match e {
        RegistryError::Loading { retry_after } => AppErrorView {
            retry_after: Some(retry_after),
            ..plain_error(429, "model is loading"@, "rate_limit_error"@)
        },
        RegistryError::Failed(error) => plain_error(
            500,
            "model failed to load: "@ + error@,
            "muna_error"@,
        ),
        RegistryError::NotServed(model) => not_found_error(model@),
    }
}

impl AppError {
    /// 400: the request is malformed.
    pub fn bad_request(message: String) -> (r: AppError)
        ensures
            r@ == plain_error(400, message@, "invalid_request_error"@),
    {
        AppError {
            status: 400,
            message,
            kind: "invalid_request_error".to_owned(),
            code: None,
            retry_after: None,
        }
    }

    /// 503: the node itself cannot serve.
    pub fn unavailable(message: String, retry_after: u64) -> (r: AppError)
        ensures
            r@ == (AppErrorView {
                retry_after: Some(retry_after),
                ..plain_error(503, message@, "unavailable_error"@)
            }),
    {
        AppError {
            status: 503,
            message,
            kind: "unavailable_error".to_owned(),
            code: None,
            retry_after: Some(retry_after),
        }
    }

    /// 429: the model exists but cannot serve yet.
    pub fn retry_later(message: String, retry_after: u64) -> (r: AppError)
        ensures
            r@ == (AppErrorView {
                retry_after: Some(retry_after),
                ..plain_error(429, message@, "rate_limit_error"@)
            }),
    {
        AppError {
            status: 429,
            message,
            kind: "rate_limit_error".to_owned(),
            code: None,
            retry_after: Some(retry_after),
        }
    }

    /// 404: the tag is not in the pinned model set.
    pub fn model_not_found(model: &str) -> (r: AppError)
        ensures
            r@ == not_found_error(model@),
    {
        let head: String = joined("model '", model);
        AppError {
            status: 404,
            message: joined(head.as_str(), "' is not served by this deployment"),
            kind: "invalid_request_error".to_owned(),
            code: Some("model_not_found".to_owned()),
            retry_after: None,
        }
    }

    /// 500: the server failed.
    pub fn internal(message: String) -> (r: AppError)
        ensures
            r@ == plain_error(500, message@, "muna_error"@),
    {
        AppError {
            status: 500,
            message,
            kind: "muna_error".to_owned(),
            code: None,
            retry_after: None,
        }
    }

    /// The answer to a request that the draining node refuses.
    pub fn draining() -> (r: AppError)
        ensures
            r@ == draining_error(),
    {
        AppError::unavailable("node is draining".to_owned(), 30)
    }

    /// The answer to a failed prediction.
    pub fn from_predict_error(e: &PredictError) -> (r: AppError)
        ensures
            r@ == predict_error(*e),
    {
        AppError::internal(e.message())
    }

    /// The answer to a model that is not available.
    pub fn from_registry_error(e: &RegistryError) -> (r: AppError)
        ensures
            r@ == registry_error(*e),
    {
        match e {
            RegistryError::Loading { retry_after } => AppError::retry_later(
                "model is loading".to_owned(),
                *retry_after,
            ),
            RegistryError::Failed(error) => AppError::internal(
                joined("model failed to load: ", error.as_str()),
            ),
            RegistryError::NotServed(model) => AppError::model_not_found(model.as_str()),
        }
    }
}

/// The error type of the Anthropic envelope for a status.
pub open spec fn anthropic_kind(status: u16) -> Seq<char> {
    if status == 400 {
        "invalid_request_error"@
    } else if status == 404 {
        "not_found_error"@
    } else if status == 429 {
        "rate_limit_error"@
    } else if status == 503 {
        "overloaded_error"@
    } else {
        "api_error"@
    }
}

/// The error type of the Anthropic envelope for a status.
pub fn anthropic_error_type(status: u16) -> (r: &'static str)
    ensures
        r@ == anthropic_kind(status),
{
    if status == 400 {
        "invalid_request_error"
    } else if status == 404 {
        "not_found_error"
    } else if status == 429 {
        "rate_limit_error"
    } else if status == 503 {
        "overloaded_error"
    } else {
        "api_error"
    }
}

/// How a streamed response starts, by the first item of the prediction stream:
/// a failure before any output is answered with an error status, and only what
/// comes after the first output stays in the stream.
pub fn commit_first<T>(first: Option<Result<T, PredictError>>) -> (r: Result<T, AppError>)
    ensures
        match first {
            Some(Ok(item)) => r == Ok::<T, AppError>(item),
            Some(Err(e)) => r matches Err(a) && a@ == predict_error(e),
            None => r matches Err(a) && a@ == no_output_error(),
        },
{
    match first {
        Some(Ok(item)) => Ok(item),
        Some(Err(e)) => Err(AppError::from_predict_error(&e)),
        None => Err(
            AppError::internal("prediction stream ended before producing output".to_owned()),
        ),
    }
}

/// A model that is loading is answered with 429 and the time after which to
/// retry, one that failed with 500, and one that is not served with 404 and a
/// code; only the first has a time to retry.
pub proof fn law_registry_error_statuses(e: RegistryError)
    ensures
        registry_error(e).status == (match e {
            RegistryError::Loading { .. } => 429u16,
            RegistryError::Failed(_) => 500u16,
            RegistryError::NotServed(_) => 404u16,
        }),
        registry_error(e).retry_after == (match e {
            RegistryError::Loading { retry_after } => Some(retry_after),
            _ => None,
        }),
        registry_error(e).code is Some <==> e is NotServed,
{
}

/// What a client is told of a model that is not available names the reason: that it
/// loads, how its load failed, or which model is not served.
pub proof fn law_registry_errors_tell_why(e: RegistryError)
    ensures
        match e {
            RegistryError::Loading { retry_after } => {
                &&& registry_error(e).message == "model is loading"@
                &&& registry_error(e).kind == "rate_limit_error"@
                &&& registry_error(e).retry_after == Some(retry_after)
            },
            RegistryError::Failed(error) => {
                &&& registry_error(e).message.skip(
                    registry_error(e).message.len() - error@.len(),
                ) == error@
                &&& registry_error(e).kind == "muna_error"@
                &&& registry_error(e).retry_after is None
            },
            RegistryError::NotServed(model) => {
                &&& registry_error(e).message == "model '"@ + model@
                    + "' is not served by this deployment"@
                &&& registry_error(e).kind == "invalid_request_error"@
                &&& registry_error(e).code == Some("model_not_found"@)
                &&& registry_error(e).retry_after is None
            },
        },
{
    if let RegistryError::Failed(error) = e {
        let m = registry_error(e).message;
        assert(m.skip(m.len() - error@.len()) =~= error@);
    }
}

/// An error without further fields has just its status, message and type.
pub proof fn law_plain_errors_are_plain(status: u16, message: Seq<char>, kind: Seq<char>)
    ensures
        plain_error(status, message, kind).status == status,
        plain_error(status, message, kind).message == message,
        plain_error(status, message, kind).kind == kind,
        plain_error(status, message, kind).code is None,
        plain_error(status, message, kind).retry_after is None,
{
}

/// The Anthropic types of the statuses that this server answers with stand for one
/// status each, and every other status is an error of the service.
pub proof fn law_anthropic_types_by_status(status: u16)
    ensures
        anthropic_kind(status) == "invalid_request_error"@ <==> status == 400,
        anthropic_kind(status) == "not_found_error"@ <==> status == 404,
        anthropic_kind(status) == "rate_limit_error"@ <==> status == 429,
        anthropic_kind(status) == "overloaded_error"@ <==> status == 503,
        anthropic_kind(status) == "api_error"@ <==> status != 400 && status != 404 && status != 429
            && status != 503,
{
    reveal_strlit("invalid_request_error");
    reveal_strlit("not_found_error");
    reveal_strlit("rate_limit_error");
    reveal_strlit("overloaded_error");
    reveal_strlit("api_error");
    assert("invalid_request_error"@.len() == 21);
    assert("not_found_error"@.len() == 15);
    assert("rate_limit_error"@.len() == 16);
    assert("overloaded_error"@.len() == 16);
    assert("api_error"@.len() == 9);
    assert("rate_limit_error"@[0] == 'r' && "overloaded_error"@[0] == 'o');
}

/// A draining node tells clients to come back in half a minute; a failed prediction is
/// answered with its message; and a stream without output is a failure too.
pub proof fn law_failures_have_their_status(e: PredictError)
    ensures
        draining_error().status == 503,
        draining_error().retry_after == Some(30u64),
        draining_error().kind == "unavailable_error"@,
        predict_error(e).status == 500,
        predict_error(e).message == prediction::error_message(e),
        predict_error(e).kind == "muna_error"@,
        predict_error(e).retry_after is None,
        no_output_error().status == 500,
        no_output_error().kind == "muna_error"@,
        no_output_error().retry_after is None,
{
}

} // verus!
