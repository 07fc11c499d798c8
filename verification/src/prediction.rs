//! Predictions, as predictors make them and as clients see them.

use crate::text;
use crate::value::{Dtype, Value, ValueView};
use vstd::prelude::*;

verus! {

/// Hardware that a prediction runs on.
#[derive(Debug)]
pub enum Acceleration {
    LocalAuto,
    LocalCpu,
    LocalGpu,
    LocalNpu,
    RemoteAuto,
    RemoteCpu,
    RemoteA10,
    RemoteL40S,
    RemoteA100,
    RemoteH200,
    RemoteB200,
    RemoteMI350X,
    RemoteMI355X,
    /// Any other identifier.
    Adaptive(String),
}

impl Clone for Acceleration {
    fn clone(&self) -> (r: Self)
        ensures
            r == *self,
    {
        match self {
            Acceleration::LocalAuto => Acceleration::LocalAuto,
            Acceleration::LocalCpu => Acceleration::LocalCpu,
            Acceleration::LocalGpu => Acceleration::LocalGpu,
            Acceleration::LocalNpu => Acceleration::LocalNpu,
            Acceleration::RemoteAuto => Acceleration::RemoteAuto,
            Acceleration::RemoteCpu => Acceleration::RemoteCpu,
            Acceleration::RemoteA10 => Acceleration::RemoteA10,
            Acceleration::RemoteL40S => Acceleration::RemoteL40S,
            Acceleration::RemoteA100 => Acceleration::RemoteA100,
            Acceleration::RemoteH200 => Acceleration::RemoteH200,
            Acceleration::RemoteB200 => Acceleration::RemoteB200,
            Acceleration::RemoteMI350X => Acceleration::RemoteMI350X,
            Acceleration::RemoteMI355X => Acceleration::RemoteMI355X,
            Acceleration::Adaptive(s) => Acceleration::Adaptive(s.clone()),
        }
    }
}

/// Why a prediction failed.
#[derive(Debug)]
pub enum PredictError {
    /// The prediction service answered with an error status.
    Api { message: String, status: u16 },
    /// The transport failed.
    Http(String),
    /// The prediction itself failed.
    Prediction(String),
    /// The caller's input was malformed.
    InvalidInput(String),
    /// JSON could not be read or written.
    Json(String),
    /// The native runtime failed.
    Native(String),
}

/// The message of a prediction error.
pub open spec fn error_message(e: PredictError) -> Seq<char> {
    match e {
        PredictError::Api { message, .. } => message@,
        PredictError::Http(m) => m@,
        PredictError::Prediction(m) => m@,
        PredictError::InvalidInput(m) => m@,
        PredictError::Json(m) => m@,
        PredictError::Native(m) => m@,
    }
}

impl Clone for PredictError {
    fn clone(&self) -> (r: Self)
        ensures
            r == *self,
    {
        match self {
            PredictError::Api { message, status } => PredictError::Api {
                message: message.clone(),
                status: *status,
            },
            PredictError::Http(m) => PredictError::Http(m.clone()),
            PredictError::Prediction(m) => PredictError::Prediction(m.clone()),
            PredictError::InvalidInput(m) => PredictError::InvalidInput(m.clone()),
            PredictError::Json(m) => PredictError::Json(m.clone()),
            PredictError::Native(m) => PredictError::Native(m.clone()),
        }
    }
}

impl PredictError {
    /// The message of the error.
    pub fn message(&self) -> (r: String)
        ensures
            r@ == error_message(*self),
    {
        match self {
            PredictError::Api { message, .. } => message.clone(),
            PredictError::Http(m) => m.clone(),
            PredictError::Prediction(m) => m.clone(),
            PredictError::InvalidInput(m) => m.clone(),
            PredictError::Json(m) => m.clone(),
            PredictError::Native(m) => m.clone(),
        }
    }
}

/// Prediction that a predictor made.
#[derive(Debug)]
pub struct Prediction {
    pub id: String,
    pub tag: String,
    pub created: String,
    pub results: Option<Vec<Value>>,
    /// Milliseconds, as the bits of a double-precision number.
    pub latency: Option<u64>,
    pub error: Option<String>,
    pub logs: Option<String>,
}

#[verifier::ext_equal]
pub struct PredictionView {
    pub id: Seq<char>,
    pub tag: Seq<char>,
    pub created: Seq<char>,
    pub results: Option<Seq<ValueView>>,
    pub latency: Option<u64>,
    pub error: Option<Seq<char>>,
    pub logs: Option<Seq<char>>,
}

impl View for Prediction {
    type V = PredictionView;

    open spec fn view(&self) -> PredictionView {
        PredictionView {
            id: self.id@,
            tag: self.tag@,
            created: self.created@,
            results: match self.results {
                Some(values) => Some(values@.map_values(|v: Value| v@)),
                None => None,
            },
            latency: self.latency,
            error: text::text_option(self.error),
            logs: text::text_option(self.logs),
        }
    }
}

/// Copies an optional text.
pub fn copy_text(o: &Option<String>) -> (r: Option<String>)
    ensures
        r == *o,
{
    match o {
        Some(s) => Some(s.clone()),
        None => None,
    }
}

impl Prediction {
    /// The same prediction with other results.
    pub fn with_results(&self, results: Vec<Value>) -> (r: Prediction)
        ensures
            r@ == (PredictionView {
                results: Some(results@.map_values(|v: Value| v@)),
                ..self@
            }),
    {
        Prediction {
            id: self.id.clone(),
            tag: self.tag.clone(),
            created: self.created.clone(),
            results: Some(results),
            latency: self.latency,
            error: copy_text(&self.error),
            logs: copy_text(&self.logs),
        }
    }
}

/// Value as clients see it: a data URL and a data type.
#[derive(Debug)]
pub struct RemoteValue {
    pub data: Option<String>,
    pub dtype: Dtype,
}

/// Prediction as clients see it.
#[derive(Debug)]
pub struct RemotePrediction {
    pub id: String,
    pub tag: String,
    pub created: String,
    pub results: Option<Vec<RemoteValue>>,
    /// Milliseconds, as the bits of a double-precision number.
    pub latency: Option<u64>,
    pub error: Option<String>,
    pub logs: Option<String>,
}

/// The message of an error is the text that it was made with, whatever its kind and its
/// status: errors of the same text have the same message.
pub proof fn law_messages_are_kept(text: String, status: u16)
    ensures
        error_message(PredictError::Api { message: text, status }) == text@,
        error_message(PredictError::Http(text)) == text@,
        error_message(PredictError::Prediction(text)) == text@,
        error_message(PredictError::InvalidInput(text)) == text@,
        error_message(PredictError::Json(text)) == text@,
        error_message(PredictError::Native(text)) == text@,
{
}

/// What is seen of a prediction is what it holds: every field under its own name, and its
/// results one by one.
pub proof fn law_predictions_are_seen_whole(p: Prediction)
    ensures
        p@.id == p.id@,
        p@.tag == p.tag@,
        p@.created == p.created@,
        p@.latency == p.latency,
        p@.error is Some <==> p.error is Some,
        p.error matches Some(e) ==> p@.error == Some(e@),
        p@.logs is Some <==> p.logs is Some,
        p.logs matches Some(l) ==> p@.logs == Some(l@),
        p@.results is Some <==> p.results is Some,
        p.results matches Some(values) ==> p@.results->0.len() == values@.len() && forall|i: int|
            0 <= i < values@.len() ==> #[trigger] p@.results->0[i] == values@[i]@,
{
}

} // verus!
