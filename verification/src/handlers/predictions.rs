//! Muna-native predictions: acceleration, and values as data URLs.
//!
//! Tensors and images are read and written by the native runtime; for these the
//! functions here say what it has to do, and take its bytes from there.

use crate::codec;
use crate::codec::{decode_data_url, encode_data_url, utf8_decode};
use crate::json;
use crate::json::{
    json_list_from_str, json_list_to_string, json_object_from_str, json_object_to_string,
};
use crate::prediction::{
    copy_text, Acceleration, PredictError, Prediction, RemotePrediction, RemoteValue,
};
use crate::text;
use crate::text::{decimal_text, joined, same_text};
use crate::value;
use crate::value::{Dtype, Tensor, TensorData, TensorDataView, TensorView, Value, ValueView};
use vstd::prelude::*;
use vstd::utf8::*;

verus! {

/// Whether a requested acceleration is that of the CPU.
pub open spec fn wants_cpu(acceleration: Option<Acceleration>) -> bool {
    match acceleration {
        Some(Acceleration::RemoteCpu) => true,
        Some(Acceleration::Adaptive(s)) => s@ == "remote_cpu"@,
        _ => false,
    }
}

/// The local acceleration of a requested one.
pub open spec fn local_of(acceleration: Option<Acceleration>) -> Acceleration {
    if wants_cpu(acceleration) {
        Acceleration::LocalCpu
    } else {
        Acceleration::LocalGpu
    }
}

/// Maps a requested acceleration onto a local one: the remote CPU is the local
/// CPU, everything else the local GPU.
pub fn local_acceleration(acceleration: &Option<Acceleration>) -> (r: Acceleration)
    ensures
        r == local_of(*acceleration),
{
    match acceleration {
        Some(Acceleration::RemoteCpu) => Acceleration::LocalCpu,
        Some(Acceleration::Adaptive(s)) => {
            if same_text(s.as_str(), "remote_cpu") {
                Acceleration::LocalCpu
            } else {
                Acceleration::LocalGpu
            }
        },
        _ => Acceleration::LocalGpu,
    }
}

/// Whether the native tensor format carries a data type.
pub open spec fn is_tensor(dtype: Dtype) -> bool {
    match dtype {
        Dtype::Null => false,
        Dtype::String => false,
        Dtype::List => false,
        Dtype::Dict => false,
        Dtype::Image => false,
        Dtype::Binary => false,
        Dtype::ImageList => false,
        Dtype::ArrayList => false,
        _ => true,
    }
}

/// Whether the native tensor format carries a data type.
pub fn is_tensor_dtype(dtype: Dtype) -> (r: bool)
    ensures
        r == is_tensor(dtype),
{
    match dtype {
        Dtype::BFloat16 => true,
        Dtype::Float16 => true,
        Dtype::Float32 => true,
        Dtype::Float64 => true,
        Dtype::Int8 => true,
        Dtype::Int16 => true,
        Dtype::Int32 => true,
        Dtype::Int64 => true,
        Dtype::Uint8 => true,
        Dtype::Uint16 => true,
        Dtype::Uint32 => true,
        Dtype::Uint64 => true,
        Dtype::Complex64 => true,
        Dtype::Complex128 => true,
        Dtype::Bool => true,
        _ => false,
    }
}

#[verifier::ext_equal]
pub struct RemoteValueView {
    pub data: Option<Seq<char>>,
    pub dtype: Dtype,
}

/// A remote value, seen as characters.
pub open spec fn remote_view(remote: RemoteValue) -> RemoteValueView {
    RemoteValueView { data: text::text_option(remote.data), dtype: remote.dtype }
}

/// How a remote value becomes a native one.
#[derive(Debug)]
pub enum ParsePlan {
    /// It is this value.
    Value(Value),
    /// The native runtime reads it from bytes of a media type.
    Native(Vec<u8>, &'static str),
}

#[verifier::ext_equal]
pub enum ParsePlanView {
    Value(ValueView),
    Native(Seq<u8>, Seq<char>),
}

impl View for ParsePlan {
    type V = ParsePlanView;

    open spec fn view(&self) -> ParsePlanView {
        match self {
            ParsePlan::Value(value) => ParsePlanView::Value(value@),
            ParsePlan::Native(bytes, mime) => ParsePlanView::Native(bytes@, mime@),
        }
    }
}

/// Why a remote value cannot be read.
pub enum ParseFailure {
    Prediction(Seq<char>),
    Json(Seq<char>),
}

/// Whether an error is a failure to read a remote value.
pub open spec fn is_failure(e: PredictError, failure: ParseFailure) -> bool {
    match failure {
        ParseFailure::Prediction(m) => e matches PredictError::Prediction(text) && text@ == m,
        ParseFailure::Json(m) => e matches PredictError::Json(text) && text@ == m,
    }
}

/// The media type in which the native runtime reads a data type, if it does.
pub open spec fn native_mime(dtype: Dtype) -> Option<Seq<char>> {
    if is_tensor(dtype) {
        Some("application/vnd.muna.tensor"@)
    } else {
        match dtype {
            Dtype::Image => Some("image/*"@),
            Dtype::ArrayList => Some("application/x-npz"@),
            Dtype::ImageList => Some("image/avif"@),
            _ => None,
        }
    }
}

/// What a JSON text reads as where it is that of a list.
pub open spec fn read_list(text: Seq<char>) -> Result<ParsePlanView, ParseFailure> {
    match json::json_list_of(text) {
        Ok(items) => Ok(ParsePlanView::Value(ValueView::List(items))),
        Err(e) => Err(ParseFailure::Json(e)),
    }
}

/// What a JSON text reads as where it is that of an object.
pub open spec fn read_object(text: Seq<char>) -> Result<ParsePlanView, ParseFailure> {
    match json::json_object_of(text) {
        Ok(object) => Ok(ParsePlanView::Value(ValueView::Dict(object))),
        Err(e) => Err(ParseFailure::Json(e)),
    }
}

/// What the bytes of a remote value are, by its data type.
pub open spec fn parsed_bytes(bytes: Seq<u8>, dtype: Dtype) -> Result<ParsePlanView, ParseFailure> {
    match native_mime(dtype) {
        Some(mime) => Ok(ParsePlanView::Native(bytes, mime)),
        None => match dtype {
            Dtype::Null => Ok(ParsePlanView::Value(ValueView::Null)),
            Dtype::Binary => Ok(ParsePlanView::Value(ValueView::Binary(bytes))),
            _ => match codec::utf8_text(bytes) {
                Err(e) => Err(ParseFailure::Prediction("UTF-8 decode error: "@ + e)),
                Ok(s) => match dtype {
                    Dtype::List => read_list(s),
                    Dtype::Dict => read_object(s),
                    _ => Ok(ParsePlanView::Value(ValueView::String(s))),
                },
            },
        },
    }
}

/// What a remote value is.
pub open spec fn parsed(remote: RemoteValueView) -> Result<ParsePlanView, ParseFailure> {
    if remote.dtype == Dtype::Null {
        Ok(ParsePlanView::Value(ValueView::Null))
    } else {
        match remote.data {
            None => Err(ParseFailure::Prediction("Remote value has no data URL"@)),
            Some(url) => match codec::url_bytes(url) {
                Err(e) => Err(ParseFailure::Prediction(e)),
                Ok(bytes) => parsed_bytes(bytes, remote.dtype),
            },
        }
    }
}

/// Whether a result is what it should be.
pub open spec fn is_parsed(
    r: Result<ParsePlan, PredictError>,
    goal: Result<ParsePlanView, ParseFailure>,
) -> bool {
    match goal {
        Ok(plan) => r matches Ok(p) && p@ == plan,
        Err(failure) => r matches Err(e) && is_failure(e, failure),
    }
}

/// Reads the bytes of a remote value by its data type.
pub fn parse_remote_bytes(buffer: Vec<u8>, dtype: Dtype) -> (r: Result<ParsePlan, PredictError>)
    ensures
        is_parsed(r, parsed_bytes(buffer@, dtype)),
{
    if is_tensor_dtype(dtype) {
        return Ok(ParsePlan::Native(buffer, "application/vnd.muna.tensor"));
    }
    match dtype {
        Dtype::Null => Ok(ParsePlan::Value(Value::Null)),
        Dtype::Image => Ok(ParsePlan::Native(buffer, "image/*")),
        Dtype::ArrayList => Ok(ParsePlan::Native(buffer, "application/x-npz")),
        Dtype::ImageList => Ok(ParsePlan::Native(buffer, "image/avif")),
        Dtype::Binary => Ok(ParsePlan::Value(Value::Binary(buffer))),
        _ => match utf8_decode(buffer) {
            Err(e) => Err(PredictError::Prediction(joined("UTF-8 decode error: ", e.as_str()))),
            Ok(s) => match dtype {
                Dtype::List => match json_list_from_str(s.as_str()) {
                    Ok(items) => Ok(ParsePlan::Value(Value::List(items))),
                    Err(e) => Err(PredictError::Json(e)),
                },
                Dtype::Dict => match json_object_from_str(s.as_str()) {
                    Ok(object) => Ok(ParsePlan::Value(Value::Dict(object))),
                    Err(e) => Err(PredictError::Json(e)),
                },
                _ => Ok(ParsePlan::Value(Value::String(s))),
            },
        },
    }
}

/// Reads a remote value, as far as it can be read without the native runtime.
pub fn parse_remote_value(remote: &RemoteValue) -> (r: Result<ParsePlan, PredictError>)
    ensures
        is_parsed(r, parsed(remote_view(*remote))),
{
    if remote.dtype == Dtype::Null {
        return Ok(ParsePlan::Value(Value::Null));
    }
    match &remote.data {
        None => Err(PredictError::Prediction("Remote value has no data URL".to_owned())),
        Some(url) => match decode_data_url(url.as_str()) {
            Err(e) => Err(PredictError::Prediction(e)),
            Ok(buffer) => parse_remote_bytes(buffer, remote.dtype),
        },
    }
}

/// What the native runtime has to write for a value to become a remote one.
#[derive(Debug)]
pub enum NativePart {
    /// Nothing: the value is written without it.
    Nothing,
    /// The value itself.
    Itself,
    /// A tensor that stands for the value.
    Tensor(Tensor),
    /// The single-precision number nearest to a double-precision one, given as
    /// bits, as a tensor without dimensions.
    Narrowed(u64),
}

/// A scalar as a tensor without dimensions.
pub open spec fn scalar_tensor(dtype: Dtype, item: int) -> TensorView {
    TensorView {
        data: TensorDataView { dtype, items: seq![(item, 0int)] },
        shape: Seq::empty(),
    }
}

/// Whether a part is a scalar as a tensor.
pub open spec fn is_scalar(part: NativePart, dtype: Dtype, item: int) -> bool {
    part matches NativePart::Tensor(t) && t@ == scalar_tensor(dtype, item)
}

/// Whether a part is what the native runtime has to write for a value.
pub open spec fn is_native_part(part: NativePart, value: ValueView) -> bool {
    match value {
        ValueView::Float(bits) => is_scalar(part, Dtype::Float32, bits as int),
        ValueView::Double(bits) => part == NativePart::Narrowed(bits),
        ValueView::Int(i) => is_scalar(part, Dtype::Int32, i as int),
        ValueView::Long(l) => is_scalar(part, Dtype::Int64, l as int),
        ValueView::Bool(b) => is_scalar(part, Dtype::Bool, if b { 1 } else { 0 }),
        ValueView::Tensor(_) => part is Itself,
        ValueView::Image(_) => part is Itself,
        ValueView::ArrayList(_) => part is Itself,
        ValueView::ImageList(_) => part is Itself,
        _ => part is Nothing,
    }
}

fn scalar(data: TensorData) -> (r: NativePart)
    ensures
        r matches NativePart::Tensor(t) && t.data == data && t.shape@ == Seq::<i32>::empty(),
{
    NativePart::Tensor(Tensor { data, shape: Vec::new() })
}

/// What the native runtime has to write for a value to become a remote one.
pub fn native_part(value: &Value) -> (r: NativePart)
    ensures
        is_native_part(r, value@),
{
    match value {
        Value::Float(bits) => {
            let data = TensorData::Float32(vec![*bits]);
            assert(data@.items =~= seq![(*bits as int, 0int)]);
            scalar(data)
        },
        Value::Double(bits) => NativePart::Narrowed(*bits),
        Value::Int(i) => {
            let data = TensorData::Int32(vec![*i]);
            assert(data@.items =~= seq![(*i as int, 0int)]);
            scalar(data)
        },
        Value::Long(l) => {
            let data = TensorData::Int64(vec![*l]);
            assert(data@.items =~= seq![(*l as int, 0int)]);
            scalar(data)
        },
        Value::Bool(b) => {
            let data = TensorData::Bool(vec![*b]);
            assert(data@.items =~= seq![(if *b { 1int } else { 0int }, 0int)]);
            scalar(data)
        },
        Value::Tensor(_) => NativePart::Itself,
        Value::Image(_) => NativePart::Itself,
        Value::ArrayList(_) => NativePart::Itself,
        Value::ImageList(_) => NativePart::Itself,
        _ => NativePart::Nothing,
    }
}

/// A remote value with a payload.
pub open spec fn remote_with(bytes: Seq<u8>, mime: Seq<char>, dtype: Dtype) -> RemoteValueView {
    RemoteValueView {
        data: Some(codec::data_url(mime, codec::base64_text(bytes))),
        dtype,
    }
}

/// The media type and the data type of a value that the native runtime writes.
pub open spec fn written_as(value: ValueView) -> Option<(Seq<char>, Dtype)> {
    match value {
        ValueView::Float(_) => Some(("application/octet-stream"@, Dtype::Float32)),
        ValueView::Double(_) => Some(("application/octet-stream"@, Dtype::Float32)),
        ValueView::Int(_) => Some(("application/octet-stream"@, Dtype::Int32)),
        ValueView::Long(_) => Some(("application/octet-stream"@, Dtype::Int64)),
        ValueView::Bool(_) => Some(("application/octet-stream"@, Dtype::Bool)),
        ValueView::Tensor(tensor) => Some(("application/octet-stream"@, tensor.data.dtype)),
        ValueView::Image(_) => Some(("image/png"@, Dtype::Image)),
        ValueView::ArrayList(_) => Some(("application/x-npz"@, Dtype::ArrayList)),
        ValueView::ImageList(_) => Some(("image/avif"@, Dtype::ImageList)),
        _ => None,
    }
}

/// The JSON text of a value that is written as such, or why there is none.
pub open spec fn json_text(value: ValueView) -> Option<Result<Seq<char>, Seq<char>>> {
    match value {
        ValueView::List(items) => Some(json::json_list_text(items)),
        ValueView::Dict(object) => Some(json::json_object_text(object)),
        _ => None,
    }
}

/// The remote value of a value that can be written, given the bytes that the
/// native runtime wrote for it, if it has to.
pub open spec fn remote_of(value: ValueView, written: Seq<u8>) -> RemoteValueView {
    match written_as(value) {
        Some((mime, dtype)) => remote_with(written, mime, dtype),
        None => match value {
            ValueView::String(s) => remote_with(encode_utf8(s), "text/plain"@, Dtype::String),
            ValueView::List(items) => remote_with(
                encode_utf8(json::json_list_text(items)->Ok_0),
                "application/json"@,
                Dtype::List,
            ),
            ValueView::Dict(object) => remote_with(
                encode_utf8(json::json_object_text(object)->Ok_0),
                "application/json"@,
                Dtype::Dict,
            ),
            ValueView::Binary(bytes) => remote_with(
                bytes,
                "application/octet-stream"@,
                Dtype::Binary,
            ),
            _ => RemoteValueView { data: None, dtype: Dtype::Null },
        },
    }
}

/// Whether a value can be written, given what the native runtime came to.
pub open spec fn is_writable(value: ValueView, written: Result<Vec<u8>, PredictError>) -> bool {
    &&& written_as(value) is Some ==> written is Ok
    &&& json_text(value) matches Some(text) ==> text is Ok
}

/// Whether an error is why a value cannot be written.
pub open spec fn is_write_error(
    e: PredictError,
    value: ValueView,
    written: Result<Vec<u8>, PredictError>,
) -> bool {
    if written_as(value) is Some {
        written == Err::<Vec<u8>, PredictError>(e)
    } else {
        json_text(value) matches Some(Err(m)) && e matches PredictError::Json(text) && text@ == m
    }
}

/// The bytes that the native runtime wrote, if it did.
pub open spec fn written_bytes(written: Result<Vec<u8>, PredictError>) -> Seq<u8> {
    match written {
        Ok(bytes) => bytes@,
        Err(_) => Seq::empty(),
    }
}

/// Whether a value is written without the native runtime and reads back as it
/// was: null, texts, bytes, and lists and objects of plain values.
pub open spec fn is_restored(value: ValueView) -> bool {
    match value {
        ValueView::Null => true,
        ValueView::String(_) => true,
        ValueView::Binary(_) => true,
        ValueView::List(items) => json::is_plain_list(items),
        ValueView::Dict(object) => json::is_plain_object(object),
        _ => false,
    }
}

/// What a remote value reads back as: the runtime gets the bytes that it wrote,
/// a list or an object is what its text reads as, and a value that is restored
/// is the value again.
pub open spec fn reads_back(remote: RemoteValueView, value: ValueView, written: Seq<u8>) -> bool {
    &&& written_as(value) is Some ==> parsed(remote) == Ok::<ParsePlanView, ParseFailure>(
        ParsePlanView::Native(written, native_mime(remote.dtype)->0),
    )
    &&& value matches ValueView::List(items) ==> parsed(remote) == read_list(
        json::json_list_text(items)->Ok_0,
    )
    &&& value matches ValueView::Dict(object) ==> parsed(remote) == read_object(
        json::json_object_text(object)->Ok_0,
    )
    &&& is_restored(value) ==> parsed(remote) == Ok::<ParsePlanView, ParseFailure>(
        ParsePlanView::Value(value),
    )
}

/// A remote value whose payload is given bytes.
pub fn finish_remote_value(buffer: &[u8], mime: &str, dtype: Dtype) -> (r: RemoteValue)
    ensures
        remote_view(r) == remote_with(buffer@, mime@, dtype),
        !mime@.contains(';') && dtype != Dtype::Null ==> parsed(remote_view(r)) == parsed_bytes(
            buffer@,
            dtype,
        ),
{
    RemoteValue { data: Some(encode_data_url(buffer, mime)), dtype }
}

fn finish_native(
    written: &Result<Vec<u8>, PredictError>,
    mime: &str,
    dtype: Dtype,
) -> (r: Result<RemoteValue, PredictError>)
    requires
        !mime@.contains(';'),
        native_mime(dtype) is Some,
    ensures
        match *written {
            Ok(bytes) => r matches Ok(remote) && remote_view(remote) == remote_with(
                bytes@,
                mime@,
                dtype,
            ) && parsed(remote_view(remote)) == Ok::<ParsePlanView, ParseFailure>(
                ParsePlanView::Native(bytes@, native_mime(dtype)->0),
            ),
            Err(e) => r == Err::<RemoteValue, PredictError>(e),
        },
{
    match written {
        Ok(bytes) => Ok(finish_remote_value(bytes.as_slice(), mime, dtype)),
        Err(e) => Err(e.clone()),
    }
}

/// Writes a value as a remote one. The native runtime has tried to write the
/// value's native part, where it has one. A value that is restored can always be
/// written.
pub fn create_remote_value(value: &Value, written: &Result<Vec<u8>, PredictError>) -> (r: Result<
    RemoteValue,
    PredictError,
>)
    ensures
        match r {
            Ok(remote) => {
                &&& is_writable(value@, *written)
                &&& remote_view(remote) == remote_of(value@, written_bytes(*written))
                &&& reads_back(remote_view(remote), value@, written_bytes(*written))
            },
            Err(e) => !is_writable(value@, *written) && is_write_error(e, value@, *written),
        },
        is_restored(value@) ==> r is Ok,
{
    proof {
        reveal_strlit("text/plain");
        reveal_strlit("application/json");
        reveal_strlit("application/octet-stream");
        reveal_strlit("image/png");
        reveal_strlit("application/x-npz");
        reveal_strlit("image/avif");
    }
    match value {
        Value::Null => Ok(RemoteValue { data: None, dtype: Dtype::Null }),
        Value::Float(_) => finish_native(written, "application/octet-stream", Dtype::Float32),
        Value::Double(_) => finish_native(written, "application/octet-stream", Dtype::Float32),
        Value::Int(_) => finish_native(written, "application/octet-stream", Dtype::Int32),
        Value::Long(_) => finish_native(written, "application/octet-stream", Dtype::Int64),
        Value::Bool(_) => finish_native(written, "application/octet-stream", Dtype::Bool),
        Value::Tensor(tensor) => finish_native(
            written,
            "application/octet-stream",
            tensor.data.dtype(),
        ),
        Value::String(s) => {
            proof {
                encode_utf8_valid_utf8(s@);
                encode_utf8_decode_utf8(s@);
            }
            Ok(finish_remote_value(s.as_str().as_bytes(), "text/plain", Dtype::String))
        },
        Value::List(items) => match json_list_to_string(items) {
            Ok(json) => {
                proof {
                    encode_utf8_valid_utf8(json@);
                    encode_utf8_decode_utf8(json@);
                }
                Ok(finish_remote_value(json.as_str().as_bytes(), "application/json", Dtype::List))
            },
            Err(e) => Err(PredictError::Json(e)),
        },
        Value::Dict(object) => match json_object_to_string(object) {
            Ok(json) => {
                proof {
                    encode_utf8_valid_utf8(json@);
                    encode_utf8_decode_utf8(json@);
                }
                Ok(finish_remote_value(json.as_str().as_bytes(), "application/json", Dtype::Dict))
            },
            Err(e) => Err(PredictError::Json(e)),
        },
        Value::Image(_) => finish_native(written, "image/png", Dtype::Image),
        Value::ArrayList(_) => finish_native(written, "application/x-npz", Dtype::ArrayList),
        Value::ImageList(_) => finish_native(written, "image/avif", Dtype::ImageList),
        Value::Binary(bytes) => Ok(
            finish_remote_value(bytes.as_slice(), "application/octet-stream", Dtype::Binary),
        ),
    }
}

/// A value that is restored comes back: reading the remote value that was written
/// of it gives the value itself.
pub proof fn law_restored_values_round_trip(
    value: ValueView,
    written: Seq<u8>,
    remote: RemoteValue,
    read: Result<ParsePlan, PredictError>,
)
    requires
        is_restored(value),
        reads_back(remote_view(remote), value, written),
        is_parsed(read, parsed(remote_view(remote))),
    ensures
        read matches Ok(plan) && plan@ == ParsePlanView::Value(value),
{
}

/// Whether remote values are those of values, in order.
pub open spec fn are_remote(
    remotes: Seq<RemoteValue>,
    values: Seq<Value>,
    written: Seq<Result<Vec<u8>, PredictError>>,
) -> bool {
    &&& remotes.len() == values.len()
    &&& forall|i: int|
        0 <= i < values.len() ==> {
            &&& is_writable(values[i]@, written[i])
            &&& remote_view(#[trigger] remotes[i]) == remote_of(
                values[i]@,
                written_bytes(written[i]),
            )
        }
}

/// Whether a prediction is another as clients see it.
pub open spec fn is_remote_prediction(
    remote: RemotePrediction,
    prediction: Prediction,
    written: Seq<Result<Vec<u8>, PredictError>>,
) -> bool {
    &&& remote.id == prediction.id
    &&& remote.tag == prediction.tag
    &&& remote.created == prediction.created
    &&& remote.latency == prediction.latency
    &&& remote.error == prediction.error
    &&& remote.logs == prediction.logs
    &&& match prediction.results {
        Some(values) => remote.results matches Some(remotes) && are_remote(
            remotes@,
            values@,
            written,
        ),
        None => remote.results is None,
    }
}

/// Whether an error is that of the first value that cannot be written.
pub open spec fn is_first_error(
    e: PredictError,
    values: Seq<Value>,
    written: Seq<Result<Vec<u8>, PredictError>>,
) -> bool {
    exists|k: int|
        {
            &&& 0 <= k < values.len()
            &&& is_write_error(e, (#[trigger] values[k])@, written[k])
            &&& !is_writable(values[k]@, written[k])
            &&& forall|j: int| 0 <= j < k ==> is_writable((#[trigger] values[j])@, written[j])
        }
}

/// A prediction as clients see it. The native runtime has tried to write the
/// native part of each result that has one; the first result that cannot be
/// written fails the prediction.
pub fn to_remote_prediction(
    prediction: &Prediction,
    written: &Vec<Result<Vec<u8>, PredictError>>,
) -> (r: Result<RemotePrediction, PredictError>)
    requires
        prediction.results matches Some(values) ==> written@.len() == values@.len(),
    ensures
        match r {
            Ok(remote) => is_remote_prediction(remote, *prediction, written@),
            Err(e) => prediction.results matches Some(values) && is_first_error(
                e,
                values@,
                written@,
            ),
        },
{
    let results: Option<Vec<RemoteValue>> = match &prediction.results {
        Some(values) => {
            let mut remotes: Vec<RemoteValue> = Vec::new();
            let mut i: usize = 0;
            while i < values.len()
                invariant
                    i <= values@.len(),
                    written@.len() == values@.len(),
                    prediction.results == Some(*values),
                    are_remote(remotes@, values@.take(i as int), written@),
                decreases values.len() - i,
            {
                match create_remote_value(&values[i], &written[i]) {
                    Ok(remote) => {
                        remotes.push(remote);
                        assert(values@.take(i as int + 1) =~= values@.take(i as int).push(
                            values@[i as int],
                        ));
                    },
                    Err(e) => {
                        proof {
                            assert(is_write_error(e, values@[i as int]@, written@[i as int]));
                            assert forall|j: int| 0 <= j < i implies is_writable(
                                (#[trigger] values@[j])@,
                                written@[j],
                            ) by {
                                assert(values@.take(i as int)[j] == values@[j]);
                                assert(remote_view(remotes@[j]) == remote_of(
                                    values@[j]@,
                                    written_bytes(written@[j]),
                                ));
                            }
                        }
                        return Err(e);
                    },
                }
                i = i + 1;
            }
            assert(values@.take(i as int) =~= values@);
            Some(remotes)
        },
        None => None,
    };
    Ok(
        RemotePrediction {
            id: prediction.id.clone(),
            tag: prediction.tag.clone(),
            created: prediction.created.clone(),
            results,
            latency: prediction.latency,
            error: copy_text(&prediction.error),
            logs: copy_text(&prediction.logs),
        },
    )
}

/// The identifier of a prediction made at a time, in nanoseconds.
pub fn create_prediction_id(nanos: u128) -> (r: String)
    ensures
        r@ == "pred_"@ + text::decimal(nanos as nat),
{
    joined("pred_", decimal_text(nanos).as_str())
}

/// Whether a prediction only reports an error.
pub open spec fn is_error_prediction(
    r: RemotePrediction,
    tag: Seq<char>,
    message: Seq<char>,
    nanos: u128,
    seconds: u64,
) -> bool {
    &&& r.id@ == "pred_"@ + text::decimal(nanos as nat)
    &&& r.tag@ == tag
    &&& r.created@ == text::decimal(seconds as nat)
    &&& r.results is None
    &&& r.latency is None
    &&& r.error matches Some(e) && e@ == message
    &&& r.logs is None
}

/// A prediction that only reports an error, made at a time in nanoseconds and
/// in seconds.
pub fn error_prediction(tag: &str, message: &str, nanos: u128, seconds: u64) -> (r:
    RemotePrediction)
    ensures
        is_error_prediction(r, tag@, message@, nanos, seconds),
{
    RemotePrediction {
        id: create_prediction_id(nanos),
        tag: tag.to_owned(),
        created: decimal_text(seconds as u128),
        results: None,
        latency: None,
        error: Some(message.to_owned()),
        logs: None,
    }
}

/// A scalar is held by the tensor that stands for it: the tensor has no
/// dimensions, and its one element, read at its type, is the scalar. A
/// double-precision number is handed over with its own bits.
pub proof fn law_scalars_are_held(value: Value, part: NativePart)
    requires
        is_native_part(part, value@),
    ensures
        match value {
            Value::Float(bits) => part matches NativePart::Tensor(t) && t.shape@.len() == 0 && (
            t.data matches TensorData::Float32(v) && v@ == seq![bits]),
            Value::Int(i) => part matches NativePart::Tensor(t) && t.shape@.len() == 0 && (
            t.data matches TensorData::Int32(v) && v@ == seq![i]),
            Value::Long(l) => part matches NativePart::Tensor(t) && t.shape@.len() == 0 && (
            t.data matches TensorData::Int64(v) && v@ == seq![l]),
            Value::Bool(b) => part matches NativePart::Tensor(t) && t.shape@.len() == 0 && (
            t.data matches TensorData::Bool(v) && v@ == seq![b]),
            Value::Double(bits) => part matches NativePart::Narrowed(n) && n == bits,
            _ => !(part is Tensor) && !(part is Narrowed),
        },
{
    if let NativePart::Tensor(t) = part {
        let items = t.data@.items;
        assert(items.len() == 1);
        match t.data {
            TensorData::Float32(v) => {
                assert(items[0] == (v@[0] as int, 0int));
            },
            TensorData::Int32(v) => {
                assert(items[0] == (v@[0] as int, 0int));
            },
            TensorData::Int64(v) => {
                assert(items[0] == (v@[0] as int, 0int));
            },
            TensorData::Bool(v) => {
                assert(items[0] == (if v@[0] { 1int } else { 0int }, 0int));
            },
            _ => {},
        }
    }
}

/// Distinct scalars stand apart: values whose parts are the same tensor, or the
/// same bits, are the same.
pub proof fn law_scalars_stand_apart(a: Value, b: Value, p: NativePart, q: NativePart)
    requires
        is_native_part(p, a@),
        is_native_part(q, b@),
        match (p, q) {
            (NativePart::Tensor(t), NativePart::Tensor(u)) => t@ == u@,
            (NativePart::Narrowed(n), NativePart::Narrowed(m)) => n == m,
            _ => false,
        },
    ensures
        a@ == b@,
{
    law_scalars_are_held(a, p);
    law_scalars_are_held(b, q);
    if let NativePart::Tensor(t) = p {
        if let NativePart::Tensor(u) = q {
            value::law_tensor_views_are_faithful(t.data, u.data);
            match (t.data, u.data) {
                (TensorData::Float32(v), TensorData::Float32(w)) => {
                    assert(v@[0] == w@[0]);
                },
                (TensorData::Int32(v), TensorData::Int32(w)) => {
                    assert(v@[0] == w@[0]);
                },
                (TensorData::Int64(v), TensorData::Int64(w)) => {
                    assert(v@[0] == w@[0]);
                },
                (TensorData::Bool(v), TensorData::Bool(w)) => {
                    assert(v@[0] == w@[0]);
                },
                _ => {},
            }
        }
    }
}

/// The runtime writes a value exactly where it has a part to write, and what it
/// wrote is read by the runtime again. A tensor that stands for a scalar is written
/// at its own type, and a tensor, an image or a list of them is handed over itself.
pub proof fn law_native_parts_are_written(value: Value, part: NativePart)
    requires
        is_native_part(part, value@),
    ensures
        part is Nothing <==> written_as(value@) is None,
        written_as(value@) matches Some((_, dtype)) ==> native_mime(dtype) is Some,
        part matches NativePart::Tensor(t) ==> (written_as(value@) matches Some((_, dtype)) && dtype
            == t.data@.dtype),
        part is Narrowed ==> (written_as(value@) matches Some((_, dtype)) && dtype
            == Dtype::Float32),
        part is Itself <==> value is Tensor || value is Image || value is ImageList || value
            is ArrayList,
        value matches Value::Tensor(t) ==> (written_as(value@) matches Some((_, dtype)) && dtype
            == t.data@.dtype),
        value is Image ==> (written_as(value@) matches Some((_, dtype)) && dtype
            == Dtype::Image),
        value is ImageList ==> (written_as(value@) matches Some((_, dtype)) && dtype
            == Dtype::ImageList),
        value is ArrayList ==> (written_as(value@) matches Some((_, dtype)) && dtype
            == Dtype::ArrayList),
{
    law_scalars_are_held(value, part);
    if let Value::Tensor(t) = value {
        law_tensors_are_native(t.data, Seq::empty());
    }
}

/// Tensors of every element type are read by the runtime, in its tensor format.
pub proof fn law_tensors_are_native(data: TensorData, bytes: Seq<u8>)
    ensures
        is_tensor(data@.dtype),
        parsed_bytes(bytes, data@.dtype) == Ok::<ParsePlanView, ParseFailure>(
            ParsePlanView::Native(bytes, "application/vnd.muna.tensor"@),
        ),
{
}

/// Whatever its type, the bytes of a remote value reach the value unchanged: as the
/// bytes that the runtime reads, as the bytes themselves, or as the text that they
/// encode. Only a null value has none.
pub proof fn law_payloads_are_kept(bytes: Seq<u8>, dtype: Dtype)
    ensures
        match parsed_bytes(bytes, dtype) {
            Ok(ParsePlanView::Native(b, _)) => b == bytes,
            Ok(ParsePlanView::Value(ValueView::Null)) => dtype == Dtype::Null,
            Ok(ParsePlanView::Value(ValueView::Binary(b))) => dtype == Dtype::Binary && b == bytes,
            Ok(ParsePlanView::Value(ValueView::String(s))) => dtype == Dtype::String
                && codec::utf8_text(bytes) == Ok::<Seq<char>, Seq<char>>(s),
            Ok(ParsePlanView::Value(ValueView::List(items))) => dtype == Dtype::List
                && codec::utf8_text(bytes) is Ok && json::json_list_of(
                codec::utf8_text(bytes)->Ok_0,
            ) == Ok::<Seq<serde_json::Value>, Seq<char>>(items),
            Ok(ParsePlanView::Value(ValueView::Dict(object))) => dtype == Dtype::Dict
                && codec::utf8_text(bytes) is Ok && json::json_object_of(
                codec::utf8_text(bytes)->Ok_0,
            ) == Ok::<serde_json::Map<String, serde_json::Value>, Seq<char>>(object),
            Ok(_) => false,
            Err(ParseFailure::Prediction(_)) => codec::utf8_text(bytes) is Err && (dtype
                == Dtype::String || dtype == Dtype::List || dtype == Dtype::Dict),
            Err(ParseFailure::Json(_)) => codec::utf8_text(bytes) is Ok && (dtype == Dtype::List
                || dtype == Dtype::Dict),
        },
{
}

/// A null value needs no payload, and every other value does.
pub proof fn law_only_null_lacks_a_payload(remote: RemoteValueView)
    ensures
        remote.dtype == Dtype::Null ==> parsed(remote) == Ok::<ParsePlanView, ParseFailure>(
            ParsePlanView::Value(ValueView::Null),
        ),
        remote.dtype != Dtype::Null && remote.data is None ==> (parsed(remote) matches Err(
            ParseFailure::Prediction(_),
        )),
        parsed(remote) is Ok && remote.dtype != Dtype::Null ==> remote.data is Some
            && codec::url_bytes(remote.data->0) is Ok,
{
}

/// The data type of a remote value tells what the value was: each kind of value
/// that is not a number is written under a type of its own.
pub proof fn law_types_tell_values_apart(value: Value, written: Seq<u8>)
    ensures
        ({
            let dtype = remote_of(value@, written).dtype;
            &&& dtype == Dtype::Null <==> value is Null
            &&& dtype == Dtype::String <==> value is String
            &&& dtype == Dtype::List <==> value is List
            &&& dtype == Dtype::Dict <==> value is Dict
            &&& dtype == Dtype::Binary <==> value is Binary
            &&& value is Image ==> dtype == Dtype::Image
            &&& value is ImageList ==> dtype == Dtype::ImageList
            &&& value is ArrayList ==> dtype == Dtype::ArrayList
            &&& value is Float ==> dtype == Dtype::Float32
            &&& value is Double ==> dtype == Dtype::Float32
            &&& value is Int ==> dtype == Dtype::Int32
            &&& value is Long ==> dtype == Dtype::Int64
            &&& value is Bool ==> dtype == Dtype::Bool
            &&& remote_of(value@, written).data is None <==> value is Null
        }),
{
    if let Value::Tensor(t) = value {
        law_tensors_are_native(t.data, written);
    }
}

/// A prediction runs on the local CPU exactly where the remote one was asked for, by its
/// variant or by its name; everything else, and nothing, runs on the local GPU.
pub proof fn law_only_the_remote_cpu_runs_on_the_cpu(acceleration: Option<Acceleration>)
    ensures
        local_of(acceleration) == Acceleration::LocalCpu <==> (acceleration matches Some(a) && (a
            == Acceleration::RemoteCpu || (a matches Acceleration::Adaptive(s) && s@
            == "remote_cpu"@))),
        local_of(acceleration) == Acceleration::LocalCpu || local_of(acceleration)
            == Acceleration::LocalGpu,
{
}

/// What clients see of a prediction is the prediction: who made it, when and how long it
/// took, its error and its logs are its own, and its results stand in order, one for each.
pub proof fn law_remote_predictions_keep_their_fields(
    remote: RemotePrediction,
    prediction: Prediction,
    written: Seq<Result<Vec<u8>, PredictError>>,
)
    requires
        is_remote_prediction(remote, prediction, written),
    ensures
        remote.id@ == prediction.id@,
        remote.tag@ == prediction.tag@,
        remote.created@ == prediction.created@,
        remote.latency == prediction.latency,
        remote.error == prediction.error,
        remote.logs == prediction.logs,
        remote.results is Some <==> prediction.results is Some,
        prediction.results matches Some(values) ==> remote.results->0@.len() == values@.len()
            && forall|i: int|
            0 <= i < values@.len() ==> remote_view(#[trigger] remote.results->0@[i]) == remote_of(
                values@[i]@,
                match written[i] {
                    Ok(bytes) => bytes@,
                    Err(_) => Seq::empty(),
                },
            ),
{
}

/// A prediction that only reports an error has that error and no results; its identifier
/// and its time are those at which it was made.
pub proof fn law_error_predictions_report_the_error(
    r: RemotePrediction,
    tag: Seq<char>,
    message: Seq<char>,
    nanos: u128,
    seconds: u64,
)
    requires
        is_error_prediction(r, tag, message, nanos, seconds),
    ensures
        r.tag@ == tag,
        r.error is Some && r.error->0@ == message,
        r.results is None,
        text::number_of(r.created@) == seconds,
        r.id@.take(5) == "pred_"@,
        text::number_of(r.id@.skip(5)) == nanos,
{
    reveal_strlit("pred_");
    text::law_decimals_read_back(seconds as nat);
    text::law_decimals_read_back(nanos as nat);
    assert(r.id@.take(5) =~= "pred_"@);
    assert(r.id@.skip(5) =~= text::decimal(nanos as nat));
}

/// A value is written as a data URL of its bytes, in the media type of its kind: what the
/// runtime wrote, the text in UTF-8, the JSON text in UTF-8, or the bytes themselves.
pub proof fn law_values_are_written_by_kind(value: Value, written: Seq<u8>)
    ensures
        ({
            let data = remote_of(value@, written).data;
            match value {
                Value::Null => data is None,
                Value::String(s) => data == Some(
                    codec::data_url("text/plain"@, codec::base64_text(encode_utf8(s@))),
                ),
                Value::Binary(bytes) => data == Some(
                    codec::data_url(
                        "application/octet-stream"@,
                        codec::base64_text(bytes@),
                    ),
                ),
                Value::List(items) => data == Some(
                    codec::data_url(
                        "application/json"@,
                        codec::base64_text(encode_utf8(json::json_list_text(items@)->Ok_0)),
                    ),
                ),
                Value::Dict(object) => data == Some(
                    codec::data_url(
                        "application/json"@,
                        codec::base64_text(encode_utf8(json::json_object_text(object)->Ok_0)),
                    ),
                ),
                Value::Image(_) => data == Some(
                    codec::data_url("image/png"@, codec::base64_text(written)),
                ),
                Value::ImageList(_) => data == Some(
                    codec::data_url("image/avif"@, codec::base64_text(written)),
                ),
                Value::ArrayList(_) => data == Some(
                    codec::data_url("application/x-npz"@, codec::base64_text(written)),
                ),
                _ => data == Some(
                    codec::data_url("application/octet-stream"@, codec::base64_text(written)),
                ),
            }
        }),
{
}

/// A value cannot be written exactly where the runtime failed on its native part, or its
/// JSON text cannot be written; the error is that of the one that failed. What the runtime
/// came to does not matter for a value without a native part.
pub proof fn law_only_failed_parts_cannot_be_written(
    value: Value,
    part: NativePart,
    written: Result<Vec<u8>, PredictError>,
    e: PredictError,
)
    requires
        is_native_part(part, value@),
    ensures
        !(part is Nothing) ==> (is_writable(value@, written) <==> written is Ok),
        value is Null || value is String || value is Binary ==> is_writable(value@, written),
        value matches Value::List(items) ==> (is_writable(value@, written)
            <==> json::json_list_text(items@) is Ok),
        value matches Value::Dict(object) ==> (is_writable(value@, written)
            <==> json::json_object_text(object) is Ok),
        !(part is Nothing) && is_write_error(e, value@, written) ==> written == Err::<
            Vec<u8>,
            PredictError,
        >(e),
        part is Nothing && is_write_error(e, value@, written) ==> e is Json,
{
    law_native_parts_are_written(value, part);
}

/// A prediction fails with the error of its first result that cannot be written: everything
/// before that one can be.
pub proof fn law_first_failure_fails_the_prediction(
    e: PredictError,
    values: Seq<Value>,
    written: Seq<Result<Vec<u8>, PredictError>>,
)
    requires
        is_first_error(e, values, written),
    ensures
        exists|k: int|
            0 <= k < values.len() && is_write_error(e, (#[trigger] values[k])@, written[k])
                && !is_writable(values[k]@, written[k]) && forall|j: int|
                0 <= j < k ==> is_writable((#[trigger] values[j])@, written[j]),
{
}

} // verus!
