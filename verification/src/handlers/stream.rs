//! Chat responses: streamed and whole.
//!
//! A streamed response is committed by its first item. From then on every item
//! becomes one frame; an error stays in the stream, in the envelope of the
//! protocol. A sample of the stream's timing is taken when it ends or its
//! client leaves.

use super::anthropic::{stamp_event, MessageEvent};
use super::error;
use super::error::{commit_first, AppError};
use super::openai;
use super::openai::{stamp_chunk, Chunk};
use crate::prediction;
use crate::prediction::PredictError;
use crate::serving::stats;
use crate::serving::stats::{elapsed, PredictionSample, StreamKind, StreamMeter};
use vstd::prelude::*;

verus! {

/// The protocol that a chat client speaks.
#[derive(Clone, Copy, Debug, PartialEq, Eq, Structural)]
pub enum Surface {
    /// Frames without a name, ended by a `[DONE]` frame; errors are of type
    /// `muna_error`.
    OpenAi,
    /// Named frames without an end marker; errors are named `error` and of type
    /// `api_error`.
    Anthropic,
}

/// An output of a chat stream, as far as it is metered.
#[derive(Debug)]
pub enum Output {
    Chunk(Chunk),
    Event(MessageEvent),
}

/// A frame of a streamed response.
#[derive(Debug)]
pub enum Frame {
    /// The output itself.
    Output,
    /// An error: the name of the frame, if it has one, the type of the error and
    /// its message.
    Error { name: Option<&'static str>, kind: &'static str, message: String },
    /// The end marker.
    Done,
}

/// Whether an output carries content.
pub open spec fn output_has_content(output: Output) -> bool {
    match output {
        Output::Chunk(chunk) => openai::chunk_has_content(chunk),
        Output::Event(event) => !(event is Envelope),
    }
}

/// The token count that an output carries.
pub open spec fn output_tokens(output: Output) -> Option<u64> {
    match output {
        Output::Chunk(chunk) => chunk.completion_tokens,
        Output::Event(MessageEvent::MessageDelta { output_tokens }) => Some(output_tokens),
        Output::Event(_) => None,
    }
}

/// A meter after an output.
pub open spec fn metered(meter: StreamMeter, output: Output, now: u64) -> StreamMeter {
    openai::stamped(meter, output_has_content(output), output_tokens(output), now)
}

/// Whether a frame is that of an error on a surface.
pub open spec fn is_error_frame(frame: Frame, surface: Surface, e: PredictError) -> bool {
    frame matches Frame::Error { name, kind, message } && message@ == prediction::error_message(e)
        && match surface {
        Surface::OpenAi => name is None && kind@ == "muna_error"@,
        Surface::Anthropic => name matches Some(n) && n@ == "error"@ && kind@ == "api_error"@,
    }
}

/// The meter of a chat stream that is dispatched, after it waited since it was admitted.
pub open spec fn dispatch_meter(admitted: u64, now: u64) -> StreamMeter {
    StreamMeter {
        kind: StreamKind::Llm,
        queue_wait: stats::elapsed_between(admitted, now),
        started: now,
        first_content_at: None,
        last_output_at: None,
        content_chunks: 0,
        completion_tokens: None,
    }
}

/// The frame that ends a response on a surface, if there is one.
pub open spec fn end_frame(surface: Surface) -> Option<Frame> {
    match surface {
        Surface::OpenAi => Some(Frame::Done),
        Surface::Anthropic => None,
    }
}

/// A chat stream whose response was committed.
#[derive(Debug)]
pub struct ChatStream {
    pub surface: Surface,
    pub meter: StreamMeter,
}

impl ChatStream {
    /// Starts the meter of a stream that is dispatched now, after it waited for
    /// its model since it was admitted.
    pub fn dispatch(surface: Surface, admitted: u64, now: u64) -> (r: ChatStream)
        ensures
            r.surface == surface,
            r.meter == dispatch_meter(admitted, now),
    {
        ChatStream { surface, meter: StreamMeter::new(StreamKind::Llm, elapsed(admitted, now), now) }
    }

    /// Takes the next item of the prediction stream and returns its frame. Only
    /// outputs are metered.
    pub fn on_item(&mut self, item: Result<&Output, &PredictError>, now: u64) -> (r: Frame)
        requires
            old(self).meter.content_chunks < u64::MAX,
        ensures
            final(self).surface == old(self).surface,
            match item {
                Ok(output) => r is Output && final(self).meter == metered(
                    old(self).meter,
                    *output,
                    now,
                ),
                Err(e) => is_error_frame(r, old(self).surface, *e) && final(self).meter == old(
                    self,
                ).meter,
            },
    {
        match item {
            Ok(Output::Chunk(chunk)) => {
                stamp_chunk(&mut self.meter, chunk, now);
                Frame::Output
            },
            Ok(Output::Event(event)) => {
                stamp_event(&mut self.meter, *event, now);
                Frame::Output
            },
            Err(e) => match self.surface {
                Surface::OpenAi => Frame::Error {
                    name: None,
                    kind: "muna_error",
                    message: e.message(),
                },
                Surface::Anthropic => Frame::Error {
                    name: Some("error"),
                    kind: "api_error",
                    message: e.message(),
                },
            },
        }
    }

    /// The frame that ends the response, if the protocol has one.
    pub fn on_end(&self) -> (r: Option<Frame>)
        ensures
            r == end_frame(self.surface),
    {
        match self.surface {
            Surface::OpenAi => Some(Frame::Done),
            Surface::Anthropic => None,
        }
    }

    /// The sample of the stream when it ended or its client left. There is none
    /// of a stream without content.
    pub fn on_close(&self, now: u64) -> (r: Option<PredictionSample>)
        ensures
            r == stats::stream_sample(self.meter, now),
    {
        self.meter.finish(now)
    }
}

/// Commits a streamed response on the first item of the prediction stream: its
/// output is the first frame, and a failure before any output is answered with
/// an error status.
pub fn commit(
    stream: &mut ChatStream,
    first: Option<Result<Output, PredictError>>,
    now: u64,
) -> (r: Result<Output, AppError>)
    requires
        old(stream).meter.content_chunks < u64::MAX,
    ensures
        final(stream).surface == old(stream).surface,
        match first {
            Some(Ok(output)) => r == Ok::<Output, AppError>(output) && final(stream).meter
                == metered(old(stream).meter, output, now),
            Some(Err(e)) => final(stream).meter == old(stream).meter && (r matches Err(a) && a@
                == error::predict_error(e)),
            None => final(stream).meter == old(stream).meter && (r matches Err(a) && a@
                == error::no_output_error()),
        },
{
    match commit_first(first) {
        Ok(output) => {
            let frame: Frame = stream.on_item(Ok(&output), now);
            Ok(output)
        },
        Err(e) => Err(e),
    }
}

/// The meter after a stream's outputs, each with the time of its arrival.
pub open spec fn meter_after(
    meter: StreamMeter,
    outputs: Seq<(Output, u64)>,
) -> StreamMeter
    decreases outputs.len(),
{
    if outputs.len() == 0 {
        meter
    } else {
        metered(meter_after(meter, outputs.drop_last()), outputs.last().0, outputs.last().1)
    }
}

/// The time to the first output of a stream is that of the first output with
/// content, however many frames without content come before it; and a stream
/// without content leaves no sample.
pub proof fn law_first_content_anchors_the_stream(
    meter: StreamMeter,
    outputs: Seq<(Output, u64)>,
    i: int,
    now: u64,
)
    requires
        meter.first_content_at is None,
        meter.last_output_at is None,
        0 <= i <= outputs.len(),
        forall|k: int| 0 <= k < i ==> !output_has_content((#[trigger] outputs[k]).0),
        i < outputs.len() ==> output_has_content(outputs[i].0),
    ensures
        i < outputs.len() ==> meter_after(meter, outputs).first_content_at == Some(outputs[i].1),
        i == outputs.len() ==> stats::stream_sample(meter_after(meter, outputs), now) is None,
    decreases outputs.len(),
{
    if outputs.len() > 0 {
        let before = outputs.drop_last();
        assert forall|k: int| 0 <= k < i && k < before.len() implies !output_has_content(
            (#[trigger] before[k]).0,
        ) by {
            assert(!output_has_content(outputs[k].0));
        }
        if i < before.len() {
            assert(before[i] == outputs[i]);
            law_first_content_anchors_the_stream(meter, before, i, now);
        } else {
            lemma_no_content(meter, before);
            assert(i == before.len() || i == outputs.len());
            if i == outputs.len() {
                assert(!output_has_content(outputs[outputs.len() - 1].0));
            }
        }
    }
}

proof fn lemma_no_content(meter: StreamMeter, outputs: Seq<(Output, u64)>)
    requires
        forall|k: int| 0 <= k < outputs.len() ==> !output_has_content((#[trigger] outputs[k]).0),
    ensures
        meter_after(meter, outputs).first_content_at == meter.first_content_at,
    decreases outputs.len(),
{
    if outputs.len() > 0 {
        let before = outputs.drop_last();
        assert forall|k: int| 0 <= k < before.len() implies !output_has_content(
            (#[trigger] before[k]).0,
        ) by {
            assert(!output_has_content(outputs[k].0));
        }
        lemma_no_content(meter, before);
        assert(!output_has_content(outputs[outputs.len() - 1].0));
    }
}

/// How many of a stream's outputs carry content.
pub open spec fn content_count(outputs: Seq<(Output, u64)>) -> int
    decreases outputs.len(),
{
    if outputs.len() == 0 {
        0
    } else {
        content_count(outputs.drop_last()) + if output_has_content(outputs.last().0) {
            1int
        } else {
            0int
        }
    }
}

/// A meter counts the outputs with content, holds the time of the last output and the
/// last token count that came, and keeps what it was started with.
pub proof fn law_meters_count_content(meter: StreamMeter, outputs: Seq<(Output, u64)>)
    requires
        meter.content_chunks + outputs.len() <= u64::MAX,
    ensures
        ({
            let after = meter_after(meter, outputs);
            &&& after.content_chunks == meter.content_chunks + content_count(outputs)
            &&& 0 <= content_count(outputs) <= outputs.len()
            &&& outputs.len() > 0 ==> after.last_output_at == Some(outputs.last().1)
            &&& outputs.len() == 0 ==> after == meter
            &&& after.kind == meter.kind
            &&& after.queue_wait == meter.queue_wait
            &&& after.started == meter.started
            &&& outputs.len() > 0 && output_tokens(outputs.last().0) is Some
                ==> after.completion_tokens == output_tokens(outputs.last().0)
            &&& outputs.len() > 0 && output_tokens(outputs.last().0) is None
                ==> after.completion_tokens == meter_after(
                meter,
                outputs.drop_last(),
            ).completion_tokens
            &&& meter.first_content_at is Some ==> after.first_content_at == meter.first_content_at
        }),
    decreases outputs.len(),
{
    if outputs.len() > 0 {
        law_meters_count_content(meter, outputs.drop_last());
    }
}

/// An output carries content where a client gets something to show: text, reasoning, a
/// piece of a tool call, a piece of a message, or the usage. A role, a start or a stop
/// is none. The tokens are those that the output reports.
pub proof fn law_outputs_with_content(output: Output)
    ensures
        match output {
            Output::Chunk(chunk) => {
                &&& output_tokens(output) == chunk.completion_tokens
                &&& chunk.completion_tokens is Some ==> output_has_content(output)
                &&& chunk.completion_tokens is None ==> (output_has_content(output)
                    <==> exists|i: int|
                    0 <= i < chunk.deltas@.len() && openai::delta_has_content(
                        #[trigger] chunk.deltas@[i],
                    ))
            },
            Output::Event(event) => {
                &&& output_has_content(output) <==> event is ContentBlockDelta || event
                    is MessageDelta
                &&& output_tokens(output) is Some <==> event is MessageDelta
                &&& event matches MessageEvent::MessageDelta { output_tokens: n }
                    ==> output_tokens(output) == Some(n)
            },
        },
{
}

/// An error that comes after the response was committed keeps its message, and is in the
/// envelope of the client's protocol.
pub proof fn law_error_frames_keep_the_message(frame: Frame, surface: Surface, e: PredictError)
    requires
        is_error_frame(frame, surface, e),
    ensures
        frame matches Frame::Error { name, kind, message } && message@ == prediction::error_message(
            e,
        ) && (name is Some <==> surface == Surface::Anthropic) && (surface == Surface::OpenAi ==> kind@
            == "muna_error"@) && (surface == Surface::Anthropic ==> kind@ == "api_error"@ && name->0@
            == "error"@),
{
}

/// A chat stream is timed by the clock: its sample has waited from its admission to its
/// dispatch, and its latency runs from the dispatch to its last output.
pub proof fn law_streams_are_timed_from_dispatch(
    admitted: u64,
    dispatched: u64,
    outputs: Seq<(Output, u64)>,
    now: u64,
)
    requires
        admitted <= dispatched,
        outputs.len() > 0,
        dispatched <= outputs.last().1,
    ensures
        stats::stream_sample(meter_after(dispatch_meter(admitted, dispatched), outputs), now)
            matches Some(sample) ==> admitted + sample.queue_wait == dispatched && dispatched
            + sample.latency == outputs.last().1 && sample.at == now && sample.detail is Llm,
{
    lemma_meter_keeps(dispatch_meter(admitted, dispatched), outputs);
}

proof fn lemma_meter_keeps(meter: StreamMeter, outputs: Seq<(Output, u64)>)
    ensures
        meter_after(meter, outputs).kind == meter.kind,
        meter_after(meter, outputs).queue_wait == meter.queue_wait,
        meter_after(meter, outputs).started == meter.started,
        outputs.len() > 0 ==> meter_after(meter, outputs).last_output_at == Some(outputs.last().1),
    decreases outputs.len(),
{
    if outputs.len() > 0 {
        lemma_meter_keeps(meter, outputs.drop_last());
    }
}

/// A response to an OpenAI client ends with the end marker, and one to an Anthropic client
/// without any.
pub proof fn law_only_openai_has_an_end_marker(surface: Surface)
    ensures
        end_frame(surface) is Some <==> surface == Surface::OpenAi,
        end_frame(surface) matches Some(frame) ==> frame is Done,
{
}

} // verus!
