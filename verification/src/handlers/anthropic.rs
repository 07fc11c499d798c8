//! Anthropic-compatible surface: event metering.

use crate::handlers::openai;
use crate::serving::stats::StreamMeter;
use vstd::prelude::*;

verus! {

/// A message stream event, as far as it is metered.
#[derive(Clone, Copy, Debug, PartialEq, Eq, Structural)]
pub enum MessageEvent {
    /// A piece of content.
    ContentBlockDelta,
    /// The cumulative output token count.
    MessageDelta { output_tokens: u64 },
    /// Start and stop frames, which carry no content.
    Envelope,
}

/// Stamps one event on the stream meter.
pub fn stamp_event(meter: &mut StreamMeter, event: MessageEvent, now: u64)
    requires
        old(meter).content_chunks < u64::MAX,
    ensures
        *final(meter) == openai::stamped(
            *old(meter),
            !(event is Envelope),
            match event {
                MessageEvent::MessageDelta { output_tokens } => Some(output_tokens),
                _ => None,
            },
            now,
        ),
{
    match event {
        MessageEvent::ContentBlockDelta => meter.on_output(true, now),
        MessageEvent::MessageDelta { output_tokens } => {
            meter.on_usage(output_tokens);
            meter.on_output(true, now);
        },
        MessageEvent::Envelope => meter.on_output(false, now),
    }
}

} // verus!
