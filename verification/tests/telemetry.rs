//! Telemetry windows, stream meters and counters.

use muna_server::handlers::anthropic::{stamp_event, MessageEvent};
use muna_server::handlers::openai::{stamp_chunk, Chunk, ChunkDelta};
use muna_server::handlers::stream::{commit, ChatStream, Frame, Output, Surface};
use muna_server::prediction::PredictError;
use muna_server::serving::stats::{
    elapsed, normalize_interval, percentile, unary_sample, ModelStats, PredictionSample,
    SampleDetail, StreamKind, StreamMeter, TelemetryWindow, MIN_SAMPLES, WINDOW_CAP,
    WINDOW_HORIZON,
};

const MS: u128 = 1_000_000;
const NOW: u64 = 2 * WINDOW_HORIZON;

fn sample(age: u64, queue_wait_ms: u128, latency_ms: u128) -> PredictionSample {
    PredictionSample {
        at: NOW - age,
        queue_wait: queue_wait_ms * MS,
        latency: latency_ms * MS,
        detail: SampleDetail::Unary,
    }
}

#[test]
fn summarize_requires_min_samples() {
    let mut window = TelemetryWindow::new();
    for _ in 0..(MIN_SAMPLES - 1) {
        window.record(sample(0, 1, 10));
    }
    assert!(window.summarize(NOW).is_none());
    window.record(sample(0, 1, 10));
    assert!(window.summarize(NOW).is_some());
}

#[test]
fn summarize_ignores_samples_past_horizon() {
    let mut window = TelemetryWindow::new();
    // Ten stale samples with huge latency, five fresh ones with small.
    for _ in 0..10 {
        window.record(sample(WINDOW_HORIZON + 1_000_000_000, 1, 10_000));
    }
    for _ in 0..5 {
        window.record(sample(0, 1, 10));
    }
    let summary = window.summarize(NOW).expect("five fresh samples");
    assert!(summary.latency_p95.expect("header field") < 100 * MS);
}

#[test]
fn percentiles_are_nearest_rank() {
    let mut window = TelemetryWindow::new();
    for ms in 1..=100u128 {
        window.record(sample(0, ms, ms));
    }
    let summary = window.summarize(NOW).expect("100 samples");
    let p95 = summary.latency_p95.expect("header field") as f64 / MS as f64;
    assert!((94.0..=96.0).contains(&p95), "p95 = {p95}");
}

#[test]
fn percentile_indices_round_to_nearest() {
    let values: Vec<u128> = (0..=10).rev().collect();
    assert_eq!(percentile(&values, 50), Some(5));
    // 0.95 * 10 = 9.5 rounds away from zero.
    assert_eq!(percentile(&values, 95), Some(10));
    assert_eq!(percentile(&values, 0), Some(0));
    assert_eq!(percentile(&values, 100), Some(10));
    assert_eq!(percentile(&vec![1, 2, 3, 4], 50), None);
}

#[test]
fn ring_caps_at_window_size() {
    let mut window = TelemetryWindow::new();
    for _ in 0..(WINDOW_CAP + 100) {
        window.record(sample(0, 1, 10));
    }
    assert_eq!(window.len(), WINDOW_CAP);
}

#[test]
fn variant_fields_project_per_variant() {
    let mut window = TelemetryWindow::new();
    // Image samples never produce first_output / output_interval fields.
    for _ in 0..10 {
        window.record(PredictionSample {
            at: NOW,
            queue_wait: MS,
            latency: 500 * MS,
            detail: SampleDetail::Image { images: 1 },
        });
    }
    let summary = window.summarize(NOW).expect("ten samples");
    assert!(summary.queue_wait_p95.is_some());
    assert!(summary.latency_p95.is_some());
    assert!(summary.first_output_p50.is_none());
    assert!(summary.output_interval_p50.is_none());
    // Llm samples fill the streaming fields once they cross the floor.
    for _ in 0..MIN_SAMPLES {
        window.record(PredictionSample {
            at: NOW,
            queue_wait: MS,
            latency: 500 * MS,
            detail: SampleDetail::Llm { first_output: 50 * MS, output_interval: Some(8 * MS) },
        });
    }
    let summary = window.summarize(NOW).expect("fifteen samples");
    assert!(summary.first_output_p50.is_some());
    assert!(summary.first_output_p95.is_some());
    assert!(summary.output_interval_p50.is_some());
    assert!(summary.output_interval_p95.is_some());
}

#[test]
fn interval_normalization_is_yield_invariant() {
    // 100 tokens over 990ms after the first chunk. Delivered as 100 one-token
    // chunks (autoregressive) or 25 four-token chunks (speculative), the
    // per-token interval must match: ~10ms.
    let span = 990 * MS;
    let autoregressive = normalize_interval(span, 100, 100).expect("interval");
    let speculative = normalize_interval(span, 100, 25).expect("interval");
    assert_eq!(autoregressive, 10 * MS);
    // Speculative: per_chunk = 4, after_first = 96 -> 990/96 ~= 10.3ms.
    let ms = speculative as f64 / MS as f64;
    assert!((9.0..=11.5).contains(&ms), "speculative interval = {ms}ms");
}

#[test]
fn interval_normalization_degenerate_cases() {
    let span = 100 * MS;
    // Single chunk: no span to normalize.
    assert!(normalize_interval(span, 10, 1).is_none());
    // No tokens reported.
    assert!(normalize_interval(span, 0, 10).is_none());
    // All tokens attributed to the first chunk estimate.
    assert!(normalize_interval(span, 1, 2).is_none());
}

#[test]
fn large_token_counts_are_normalized() {
    // 2 * 2^32 tokens in two chunks leave 2^32 after the first.
    assert_eq!(normalize_interval(8_000_000_000, 1 << 33, 2), Some(1));
    assert_eq!(normalize_interval(8_589_934_594, 8_589_934_594, 2), Some(2));
}

fn delta(content: &str) -> Option<ChunkDelta> {
    Some(ChunkDelta {
        content: Some(content.to_string()),
        reasoning_content: None,
        tool_calls: None,
    })
}

#[test]
fn chat_streams_are_metered() {
    let mut meter = StreamMeter::new(StreamKind::Llm, 5, 100);
    // Role-only frames carry no content.
    stamp_chunk(&mut meter, &Chunk { deltas: vec![delta(""), None], completion_tokens: None }, 110);
    assert_eq!(meter.content_chunks, 0);
    stamp_chunk(&mut meter, &Chunk { deltas: vec![delta("a")], completion_tokens: None }, 200);
    stamp_chunk(&mut meter, &Chunk { deltas: vec![delta("b")], completion_tokens: None }, 300);
    stamp_chunk(&mut meter, &Chunk { deltas: vec![], completion_tokens: Some(3) }, 400);
    assert_eq!(meter.content_chunks, 3);
    let sample = meter.finish(500).unwrap();
    assert_eq!((sample.at, sample.queue_wait, sample.latency), (500, 5, 300));
    match sample.detail {
        SampleDetail::Llm { first_output, output_interval } => {
            assert_eq!(first_output, 100);
            // Span 200 over the two tokens after the first chunk.
            assert_eq!(output_interval, Some(100));
        }
        other => panic!("expected chat detail, got {other:?}"),
    }
}

#[test]
fn tool_calls_and_reasoning_are_content() {
    let mut meter = StreamMeter::new(StreamKind::Llm, 0, 0);
    let reasoning = ChunkDelta {
        content: None,
        reasoning_content: Some("hm".to_string()),
        tool_calls: None,
    };
    let calls = ChunkDelta { content: None, reasoning_content: None, tool_calls: Some(1) };
    let no_calls = ChunkDelta { content: None, reasoning_content: None, tool_calls: Some(0) };
    for d in [reasoning, calls, no_calls] {
        stamp_chunk(&mut meter, &Chunk { deltas: vec![Some(d)], completion_tokens: None }, 1);
    }
    assert_eq!(meter.content_chunks, 2);
}

#[test]
fn message_streams_are_metered() {
    let mut meter = StreamMeter::new(StreamKind::Llm, 0, 0);
    stamp_event(&mut meter, MessageEvent::Envelope, 1);
    assert_eq!(meter.content_chunks, 0);
    stamp_event(&mut meter, MessageEvent::ContentBlockDelta, 2);
    stamp_event(&mut meter, MessageEvent::MessageDelta { output_tokens: 9 }, 3);
    assert_eq!(meter.content_chunks, 2);
    assert_eq!(meter.completion_tokens, Some(9));
}

#[test]
fn streams_without_content_record_nothing() {
    let meter = StreamMeter::new(StreamKind::Raw, 0, 0);
    assert!(meter.finish(10).is_none());
    let mut meter = StreamMeter::new(StreamKind::Raw, 0, 0);
    meter.on_output(true, 4);
    match meter.finish(10).unwrap().detail {
        SampleDetail::Stream { first_output } => assert_eq!(first_output, 4),
        other => panic!("expected stream detail, got {other:?}"),
    }
}

#[test]
fn counters_count() {
    let mut stats = ModelStats::new();
    assert_eq!(stats.latency_total(), None);
    assert_eq!(stats.vram_mb(), None);
    stats.record_latency(2_500);
    stats.record_latency(1_000);
    assert_eq!(stats.latency_total(), Some((3, 2)));
    assert_eq!(stats.total_predictions, 2);
    stats.record_vram(12);
    assert_eq!(stats.vram_mb(), Some(12));
    stats.record_load_time(9_999);
    assert_eq!(stats.load_time_us, 9);
    stats.record_download_time(77);
    assert_eq!(stats.download_time_ns, 77);
    assert_eq!(elapsed(5, 9), 4);
    assert_eq!(elapsed(9, 5), 0);
}

#[test]
fn chat_completion_streaming_and_unload() {
    let mut stream = ChatStream::dispatch(Surface::OpenAi, 10, 25);
    assert_eq!(stream.meter.queue_wait, 15);
    let chunk = |text: &str| {
        Output::Chunk(Chunk { deltas: vec![delta(text)], completion_tokens: None })
    };
    let first = commit(&mut stream, Some(Ok(chunk("a"))), 40).unwrap();
    assert!(matches!(first, Output::Chunk(_)));
    assert!(matches!(stream.on_item(Ok(&chunk("b")), 60), Frame::Output));
    // An error after the first output stays in the stream.
    let error = PredictError::Prediction("boom".into());
    match stream.on_item(Err(&error), 70) {
        Frame::Error { name, kind, message } => {
            assert_eq!((name, kind, message.as_str()), (None, "muna_error", "boom"));
        }
        other => panic!("expected an error frame, got {other:?}"),
    }
    assert!(matches!(stream.on_end(), Some(Frame::Done)));
    let sample = stream.on_close(99).unwrap();
    assert_eq!((sample.at, sample.queue_wait, sample.latency), (99, 15, 35));
}

#[test]
fn message_streams_name_their_errors_and_have_no_end_marker() {
    let mut stream = ChatStream::dispatch(Surface::Anthropic, 0, 0);
    let start = Output::Event(MessageEvent::Envelope);
    assert!(commit(&mut stream, Some(Ok(start)), 1).is_ok());
    let error = PredictError::Native("lost".into());
    match stream.on_item(Err(&error), 2) {
        Frame::Error { name, kind, message } => {
            assert_eq!((name, kind, message.as_str()), (Some("error"), "api_error", "lost"));
        }
        other => panic!("expected an error frame, got {other:?}"),
    }
    assert!(stream.on_end().is_none());
    // No content ever came: nothing is recorded.
    assert!(stream.on_close(3).is_none());
}

#[test]
fn failures_before_output_are_answered() {
    let mut stream = ChatStream::dispatch(Surface::OpenAi, 0, 0);
    let e = commit(&mut stream, Some(Err(PredictError::Prediction("too long".into()))), 1)
        .unwrap_err();
    assert_eq!((e.status, e.message.as_str()), (500, "too long"));
    let e = commit(&mut stream, None, 1).unwrap_err();
    assert_eq!(e.message, "prediction stream ended before producing output");
    assert!(stream.on_close(2).is_none());
}

#[test]
fn whole_responses_are_unary_samples() {
    let sample = unary_sample(5, 8, 20);
    assert_eq!((sample.at, sample.queue_wait, sample.latency), (20, 3, 12));
    assert!(matches!(sample.detail, SampleDetail::Unary));
}
