//! Per-model counters and windowed timing telemetry.
//!
//! Clock readings and durations are in nanoseconds.

use crate::order;
use crate::order::sort_numbers;
use std::collections::VecDeque;
use vstd::prelude::*;

verus! {

/// Most samples that a window holds.
pub const WINDOW_CAP: usize = 512;

/// Only samples no older than this contribute to a summary: five minutes.
pub const WINDOW_HORIZON: u64 = 300_000_000_000;

/// Fewest samples for a percentile to be reported.
pub const MIN_SAMPLES: usize = 5;

/// Per-surface detail of a prediction sample.
#[derive(Clone, Copy, Debug)]
pub enum SampleDetail {
    /// Streamed chat: token-normalized.
    Llm {
        /// Dispatch to the first content-bearing chunk.
        first_output: u128,
        /// Time per token after the first chunk; absent where the stream died early.
        output_interval: Option<u128>,
    },
    /// Image generation: one image per unit.
    Image { images: u32 },
    /// Raw stream: only the time to the first frame is kept.
    Stream { first_output: u128 },
    /// A prediction without intermediate output.
    Unary,
}

/// Timing sample of one completed prediction.
#[derive(Clone, Copy, Debug)]
pub struct PredictionSample {
    /// When the prediction completed.
    pub at: u64,
    /// Enqueue to dispatch.
    pub queue_wait: u128,
    /// Dispatch to the last output.
    pub latency: u128,
    pub detail: SampleDetail,
}

/// Percentiles over a telemetry window. A field is absent unless enough samples
/// of a kind that carries it exist.
#[derive(Clone, Copy, Debug)]
pub struct TelemetrySummary {
    pub queue_wait_p95: Option<u128>,
    pub latency_p95: Option<u128>,
    pub first_output_p50: Option<u128>,
    pub first_output_p95: Option<u128>,
    pub output_interval_p50: Option<u128>,
    pub output_interval_p95: Option<u128>,
}

/// What a percentile is taken of.
#[derive(Clone, Copy, Debug, PartialEq, Eq, Structural)]
pub enum Reading {
    QueueWait,
    Latency,
    FirstOutput,
    OutputInterval,
}

/// What a sample contributes to a reading.
pub open spec fn reading_of(sample: PredictionSample, reading: Reading) -> Option<u128> {
    match reading {
        Reading::QueueWait => Some(sample.queue_wait),
        Reading::Latency => Some(sample.latency),
        Reading::FirstOutput => match sample.detail {
            SampleDetail::Llm { first_output, .. } => Some(first_output),
            SampleDetail::Stream { first_output } => Some(first_output),
            _ => None,
        },
        Reading::OutputInterval => match sample.detail {
            SampleDetail::Llm { output_interval, .. } => output_interval,
            _ => None,
        },
    }
}

/// Whether a sample is no older than the horizon.
pub open spec fn is_recent(sample: PredictionSample, now: u64) -> bool {
    now - sample.at <= WINDOW_HORIZON
}

/// What the recent samples contribute to a reading, oldest first.
pub open spec fn readings(samples: Seq<PredictionSample>, now: u64, reading: Reading) -> Seq<u128>
    decreases samples.len(),
{
    if samples.len() == 0 {
        Seq::empty()
    } else {
        let before = readings(samples.drop_last(), now, reading);
        if is_recent(samples.last(), now) {
            match reading_of(samples.last(), reading) {
                Some(value) => before.push(value),
                None => before,
            }
        } else {
            before
        }
    }
}

/// The nearest rank of a percentile among some values.
pub open spec fn rank(n: nat, percent: nat) -> int {
    ((n - 1) * percent + 50) / 100
}

/// The percentile of values; absent where there are too few.
pub open spec fn percentile_of(values: Seq<u128>, percent: nat) -> Option<u128> {
    if values.len() < MIN_SAMPLES {
        None
    } else {
        Some(order::sorted_numbers(values)[rank(values.len(), percent)])
    }
}

/// Nearest-rank percentile; absent where there are too few values.
pub fn percentile(values: &Vec<u128>, percent: usize) -> (r: Option<u128>)
    requires
        percent <= 100,
    ensures
        r == percentile_of(values@, percent as nat),
{
    if values.len() < MIN_SAMPLES {
        return None;
    }
    let sorted: Vec<u128> = sort_numbers(values);
    proof {
        order::lemma_sorted_numbers(values@);
        let n = values@.len() as int;
        let p = percent as int;
        assert(0 <= (n - 1) * p <= (n - 1) * 100) by (nonlinear_arith)
            requires
                n >= 1,
                0 <= p <= 100,
        ;
    }
    let last: u128 = (values.len() - 1) as u128;
    let at: u128 = (last * percent as u128 + 50) / 100;
    Some(sorted[at as usize])
}

/// A ring of recent samples; percentiles are computed on read.
#[derive(Debug)]
pub struct TelemetryWindow {
    samples: VecDeque<PredictionSample>,
}

impl View for TelemetryWindow {
    type V = Seq<PredictionSample>;

    closed spec fn view(&self) -> Seq<PredictionSample> {
        self.samples@
    }
}

/// A window after one more sample: the oldest leaves a full one.
pub open spec fn recorded(
    samples: Seq<PredictionSample>,
    sample: PredictionSample,
) -> Seq<PredictionSample> {
    if samples.len() == WINDOW_CAP {
        samples.drop_first().push(sample)
    } else {
        samples.push(sample)
    }
}

/// The summary of a window; absent where too few samples are recent.
pub open spec fn summary_of(samples: Seq<PredictionSample>, now: u64) -> Option<TelemetrySummary> {
    if readings(samples, now, Reading::Latency).len() < MIN_SAMPLES {
        None
    } else {
        Some(
            TelemetrySummary {
                queue_wait_p95: percentile_of(readings(samples, now, Reading::QueueWait), 95),
                latency_p95: percentile_of(readings(samples, now, Reading::Latency), 95),
                first_output_p50: percentile_of(readings(samples, now, Reading::FirstOutput), 50),
                first_output_p95: percentile_of(readings(samples, now, Reading::FirstOutput), 95),
                output_interval_p50: percentile_of(
                    readings(samples, now, Reading::OutputInterval),
                    50,
                ),
                output_interval_p95: percentile_of(
                    readings(samples, now, Reading::OutputInterval),
                    95,
                ),
            },
        )
    }
}

proof fn lemma_readings_bound(samples: Seq<PredictionSample>, now: u64, reading: Reading)
    ensures
        readings(samples, now, reading).len() <= samples.len(),
    decreases samples.len(),
{
    if samples.len() > 0 {
        lemma_readings_bound(samples.drop_last(), now, reading);
    }
}

impl TelemetryWindow {
    /// The window never exceeds its cap.
    pub closed spec fn wf(&self) -> bool {
        self.samples@.len() <= WINDOW_CAP
    }

    /// The cap on a window's samples.
    pub proof fn law_window_is_capped(&self)
        requires
            self.wf(),
        ensures
            self@.len() <= WINDOW_CAP,
    {
    }

    /// A window without samples.
    pub fn new() -> (r: TelemetryWindow)
        ensures
            r.wf(),
            r@ == Seq::<PredictionSample>::empty(),
    {
        TelemetryWindow { samples: VecDeque::new() }
    }

    /// Number of samples held.
    pub fn len(&self) -> (r: usize)
        ensures
            r == self@.len(),
    {
        self.samples.len()
    }

    /// Appends a sample, evicting the oldest past the cap.
    pub fn record(&mut self, sample: PredictionSample)
        requires
            old(self).wf(),
        ensures
            final(self).wf(),
            final(self)@ == recorded(old(self)@, sample),
    {
        if self.samples.len() == WINDOW_CAP {
            let oldest: Option<PredictionSample> = self.samples.pop_front();
            assert(self.samples@ =~= old(self)@.drop_first());
        }
        self.samples.push_back(sample);
    }

    /// What the recent samples contribute to a reading.
    fn read(&self, now: u64, reading: Reading) -> (r: Vec<u128>)
        requires
            self.wf(),
        ensures
            r@ == readings(self@, now, reading),
            r@.len() <= WINDOW_CAP,
    {
        let mut values: Vec<u128> = Vec::new();
        let mut i: usize = 0;
        while i < self.samples.len()
            invariant
                i <= self.samples@.len(),
                values@ == readings(self.samples@.take(i as int), now, reading),
            decreases self.samples@.len() - i,
        {
            let sample: PredictionSample = self.samples[i];
            assert(self.samples@.take(i + 1).drop_last() =~= self.samples@.take(i as int));
            if now <= sample.at || now - sample.at <= WINDOW_HORIZON {
                let value: Option<u128> = match reading {
                    Reading::QueueWait => Some(sample.queue_wait),
                    Reading::Latency => Some(sample.latency),
                    Reading::FirstOutput => match sample.detail {
                        SampleDetail::Llm { first_output, .. } => Some(first_output),
                        SampleDetail::Stream { first_output } => Some(first_output),
                        _ => None,
                    },
                    Reading::OutputInterval => match sample.detail {
                        SampleDetail::Llm { output_interval, .. } => output_interval,
                        _ => None,
                    },
                };
                match value {
                    Some(value) => values.push(value),
                    None => {},
                }
            }
            i = i + 1;
        }
        proof {
            assert(self.samples@.take(self.samples@.len() as int) =~= self.samples@);
            lemma_readings_bound(self@, now, reading);
        }
        values
    }

    /// Percentiles over the recent samples; absent where there are too few.
    pub fn summarize(&self, now: u64) -> (r: Option<TelemetrySummary>)
        requires
            self.wf(),
        ensures
            r == summary_of(self@, now),
    {
        let latencies: Vec<u128> = self.read(now, Reading::Latency);
        if latencies.len() < MIN_SAMPLES {
            return None;
        }
        let queue_waits: Vec<u128> = self.read(now, Reading::QueueWait);
        let first_outputs: Vec<u128> = self.read(now, Reading::FirstOutput);
        let output_intervals: Vec<u128> = self.read(now, Reading::OutputInterval);
        Some(
            TelemetrySummary {
                queue_wait_p95: percentile(&queue_waits, 95),
                latency_p95: percentile(&latencies, 95),
                first_output_p50: percentile(&first_outputs, 50),
                first_output_p95: percentile(&first_outputs, 95),
                output_interval_p50: percentile(&output_intervals, 50),
                output_interval_p95: percentile(&output_intervals, 95),
            },
        )
    }
}

/// The first chunk's share of the tokens: the mean per chunk, rounded up.
pub open spec fn first_share(tokens: u64, chunks: u64) -> int {
    if tokens % chunks == 0 {
        (tokens / chunks) as int
    } else {
        tokens / chunks + 1
    }
}

/// The tokens that came after the first chunk.
pub open spec fn tokens_after_first(tokens: u64, chunks: u64) -> int {
    tokens - first_share(tokens, chunks)
}

/// Whether a span can be normalized: there is one, and tokens came after the
/// first chunk.
pub open spec fn has_interval(tokens: u64, chunks: u64) -> bool {
    chunks >= 2 && tokens > 0 && tokens_after_first(tokens, chunks) > 0
}

/// The time per token: the span divided by the tokens after the first chunk.
pub open spec fn interval_of(span: u128, tokens: u64, chunks: u64) -> Option<u128> {
    if has_interval(tokens, chunks) {
        Some((span as int / tokens_after_first(tokens, chunks)) as u128)
    } else {
        None
    }
}

proof fn lemma_first_share(tokens: u64, chunks: u64)
    requires
        chunks >= 2,
        tokens > 0,
    ensures
        0 < first_share(tokens, chunks) <= tokens,
{
    let t = tokens as int;
    let c = chunks as int;
    assert(t / c * 2 <= t && t / c >= 0 && (t % c == 0 ==> t / c >= 1)) by (nonlinear_arith)
        requires
            c >= 2,
            t > 0,
    ;
}

/// Time per token that does not depend on how tokens are grouped into chunks:
/// the span from the first to the last chunk, divided by the tokens delivered
/// after the first one. The first chunk's share is not known; it is estimated
/// as the mean number of tokens per chunk.
pub fn normalize_interval(span: u128, completion_tokens: u64, content_chunks: u64) -> (r: Option<
    u128,
>)
    ensures
        r == interval_of(span, completion_tokens, content_chunks),
{
    if content_chunks < 2 || completion_tokens == 0 {
        return None;
    }
    proof {
        lemma_first_share(completion_tokens, content_chunks);
    }
    let whole: u64 = completion_tokens / content_chunks;
    let per_chunk: u64 = if completion_tokens % content_chunks == 0 {
        whole
    } else {
        whole + 1
    };
    let after_first: u64 = completion_tokens - per_chunk;
    if after_first == 0 {
        return None;
    }
    let ghost d = after_first as int;
    assert(span as int / d <= span) by (nonlinear_arith)
        requires
            d >= 1,
    ;
    Some(span / after_first as u128)
}

/// Per-model counters shared between the dispatcher and status reporting.
/// Running counters wrap around.
#[derive(Debug)]
pub struct ModelStats {
    /// Predictions completed over the model's lifetime.
    pub total_predictions: u64,
    /// Requests waiting in the dispatch queue.
    pub queue_depth: u32,
    /// Windowed timing samples.
    pub telemetry: TelemetryWindow,
    /// Load duration in microseconds, with every resource already on disk.
    pub load_time_us: u64,
    /// Duration in nanoseconds of the download that preceded the load.
    pub download_time_ns: u64,
    /// Sum of prediction latencies in microseconds.
    pub latency_sum_us: u64,
    /// Number of latencies summed.
    pub latency_count: u64,
    /// Estimated memory used by the model in megabytes; zero if not measured.
    pub memory_mb: u64,
}

/// A counter one further, wrapping around.
pub open spec fn counted(n: u64) -> u64 {
    if n == u64::MAX {
        0
    } else {
        (n + 1) as u64
    }
}

/// The sum of two counters, wrapping around.
pub open spec fn wrapped_sum(a: u64, b: u64) -> u64 {
    if a + b > u64::MAX {
        (a + b - 0x1_0000_0000_0000_0000) as u64
    } else {
        (a + b) as u64
    }
}

impl ModelStats {
    /// Counters at zero.
    pub fn new() -> (r: ModelStats)
        ensures
            r.telemetry.wf(),
            r.telemetry@ == Seq::<PredictionSample>::empty(),
            r.total_predictions == 0,
            r.queue_depth == 0,
            r.load_time_us == 0,
            r.download_time_ns == 0,
            r.latency_sum_us == 0,
            r.latency_count == 0,
            r.memory_mb == 0,
    {
        ModelStats {
            total_predictions: 0,
            queue_depth: 0,
            telemetry: TelemetryWindow::new(),
            load_time_us: 0,
            download_time_ns: 0,
            latency_sum_us: 0,
            latency_count: 0,
            memory_mb: 0,
        }
    }

    /// Stores the duration of the model load.
    pub fn record_load_time(&mut self, elapsed: u128)
        ensures
            *final(self) == (ModelStats {
                load_time_us: (elapsed / 1000) as u64,
                ..*old(self)
            }),
    {
        self.load_time_us = #[verifier::truncate] ((elapsed / 1000) as u64);
    }

    /// Stores the duration of the download that preceded the load.
    pub fn record_download_time(&mut self, elapsed: u128)
        ensures
            *final(self) == (ModelStats { download_time_ns: elapsed as u64, ..*old(self) }),
    {
        self.download_time_ns = #[verifier::truncate] (elapsed as u64);
    }

    /// Adds one prediction's latency and counts it.
    pub fn record_latency(&mut self, elapsed: u128)
        ensures
            *final(self) == (ModelStats {
                latency_sum_us: wrapped_sum(old(self).latency_sum_us, (elapsed / 1000) as u64),
                latency_count: counted(old(self).latency_count),
                total_predictions: counted(old(self).total_predictions),
                ..*old(self)
            }),
    {
        let micros: u64 = #[verifier::truncate] ((elapsed / 1000) as u64);
        self.latency_sum_us = self.latency_sum_us.wrapping_add(micros);
        self.latency_count = self.latency_count.wrapping_add(1);
        self.total_predictions = self.total_predictions.wrapping_add(1);
    }

    /// Counts a request into the dispatch queue.
    pub fn enqueue(&mut self)
        ensures
            *final(self) == (ModelStats {
                queue_depth: if old(self).queue_depth == u32::MAX {
                    0
                } else {
                    (old(self).queue_depth + 1) as u32
                },
                ..*old(self)
            }),
    {
        self.queue_depth = self.queue_depth.wrapping_add(1);
    }

    /// Counts a request out of the dispatch queue.
    pub fn dequeue(&mut self)
        ensures
            *final(self) == (ModelStats {
                queue_depth: if old(self).queue_depth == 0 {
                    u32::MAX
                } else {
                    (old(self).queue_depth - 1) as u32
                },
                ..*old(self)
            }),
    {
        self.queue_depth = self.queue_depth.wrapping_sub(1);
    }

    /// The sum of latencies in microseconds and how many they are; absent
    /// where there is none, so that their mean is defined.
    pub fn latency_total(&self) -> (r: Option<(u64, u64)>)
        ensures
            r == (if self.latency_count == 0 {
                None
            } else {
                Some((self.latency_sum_us, self.latency_count))
            }),
    {
        if self.latency_count == 0 {
            None
        } else {
            Some((self.latency_sum_us, self.latency_count))
        }
    }

    /// Stores the memory measured over the load, in megabytes.
    pub fn record_vram(&mut self, mb: u64)
        ensures
            *final(self) == (ModelStats { memory_mb: mb, ..*old(self) }),
    {
        self.memory_mb = mb;
    }

    /// The estimated memory use in megabytes, if measured.
    pub fn vram_mb(&self) -> (r: Option<u64>)
        ensures
            r == (if self.memory_mb > 0 {
                Some(self.memory_mb)
            } else {
                None
            }),
    {
        if self.memory_mb > 0 {
            Some(self.memory_mb)
        } else {
            None
        }
    }
}

/// Which stream surface a meter measures.
#[derive(Clone, Copy, Debug, PartialEq, Eq, Structural)]
pub enum StreamKind {
    /// Chat stream: chunks carry tokens.
    Llm,
    /// Raw prediction stream: frames are opaque.
    Raw,
}

/// Accumulator carried through a streaming response.
#[derive(Clone, Copy, Debug)]
pub struct StreamMeter {
    pub kind: StreamKind,
    pub queue_wait: u128,
    pub started: u64,
    pub first_content_at: Option<u64>,
    pub last_output_at: Option<u64>,
    pub content_chunks: u64,
    pub completion_tokens: Option<u64>,
}

/// The time from one clock reading to another; zero if they are reversed.
pub open spec fn elapsed_between(from: u64, to: u64) -> u128 {
    if from <= to {
        (to - from) as u128
    } else {
        0
    }
}

/// The sample that a stream leaves behind; none where it produced no content.
pub open spec fn stream_sample(meter: StreamMeter, now: u64) -> Option<PredictionSample> {
    match (meter.first_content_at, meter.last_output_at) {
        (Some(first), Some(last)) => Some(
            PredictionSample {
                at: now,
                queue_wait: meter.queue_wait,
                latency: elapsed_between(meter.started, last),
                detail: match meter.kind {
                    StreamKind::Raw => SampleDetail::Stream {
                        first_output: elapsed_between(meter.started, first),
                    },
                    StreamKind::Llm => SampleDetail::Llm {
                        first_output: elapsed_between(meter.started, first),
                        output_interval: match meter.completion_tokens {
                            Some(tokens) => interval_of(
                                elapsed_between(first, last),
                                tokens,
                                meter.content_chunks,
                            ),
                            None => None,
                        },
                    },
                },
            },
        ),
        _ => None,
    }
}

/// The time from one clock reading to another.
pub fn elapsed(from: u64, to: u64) -> (r: u128)
    ensures
        r == elapsed_between(from, to),
{
    if from <= to {
        (to - from) as u128
    } else {
        0
    }
}

/// The sample of a prediction that was not streamed. It has no time to a first
/// output: a whole response must not weigh on that percentile.
pub open spec fn unary(admitted: u64, dispatched: u64, now: u64) -> PredictionSample {
    PredictionSample {
        at: now,
        queue_wait: elapsed_between(admitted, dispatched),
        latency: elapsed_between(dispatched, now),
        detail: SampleDetail::Unary,
    }
}

/// The sample of a prediction that was not streamed.
pub fn unary_sample(admitted: u64, dispatched: u64, now: u64) -> (r: PredictionSample)
    ensures
        r == unary(admitted, dispatched, now),
{
    PredictionSample {
        at: now,
        queue_wait: elapsed(admitted, dispatched),
        latency: elapsed(dispatched, now),
        detail: SampleDetail::Unary,
    }
}

impl StreamMeter {
    /// Starts metering at dispatch.
    pub fn new(kind: StreamKind, queue_wait: u128, started: u64) -> (r: StreamMeter)
        ensures
            r == (StreamMeter {
                kind,
                queue_wait,
                started,
                first_content_at: None,
                last_output_at: None,
                content_chunks: 0,
                completion_tokens: None,
            }),
    {
        StreamMeter {
            kind,
            queue_wait,
            started,
            first_content_at: None,
            last_output_at: None,
            content_chunks: 0,
            completion_tokens: None,
        }
    }

    /// Stamps one frame. Only content-bearing frames anchor the first output.
    pub fn on_output(&mut self, content: bool, now: u64)
        requires
            content ==> old(self).content_chunks < u64::MAX,
        ensures
            *final(self) == (StreamMeter {
                last_output_at: Some(now),
                content_chunks: if content {
                    (old(self).content_chunks + 1) as u64
                } else {
                    old(self).content_chunks
                },
                first_content_at: if content && old(self).first_content_at is None {
                    Some(now)
                } else {
                    old(self).first_content_at
                },
                ..*old(self)
            }),
    {
        self.last_output_at = Some(now);
        if content {
            self.content_chunks = self.content_chunks + 1;
            if self.first_content_at.is_none() {
                self.first_content_at = Some(now);
            }
        }
    }

    /// Notes the token count of the terminal usage frame.
    pub fn on_usage(&mut self, completion_tokens: u64)
        ensures
            *final(self) == (StreamMeter {
                completion_tokens: Some(completion_tokens),
                ..*old(self)
            }),
    {
        self.completion_tokens = Some(completion_tokens);
    }

    /// The sample of a stream that ended, or whose client left. A stream
    /// without output leaves none: failures must not pollute percentiles.
    pub fn finish(&self, now: u64) -> (r: Option<PredictionSample>)
        ensures
            r == stream_sample(*self, now),
    {
        match (self.first_content_at, self.last_output_at) {
            (Some(first), Some(last)) => {
                let first_output: u128 = elapsed(self.started, first);
                let detail: SampleDetail = match self.kind {
                    StreamKind::Raw => SampleDetail::Stream { first_output },
                    StreamKind::Llm => {
                        let output_interval: Option<u128> = match self.completion_tokens {
                            Some(tokens) => normalize_interval(
                                elapsed(first, last),
                                tokens,
                                self.content_chunks,
                            ),
                            None => None,
                        };
                        SampleDetail::Llm { first_output, output_interval }
                    },
                };
                Some(
                    PredictionSample {
                        at: now,
                        queue_wait: self.queue_wait,
                        latency: elapsed(self.started, last),
                        detail,
                    },
                )
            },
            _ => None,
        }
    }
}

/// A percentile is one of the values.
pub proof fn law_percentile_is_a_value(values: Seq<u128>, percent: nat)
    requires
        values.len() >= MIN_SAMPLES,
        percent <= 100,
    ensures
        percentile_of(values, percent) matches Some(v) && values.contains(v),
{
    order::lemma_sorted_numbers(values);
    let n = values.len() as int;
    let p = percent as int;
    assert(0 <= (n - 1) * p <= (n - 1) * 100) by (nonlinear_arith)
        requires
            n >= 1,
            0 <= p <= 100,
    ;
    let sorted = order::sorted_numbers(values);
    let v = sorted[rank(values.len(), percent)];
    assert(sorted.contains(v));
    sorted.to_multiset_ensures();
    values.to_multiset_ensures();
    assert(sorted.to_multiset().count(v) > 0);
}

/// Percentiles do not decrease with the percentage.
pub proof fn law_percentiles_are_monotone(values: Seq<u128>, low: nat, high: nat)
    requires
        values.len() >= MIN_SAMPLES,
        low <= high <= 100,
    ensures
        percentile_of(values, low)->0 <= percentile_of(values, high)->0,
{
    order::lemma_sorted_numbers(values);
    let n = values.len() as int;
    let a = low as int;
    let b = high as int;
    assert(0 <= (n - 1) * a <= (n - 1) * b <= (n - 1) * 100) by (nonlinear_arith)
        requires
            n >= 1,
            0 <= a <= b <= 100,
    ;
    let sorted = order::sorted_numbers(values);
    let i = rank(values.len(), low);
    let j = rank(values.len(), high);
    if i < j {
        assert(order::by_number()(sorted[i], sorted[j]));
    }
}

/// Samples past the horizon do not affect a summary: with older ones in front,
/// it is that of the rest.
pub proof fn law_stale_samples_are_ignored(
    stale: Seq<PredictionSample>,
    rest: Seq<PredictionSample>,
    now: u64,
)
    requires
        forall|i: int| 0 <= i < stale.len() ==> !is_recent(#[trigger] stale[i], now),
    ensures
        summary_of(stale + rest, now) == summary_of(rest, now),
{
    lemma_stale(stale, rest, now, Reading::QueueWait);
    lemma_stale(stale, rest, now, Reading::Latency);
    lemma_stale(stale, rest, now, Reading::FirstOutput);
    lemma_stale(stale, rest, now, Reading::OutputInterval);
}

proof fn lemma_stale(
    stale: Seq<PredictionSample>,
    rest: Seq<PredictionSample>,
    now: u64,
    reading: Reading,
)
    requires
        forall|i: int| 0 <= i < stale.len() ==> !is_recent(#[trigger] stale[i], now),
    ensures
        readings(stale + rest, now, reading) == readings(rest, now, reading),
    decreases stale.len() + rest.len(),
{
    if rest.len() > 0 {
        assert((stale + rest).drop_last() =~= stale + rest.drop_last());
        lemma_stale(stale, rest.drop_last(), now, reading);
    } else if stale.len() > 0 {
        assert(stale + rest =~= stale);
        assert(!is_recent(stale[stale.len() - 1], now));
        let before = stale.drop_last();
        assert forall|i: int| 0 <= i < before.len() implies !is_recent(#[trigger] before[i], now) by {
            assert(!is_recent(stale[i], now));
        }
        lemma_stale(before, rest, now, reading);
        assert(before + rest =~= before);
    }
}

/// A summary never reports streaming percentiles of models that do not stream.
pub proof fn law_unary_samples_have_no_stream_fields(samples: Seq<PredictionSample>, now: u64)
    requires
        forall|i: int|
            0 <= i < samples.len() ==> ((#[trigger] samples[i]).detail is Unary
                || samples[i].detail is Image),
    ensures
        summary_of(samples, now) matches Some(summary) ==> summary.first_output_p50 is None
            && summary.first_output_p95 is None && summary.output_interval_p50 is None
            && summary.output_interval_p95 is None,
{
    lemma_no_stream_readings(samples, now);
}

proof fn lemma_no_stream_readings(samples: Seq<PredictionSample>, now: u64)
    requires
        forall|i: int|
            0 <= i < samples.len() ==> ((#[trigger] samples[i]).detail is Unary
                || samples[i].detail is Image),
    ensures
        readings(samples, now, Reading::FirstOutput).len() == 0,
        readings(samples, now, Reading::OutputInterval).len() == 0,
    decreases samples.len(),
{
    if samples.len() > 0 {
        let last = samples[samples.len() - 1];
        assert(last.detail is Unary || last.detail is Image);
        let before = samples.drop_last();
        assert forall|i: int| 0 <= i < before.len() implies ((#[trigger] before[i]).detail is Unary
            || before[i].detail is Image) by {
            assert(samples[i].detail is Unary || samples[i].detail is Image);
        }
        lemma_no_stream_readings(before, now);
    }
}

/// How many numbers there are of a kind.
pub open spec fn how_many(values: Seq<u128>, of: spec_fn(u128) -> bool) -> nat
    decreases values.len(),
{
    if values.len() == 0 {
        0
    } else {
        how_many(values.drop_last(), of) + if of(values.last()) {
            1nat
        } else {
            0nat
        }
    }
}

/// Whether `value` is the percentile of `n` numbers by nearest rank, where `below`
/// of them are less and `upto` are no greater: the rank is the integer nearest to
/// the percentage of the last position, a half rounded up, and the number that
/// stands there when they are in order is the value.
pub open spec fn is_nearest_rank(n: int, below: int, upto: int, percent: int) -> bool {
    exists|k: int| below <= k < upto && -50 < #[trigger] (100 * k) - (n - 1) * percent <= 50
}

/// A percentile stands at the nearest rank: as many numbers are less as the rank
/// leaves room for, and the numbers that are no greater reach past it. It is
/// absent exactly where there are fewer than five.
pub proof fn law_percentile_is_the_nearest_rank(values: Seq<u128>, percent: nat)
    requires
        percent <= 100,
    ensures
        percentile_of(values, percent) is None <==> values.len() < 5,
        percentile_of(values, percent) matches Some(v) ==> is_nearest_rank(
            values.len() as int,
            how_many(values, |x: u128| x < v) as int,
            how_many(values, |x: u128| x <= v) as int,
            percent as int,
        ),
{
    if values.len() >= 5 {
        order::lemma_sorted_numbers(values);
        let n = values.len() as int;
        let p = percent as int;
        assert(0 <= (n - 1) * p <= (n - 1) * 100) by (nonlinear_arith)
            requires
                n >= 1,
                0 <= p <= 100,
        ;
        let sorted = order::sorted_numbers(values);
        let k = rank(values.len(), percent);
        let v = sorted[k];
        let less = |x: u128| x < v;
        let upto = |x: u128| x <= v;
        lemma_same_numbers(values, sorted, less);
        lemma_same_numbers(values, sorted, upto);
        assert forall|i: int| 0 <= i < sorted.len() implies (i < k ==> #[trigger] sorted[i] <= v)
            && (i > k ==> sorted[i] >= v) by {
            if i < k {
                assert(order::by_number()(sorted[i], sorted[k]));
            } else if i > k {
                assert(order::by_number()(sorted[k], sorted[i]));
            }
        }
        lemma_no_more(sorted, less, k);
        lemma_no_fewer(sorted, upto, k + 1);
        assert(-50 < 100 * k - (n - 1) * p <= 50);
    }
}

proof fn lemma_no_more(values: Seq<u128>, of: spec_fn(u128) -> bool, k: int)
    requires
        0 <= k,
        forall|i: int| k <= i < values.len() ==> !of(#[trigger] values[i]),
    ensures
        how_many(values, of) <= k,
    decreases values.len(),
{
    if values.len() > k {
        let before = values.drop_last();
        assert forall|i: int| k <= i < before.len() implies !of(#[trigger] before[i]) by {
            assert(!of(values[i]));
        }
        lemma_no_more(before, of, k);
        assert(!of(values[values.len() - 1]));
    } else if values.len() > 0 {
        lemma_no_more(values.drop_last(), of, k - 1);
    }
}

proof fn lemma_no_fewer(values: Seq<u128>, of: spec_fn(u128) -> bool, k: int)
    requires
        k <= values.len(),
        forall|i: int| 0 <= i < k ==> of(#[trigger] values[i]),
    ensures
        how_many(values, of) >= k,
    decreases values.len(),
{
    if values.len() > 0 {
        let before = values.drop_last();
        let room: int = if k <= before.len() {
            k
        } else {
            k - 1
        };
        assert forall|i: int| 0 <= i < room implies of(#[trigger] before[i]) by {
            assert(of(values[i]));
        }
        lemma_no_fewer(before, of, room);
        if k == values.len() {
            assert(of(values[k - 1]));
        }
    }
}

proof fn lemma_same_numbers(a: Seq<u128>, b: Seq<u128>, of: spec_fn(u128) -> bool)
    requires
        a.to_multiset() == b.to_multiset(),
    ensures
        how_many(a, of) == how_many(b, of),
    decreases a.len(),
{
    a.to_multiset_ensures();
    b.to_multiset_ensures();
    assert(a.len() == a.to_multiset().len());
    assert(b.len() == b.to_multiset().len());
    if a.len() > 0 {
        let x = a.last();
        let before = a.drop_last();
        assert(a.contains(x));
        assert(a.to_multiset().count(x) > 0);
        assert(b.contains(x));
        let i = b.index_of(x);
        let rest = b.remove(i);
        assert(b[i] == x);
        assert(a.remove(a.len() - 1) =~= before);
        assert(before.to_multiset() =~= a.to_multiset().remove(x));
        assert(rest.to_multiset() =~= b.to_multiset().remove(x));
        lemma_same_numbers(before, rest, of);
        lemma_without(b, i, of);
    }
}

proof fn lemma_without(values: Seq<u128>, i: int, of: spec_fn(u128) -> bool)
    requires
        0 <= i < values.len(),
    ensures
        how_many(values, of) == how_many(values.remove(i), of) + if of(values[i]) {
            1nat
        } else {
            0nat
        },
    decreases values.len(),
{
    if i == values.len() - 1 {
        assert(values.remove(i) =~= values.drop_last());
    } else {
        lemma_without(values.drop_last(), i, of);
        assert(values.remove(i).drop_last() =~= values.drop_last().remove(i));
        assert(values.remove(i).last() == values.last());
    }
}

/// How many recent samples have a reading of a kind. Recent is what is no older
/// than five minutes.
pub open spec fn how_many_recent(
    samples: Seq<PredictionSample>,
    now: u64,
    read: spec_fn(PredictionSample) -> Option<u128>,
    of: spec_fn(u128) -> bool,
) -> nat
    decreases samples.len(),
{
    if samples.len() == 0 {
        0
    } else {
        let last = samples.last();
        how_many_recent(samples.drop_last(), now, read, of) + if now <= last.at + 300_000_000_000
            && (read(last) matches Some(v) && of(v)) {
            1nat
        } else {
            0nat
        }
    }
}

/// Whether a field is the percentile of a reading of the recent samples: absent
/// where fewer than five have that reading, and otherwise the reading at the
/// nearest rank.
pub open spec fn is_percentile(
    field: Option<u128>,
    samples: Seq<PredictionSample>,
    now: u64,
    read: spec_fn(PredictionSample) -> Option<u128>,
    percent: int,
) -> bool {
    let n = how_many_recent(samples, now, read, |x: u128| true) as int;
    &&& field is None <==> n < 5
    &&& field matches Some(v) ==> is_nearest_rank(
        n,
        how_many_recent(samples, now, read, |x: u128| x < v) as int,
        how_many_recent(samples, now, read, |x: u128| x <= v) as int,
        percent,
    )
}

/// Each field of a summary is a percentile of its own reading: the wait in the
/// queue, the latency, the time to the first output of a stream or a chat, and the
/// time between the outputs of a chat.
pub proof fn law_summary_fields_are_percentiles(samples: Seq<PredictionSample>, now: u64)
    ensures
        summary_of(samples, now) is None <==> how_many_recent(
            samples,
            now,
            |x: PredictionSample| Some(x.latency),
            |x: u128| true,
        ) < 5,
        summary_of(samples, now) matches Some(summary) ==> {
            let first = |x: PredictionSample|
                match x.detail {
                    SampleDetail::Llm { first_output, .. } => Some(first_output),
                    SampleDetail::Stream { first_output } => Some(first_output),
                    _ => None,
                };
            let interval = |x: PredictionSample|
                match x.detail {
                    SampleDetail::Llm { output_interval, .. } => output_interval,
                    _ => None,
                };
            &&& is_percentile(
                summary.queue_wait_p95,
                samples,
                now,
                |x: PredictionSample| Some(x.queue_wait),
                95,
            )
            &&& is_percentile(
                summary.latency_p95,
                samples,
                now,
                |x: PredictionSample| Some(x.latency),
                95,
            )
            &&& is_percentile(summary.first_output_p50, samples, now, first, 50)
            &&& is_percentile(summary.first_output_p95, samples, now, first, 95)
            &&& is_percentile(summary.output_interval_p50, samples, now, interval, 50)
            &&& is_percentile(summary.output_interval_p95, samples, now, interval, 95)
        },
{
    let wait = |x: PredictionSample| Some(x.queue_wait);
    let latency = |x: PredictionSample| Some(x.latency);
    let first = |x: PredictionSample|
        match x.detail {
            SampleDetail::Llm { first_output, .. } => Some(first_output),
            SampleDetail::Stream { first_output } => Some(first_output),
            _ => None,
        };
    let interval = |x: PredictionSample|
        match x.detail {
            SampleDetail::Llm { output_interval, .. } => output_interval,
            _ => None,
        };
    lemma_field(samples, now, Reading::QueueWait, wait, 95);
    lemma_field(samples, now, Reading::Latency, latency, 95);
    lemma_field(samples, now, Reading::FirstOutput, first, 50);
    lemma_field(samples, now, Reading::FirstOutput, first, 95);
    lemma_field(samples, now, Reading::OutputInterval, interval, 50);
    lemma_field(samples, now, Reading::OutputInterval, interval, 95);
}

proof fn lemma_field(
    samples: Seq<PredictionSample>,
    now: u64,
    reading: Reading,
    read: spec_fn(PredictionSample) -> Option<u128>,
    percent: nat,
)
    requires
        percent <= 100,
        forall|x: PredictionSample| #[trigger] read(x) == reading_of(x, reading),
    ensures
        is_percentile(
            percentile_of(readings(samples, now, reading), percent),
            samples,
            now,
            read,
            percent as int,
        ),
        readings(samples, now, reading).len() == how_many_recent(
            samples,
            now,
            read,
            |x: u128| true,
        ),
{
    let values = readings(samples, now, reading);
    let field = percentile_of(values, percent);
    let all = |x: u128| true;
    law_percentile_is_the_nearest_rank(values, percent);
    lemma_readings_counted(samples, now, reading, read, all);
    lemma_no_fewer(values, all, values.len() as int);
    lemma_no_more(values, all, values.len() as int);
    if let Some(v) = field {
        lemma_readings_counted(samples, now, reading, read, |x: u128| x < v);
        lemma_readings_counted(samples, now, reading, read, |x: u128| x <= v);
    }
}

proof fn lemma_readings_counted(
    samples: Seq<PredictionSample>,
    now: u64,
    reading: Reading,
    read: spec_fn(PredictionSample) -> Option<u128>,
    of: spec_fn(u128) -> bool,
)
    requires
        forall|x: PredictionSample| #[trigger] read(x) == reading_of(x, reading),
    ensures
        how_many(readings(samples, now, reading), of) == how_many_recent(samples, now, read, of),
    decreases samples.len(),
{
    if samples.len() > 0 {
        let before = readings(samples.drop_last(), now, reading);
        lemma_readings_counted(samples.drop_last(), now, reading, read, of);
        assert(read(samples.last()) == reading_of(samples.last(), reading));
        if let Some(v) = reading_of(samples.last(), reading) {
            assert(before.push(v).drop_last() =~= before);
        }
    }
}

/// What a summary says happened: each field is that reading of some recent sample.
pub proof fn law_summary_values_were_sampled(samples: Seq<PredictionSample>, now: u64)
    ensures
        summary_of(samples, now) matches Some(summary) ==> {
            &&& exists|i: int|
                0 <= i < samples.len() && now <= (#[trigger] samples[i]).at + 300_000_000_000
                    && summary.queue_wait_p95 == Some(samples[i].queue_wait)
            &&& exists|i: int|
                0 <= i < samples.len() && now <= (#[trigger] samples[i]).at + 300_000_000_000
                    && summary.latency_p95 == Some(samples[i].latency)
            &&& summary.first_output_p50 matches Some(v) ==> exists|i: int|
                0 <= i < samples.len() && now <= (#[trigger] samples[i]).at + 300_000_000_000
                    && first_output(samples[i]) == Some(v)
            &&& summary.first_output_p95 matches Some(v) ==> exists|i: int|
                0 <= i < samples.len() && now <= (#[trigger] samples[i]).at + 300_000_000_000
                    && first_output(samples[i]) == Some(v)
            &&& summary.output_interval_p50 matches Some(v) ==> exists|i: int|
                0 <= i < samples.len() && now <= (#[trigger] samples[i]).at + 300_000_000_000 && (
                samples[i].detail matches SampleDetail::Llm { output_interval, .. }
                    && output_interval == Some(v))
            &&& summary.output_interval_p95 matches Some(v) ==> exists|i: int|
                0 <= i < samples.len() && now <= (#[trigger] samples[i]).at + 300_000_000_000 && (
                samples[i].detail matches SampleDetail::Llm { output_interval, .. }
                    && output_interval == Some(v))
        },
{
    if let Some(summary) = summary_of(samples, now) {
        lemma_one_value_each(samples, now);
        lemma_field_was_sampled(samples, now, Reading::QueueWait, 95);
        lemma_field_was_sampled(samples, now, Reading::Latency, 95);
        lemma_field_was_sampled(samples, now, Reading::FirstOutput, 50);
        lemma_field_was_sampled(samples, now, Reading::FirstOutput, 95);
        lemma_field_was_sampled(samples, now, Reading::OutputInterval, 50);
        lemma_field_was_sampled(samples, now, Reading::OutputInterval, 95);
    }
}

/// Where the recent samples agree on a wait, the summary's wait is that, whatever
/// their latencies; and the other way round.
pub proof fn law_equal_readings_are_summarized(
    samples: Seq<PredictionSample>,
    now: u64,
    value: u128,
)
    ensures
        summary_of(samples, now) matches Some(summary) ==> {
            &&& (forall|i: int|
                0 <= i < samples.len() && now <= (#[trigger] samples[i]).at + 300_000_000_000
                    ==> samples[i].queue_wait == value) ==> summary.queue_wait_p95 == Some(value)
            &&& (forall|i: int|
                0 <= i < samples.len() && now <= (#[trigger] samples[i]).at + 300_000_000_000
                    ==> samples[i].latency == value) ==> summary.latency_p95 == Some(value)
        },
{
    law_summary_values_were_sampled(samples, now);
}

/// The time to the first output of a sample that has one.
pub open spec fn first_output(sample: PredictionSample) -> Option<u128> {
    match sample.detail {
        SampleDetail::Llm { first_output, .. } => Some(first_output),
        SampleDetail::Stream { first_output } => Some(first_output),
        _ => None,
    }
}

proof fn lemma_one_value_each(samples: Seq<PredictionSample>, now: u64)
    ensures
        readings(samples, now, Reading::QueueWait).len() == readings(
            samples,
            now,
            Reading::Latency,
        ).len(),
    decreases samples.len(),
{
    if samples.len() > 0 {
        lemma_one_value_each(samples.drop_last(), now);
    }
}

proof fn lemma_field_was_sampled(
    samples: Seq<PredictionSample>,
    now: u64,
    reading: Reading,
    percent: nat,
)
    requires
        percent <= 100,
    ensures
        percentile_of(readings(samples, now, reading), percent) matches Some(v) ==> exists|i: int|
            0 <= i < samples.len() && now <= (#[trigger] samples[i]).at + 300_000_000_000
                && reading_of(samples[i], reading) == Some(v),
{
    let values = readings(samples, now, reading);
    if let Some(v) = percentile_of(values, percent) {
        law_percentile_is_a_value(values, percent);
        lemma_reading_was_sampled(samples, now, reading, v);
    }
}

proof fn lemma_reading_was_sampled(
    samples: Seq<PredictionSample>,
    now: u64,
    reading: Reading,
    v: u128,
)
    requires
        readings(samples, now, reading).contains(v),
    ensures
        exists|i: int|
            0 <= i < samples.len() && now <= (#[trigger] samples[i]).at + 300_000_000_000
                && reading_of(samples[i], reading) == Some(v),
    decreases samples.len(),
{
    if samples.len() > 0 {
        let before = samples.drop_last();
        let last = samples[samples.len() - 1];
        if now <= last.at + 300_000_000_000 && reading_of(last, reading) == Some(v) {
        } else {
            let values = readings(samples, now, reading);
            let at = choose|at: int| 0 <= at < values.len() && values[at] == v;
            let earlier = readings(before, now, reading);
            assert(at < earlier.len() && earlier[at] == v);
            lemma_reading_was_sampled(before, now, reading, v);
            let i = choose|i: int|
                0 <= i < before.len() && now <= (#[trigger] before[i]).at + 300_000_000_000
                    && reading_of(before[i], reading) == Some(v);
            assert(samples[i] == before[i]);
        }
    }
}

/// A window after some samples, recorded one after another into an empty one.
pub open spec fn recorded_all(samples: Seq<PredictionSample>) -> Seq<PredictionSample>
    decreases samples.len(),
{
    if samples.len() == 0 {
        Seq::empty()
    } else {
        recorded(recorded_all(samples.drop_last()), samples.last())
    }
}

/// A window holds the latest samples in the order in which they came: all of them
/// up to the cap, and the last of them past it.
pub proof fn law_window_keeps_the_latest(samples: Seq<PredictionSample>)
    ensures
        samples.len() <= 512 ==> recorded_all(samples) == samples,
        samples.len() > 512 ==> recorded_all(samples) == samples.skip(samples.len() - 512),
    decreases samples.len(),
{
    if samples.len() > 0 {
        law_window_keeps_the_latest(samples.drop_last());
        if samples.len() <= 512 {
            assert(recorded_all(samples) =~= samples);
        } else {
            assert(recorded_all(samples) =~= samples.skip(samples.len() - 512));
        }
    } else {
        assert(recorded_all(samples) =~= samples);
    }
}

/// The time per token is the span, spread over the tokens that came after the
/// first chunk, rounded down. The first chunk's part is the mean number of tokens
/// per chunk, rounded up. It is absent where fewer than two chunks came or no
/// token is left.
pub proof fn law_interval_spreads_the_span(span: u128, tokens: u64, chunks: u64, share: int)
    requires
        chunks > 0 ==> (share - 1) * chunks < tokens <= share * chunks,
    ensures
        interval_of(span, tokens, chunks) is Some <==> chunks >= 2 && tokens > share,
        interval_of(span, tokens, chunks) matches Some(q) ==> q * (tokens - share) <= span < (q + 1)
            * (tokens - share),
{
    if chunks >= 2 && tokens > 0 {
        let c = chunks as int;
        let t = tokens as int;
        let first = first_share(tokens, chunks);
        lemma_first_share(tokens, chunks);
        assert((first - 1) * c < t <= first * c) by (nonlinear_arith)
            requires
                c >= 2,
                t > 0,
                first == (if t % c == 0 {
                    t / c
                } else {
                    t / c + 1
                }),
        ;
        assert(first == share) by (nonlinear_arith)
            requires
                c >= 2,
                (first - 1) * c < t <= first * c,
                (share - 1) * c < t <= share * c,
        ;
        if first < t {
            let d = t - first;
            let q = span as int / d;
            assert(q * d <= span < (q + 1) * d && 0 <= q <= span) by (nonlinear_arith)
                requires
                    d >= 1,
                    span >= 0,
                    q == span as int / d,
            ;
        }
    } else if chunks >= 2 {
        let c = chunks as int;
        assert(share >= 0) by (nonlinear_arith)
            requires
                c >= 2,
                0 <= share * c,
        ;
    }
}

/// A stream leaves a sample exactly where it had content. Its times are those of
/// the clock: the latency runs from the start to the last output and is the time
/// to the first content and what followed it. Only a chat has a time per token.
pub proof fn law_stream_samples_are_timed(meter: StreamMeter, now: u64)
    ensures
        stream_sample(meter, now) is Some <==> meter.first_content_at is Some
            && meter.last_output_at is Some,
        stream_sample(meter, now) matches Some(sample) ==> {
            let first = meter.first_content_at->0;
            let last = meter.last_output_at->0;
            &&& sample.at == now
            &&& sample.queue_wait == meter.queue_wait
            &&& meter.started <= last ==> meter.started + sample.latency == last
            &&& meter.started <= first ==> (first_output(sample) matches Some(d) && meter.started
                + d == first)
            &&& meter.started <= first <= last ==> first_output(sample)->0 + (last - first)
                == sample.latency
            &&& sample.detail is Llm <==> meter.kind is Llm
            &&& sample.detail is Stream <==> meter.kind is Raw
            &&& sample.detail matches SampleDetail::Llm { output_interval, .. } ==> {
                &&& meter.completion_tokens is None ==> output_interval is None
                &&& meter.completion_tokens is Some && first <= last ==> output_interval
                    == interval_of(
                    (last - first) as u128,
                    meter.completion_tokens->0,
                    meter.content_chunks,
                )
            }
        },
{
}

/// The times of a prediction that was not streamed add up: it waited until it was
/// dispatched and ran from there.
pub proof fn law_unary_samples_are_timed(admitted: u64, dispatched: u64, now: u64)
    requires
        admitted <= dispatched <= now,
    ensures
        ({
            let sample = unary(admitted, dispatched, now);
            &&& admitted + sample.queue_wait == dispatched
            &&& dispatched + sample.latency == now
            &&& sample.at == now
            &&& sample.detail is Unary
        }),
{
}

/// A clock that ran backwards gives no time.
pub proof fn law_reversed_clocks_give_zero(from: u64, to: u64)
    ensures
        from <= to ==> from + elapsed_between(from, to) == to,
        to <= from ==> elapsed_between(from, to) == 0,
{
}

/// Counters run on: they are sums modulo their width.
pub proof fn law_counters_wrap(a: u64, b: u64)
    ensures
        wrapped_sum(a, b) == (a + b) % 0x1_0000_0000_0000_0000,
        counted(a) == (a + 1) % 0x1_0000_0000_0000_0000,
        wrapped_sum(a, b) == wrapped_sum(b, a),
        counted(a) == wrapped_sum(a, 1),
{
}

} // verus!
