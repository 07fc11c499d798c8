//! OpenAI-compatible surface: request options, chunk metering, model listing.

use crate::handlers::error;
use crate::handlers::error::AppError;
use crate::serving::registry;
use crate::serving::registry::{ModelRegistry, SECOND};
use crate::serving::stats::StreamMeter;
use crate::text;
use crate::text::{joined, same_text};
use vstd::prelude::*;

verus! {

/// Size of a generated image.
#[derive(Clone, Copy, Debug, PartialEq, Eq, Structural)]
pub enum ImageSize {
    Size256x256,
    Size512x512,
    Size1024x1024,
    Size1536x1024,
    Size1024x1536,
    Size1792x1024,
    Size1024x1792,
}

/// The name of an image size.
pub open spec fn size_name(size: ImageSize) -> Seq<char> {
    match size {
        ImageSize::Size256x256 => "256x256"@,
        ImageSize::Size512x512 => "512x512"@,
        ImageSize::Size1024x1024 => "1024x1024"@,
        ImageSize::Size1536x1024 => "1536x1024"@,
        ImageSize::Size1024x1536 => "1024x1536"@,
        ImageSize::Size1792x1024 => "1792x1024"@,
        ImageSize::Size1024x1792 => "1024x1792"@,
    }
}

/// Reads an image size. No size, or `auto`, leaves the choice to the model; a
/// name of no size is refused.
pub fn parse_size(value: Option<&str>) -> (r: Result<Option<ImageSize>, AppError>)
    ensures
        match value {
            None => r == Ok::<Option<ImageSize>, AppError>(None),
            Some(v) => match r {
                Ok(Some(size)) => v@ == size_name(size),
                Ok(None) => v@ == "auto"@,
                Err(e) => {
                    &&& v@ != "auto"@
                    &&& forall|size: ImageSize| v@ != #[trigger] size_name(size)
                    &&& e@ == error::plain_error(
                        400,
                        "unsupported size `"@ + v@ + "`"@,
                        "invalid_request_error"@,
                    )
                },
            },
        },
{
    match value {
        None => Ok(None),
        Some(v) => {
            if same_text(v, "auto") {
                Ok(None)
            } else if same_text(v, "256x256") {
                assert(v@ == size_name(ImageSize::Size256x256));
                Ok(Some(ImageSize::Size256x256))
            } else if same_text(v, "512x512") {
                Ok(Some(ImageSize::Size512x512))
            } else if same_text(v, "1024x1024") {
                Ok(Some(ImageSize::Size1024x1024))
            } else if same_text(v, "1536x1024") {
                Ok(Some(ImageSize::Size1536x1024))
            } else if same_text(v, "1024x1536") {
                Ok(Some(ImageSize::Size1024x1536))
            } else if same_text(v, "1792x1024") {
                Ok(Some(ImageSize::Size1792x1024))
            } else if same_text(v, "1024x1792") {
                Ok(Some(ImageSize::Size1024x1792))
            } else {
                assert forall|size: ImageSize| v@ != #[trigger] size_name(size) by {
                    match size {
                        ImageSize::Size256x256 => {},
                        ImageSize::Size512x512 => {},
                        ImageSize::Size1024x1024 => {},
                        ImageSize::Size1536x1024 => {},
                        ImageSize::Size1024x1536 => {},
                        ImageSize::Size1792x1024 => {},
                        ImageSize::Size1024x1792 => {},
                    }
                }
                let head: String = joined("unsupported size `", v);
                Err(AppError::bad_request(joined(head.as_str(), "`")))
            }
        },
    }
}

/// How embedding vectors are written.
#[derive(Clone, Copy, Debug, PartialEq, Eq, Structural)]
pub enum EncodingFormat {
    Float,
    Base64,
}

/// Reads an encoding format; a name of no format is refused.
pub fn parse_encoding_format(value: Option<&str>) -> (r: Result<Option<EncodingFormat>, AppError>)
    ensures
        match value {
            None => r == Ok::<Option<EncodingFormat>, AppError>(None),
            Some(v) => match r {
                Ok(Some(EncodingFormat::Float)) => v@ == "float"@,
                Ok(Some(EncodingFormat::Base64)) => v@ == "base64"@,
                Ok(None) => false,
                Err(e) => v@ != "float"@ && v@ != "base64"@ && e@ == error::plain_error(
                    400,
                    "unsupported encoding_format `"@ + v@ + "`"@,
                    "invalid_request_error"@,
                ),
            },
        },
{
    match value {
        None => Ok(None),
        Some(v) => {
            if same_text(v, "float") {
                Ok(Some(EncodingFormat::Float))
            } else if same_text(v, "base64") {
                Ok(Some(EncodingFormat::Base64))
            } else {
                let head: String = joined("unsupported encoding_format `", v);
                Err(AppError::bad_request(joined(head.as_str(), "`")))
            }
        },
    }
}

/// Texts to embed: one, or several.
#[derive(Debug)]
pub enum EmbeddingsInput {
    String(String),
    Strings(Vec<String>),
}

impl EmbeddingsInput {
    /// The texts.
    pub fn into_vec(self) -> (r: Vec<String>)
        ensures
            r@ == (match self {
                EmbeddingsInput::String(input) => seq![input],
                EmbeddingsInput::Strings(inputs) => inputs@,
            }),
    {
        match self {
            EmbeddingsInput::String(input) => {
                let mut out: Vec<String> = Vec::new();
                out.push(input);
                assert(out@ =~= seq![input]);
                out
            },
            EmbeddingsInput::Strings(inputs) => inputs,
        }
    }
}

/// What one choice of a chat chunk adds.
#[derive(Debug)]
pub struct ChunkDelta {
    pub content: Option<String>,
    pub reasoning_content: Option<String>,
    /// Number of tool call fragments.
    pub tool_calls: Option<usize>,
}

/// A chat chunk, as far as it is metered.
#[derive(Debug)]
pub struct Chunk {
    /// One entry per choice.
    pub deltas: Vec<Option<ChunkDelta>>,
    /// Completion tokens of the terminal usage frame.
    pub completion_tokens: Option<u64>,
}

/// Whether an optional text has characters.
pub open spec fn has_text(o: Option<String>) -> bool {
    o matches Some(s) && s@.len() > 0
}

/// Whether a choice carries text or tool call fragments.
pub open spec fn delta_has_content(delta: Option<ChunkDelta>) -> bool {
    delta matches Some(d) && (has_text(d.content) || has_text(d.reasoning_content) || (
    d.tool_calls matches Some(n) && n > 0))
}

/// Whether a chunk carries content: text, tool call fragments or usage, rather
/// than only a role.
pub open spec fn chunk_has_content(chunk: Chunk) -> bool {
    chunk.completion_tokens is Some || exists|i: int|
        0 <= i < chunk.deltas@.len() && delta_has_content(#[trigger] chunk.deltas@[i])
}

/// A meter after one frame.
pub open spec fn stamped(
    meter: StreamMeter,
    content: bool,
    tokens: Option<u64>,
    now: u64,
) -> StreamMeter {
    StreamMeter {
        completion_tokens: match tokens {
            Some(n) => Some(n),
            None => meter.completion_tokens,
        },
        last_output_at: Some(now),
        content_chunks: if content {
            (meter.content_chunks + 1) as u64
        } else {
            meter.content_chunks
        },
        first_content_at: if content && meter.first_content_at is None {
            Some(now)
        } else {
            meter.first_content_at
        },
        ..meter
    }
}

fn non_empty(o: &Option<String>) -> (r: bool)
    ensures
        r == has_text(*o),
{
    match o {
        Some(s) => !s.as_str().is_empty(),
        None => false,
    }
}

/// Stamps one chunk on the stream meter.
pub fn stamp_chunk(meter: &mut StreamMeter, chunk: &Chunk, now: u64)
    requires
        old(meter).content_chunks < u64::MAX,
    ensures
        *final(meter) == stamped(
            *old(meter),
            chunk_has_content(*chunk),
            chunk.completion_tokens,
            now,
        ),
{
    let mut text: bool = false;
    let mut i: usize = 0;
    while i < chunk.deltas.len()
        invariant
            i <= chunk.deltas@.len(),
            text == exists|j: int|
                0 <= j < i && delta_has_content(#[trigger] chunk.deltas@[j]),
        decreases chunk.deltas.len() - i,
    {
        let content: bool = match &chunk.deltas[i] {
            Some(delta) => {
                let tools: bool = match delta.tool_calls {
                    Some(n) => n > 0,
                    None => false,
                };
                non_empty(&delta.content) || non_empty(&delta.reasoning_content) || tools
            },
            None => false,
        };
        assert(content == delta_has_content(chunk.deltas@[i as int]));
        if content {
            text = true;
        }
        i = i + 1;
    }
    match chunk.completion_tokens {
        Some(tokens) => meter.on_usage(tokens),
        None => {},
    }
    meter.on_output(text || chunk.completion_tokens.is_some(), now);
}

/// A loaded model as clients see it.
#[derive(Debug)]
pub struct ModelEntry {
    pub id: String,
    /// Unix time of the load, in seconds.
    pub created: u64,
}

/// The Unix time at which a model was loaded.
pub open spec fn created_at(loaded_at: u64, now: u64, unix: u64) -> u64 {
    let age = registry::seconds_between(loaded_at, now);
    if age <= unix {
        (unix - age) as u64
    } else {
        0
    }
}

/// Lists the ready models, at a clock reading in nanoseconds and a Unix time in
/// seconds.
pub fn models(held: &ModelRegistry, now: u64, unix: u64) -> (r: Vec<ModelEntry>)
    requires
        held.wf(),
    ensures
        forall|i: int|
            0 <= i < r@.len() ==> registry::is_ready(held@, (#[trigger] r@[i]).id@)
                && r@[i].created == created_at(
                held@[r@[i].id@].state->Ready_0.loaded_at,
                now,
                unix,
            ),
        forall|i: int, j: int|
            0 <= i < j < r@.len() ==> (#[trigger] r@[i]).id@ != (#[trigger] r@[j]).id@,
        forall|tag: Seq<char>| #[trigger]
            registry::is_ready(held@, tag) ==> exists|i: int|
                0 <= i < r@.len() && (#[trigger] r@[i]).id@ == tag,
{
    let tags: Vec<String> = held.ready_tags();
    let mut out: Vec<ModelEntry> = Vec::new();
    let mut i: usize = 0;
    while i < tags.len()
        invariant
            held.wf(),
            i <= tags@.len(),
            out@.len() == i,
            forall|j: int| 0 <= j < tags@.len() ==> registry::is_ready(held@, (#[trigger] tags@[j])@),
            forall|j: int|
                0 <= j < i ==> (#[trigger] out@[j]).id@ == tags@[j]@ && out@[j].created
                    == created_at(held@[tags@[j]@].state->Ready_0.loaded_at, now, unix),
        decreases tags.len() - i,
    {
        assert(registry::is_ready(held@, tags@[i as int]@));
        let loaded_at: u64 = match held.ready(tags[i].as_str()) {
            Some(model) => model.loaded_at,
            None => now,
        };
        let age: u64 = if loaded_at <= now {
            (now - loaded_at) / SECOND
        } else {
            0
        };
        out.push(ModelEntry { id: tags[i].clone(), created: unix.saturating_sub(age) });
        i = i + 1;
    }
    proof {
        assert forall|i: int| 0 <= i < out@.len() implies registry::is_ready(
            held@,
            (#[trigger] out@[i]).id@,
        ) by {
            assert(registry::is_ready(held@, tags@[i]@));
        }
        assert forall|i: int, j: int| 0 <= i < j < out@.len() implies (#[trigger] out@[i]).id@ != (
        #[trigger] out@[j]).id@ by {
            assert(tags@[i]@ != tags@[j]@);
        }
        assert forall|tag: Seq<char>| #[trigger] registry::is_ready(held@, tag) implies exists|
            i: int,
        |
            0 <= i < out@.len() && (#[trigger] out@[i]).id@ == tag by {
            let k = choose|k: int| 0 <= k < tags@.len() && (#[trigger] tags@[k])@ == tag;
            assert(out@[k].id@ == tag);
        }
    }
    out
}

/// The width and the height of an image size.
pub open spec fn extent(size: ImageSize) -> (nat, nat) {
    match size {
        ImageSize::Size256x256 => (256, 256),
        ImageSize::Size512x512 => (512, 512),
        ImageSize::Size1024x1024 => (1024, 1024),
        ImageSize::Size1536x1024 => (1536, 1024),
        ImageSize::Size1024x1536 => (1024, 1536),
        ImageSize::Size1792x1024 => (1792, 1024),
        ImageSize::Size1024x1792 => (1024, 1792),
    }
}

/// The name of a size is its width and its height in decimal, with an `x` between them.
pub proof fn law_size_names_tell_the_extent(size: ImageSize)
    ensures
        size_name(size) == text::decimal(extent(size).0) + seq!['x'] + text::decimal(
            extent(size).1,
        ),
{
    reveal_strlit("256x256");
    reveal_strlit("512x512");
    reveal_strlit("1024x1024");
    reveal_strlit("1536x1024");
    reveal_strlit("1024x1536");
    reveal_strlit("1792x1024");
    reveal_strlit("1024x1792");
    reveal_with_fuel(text::decimal, 5);
    let (w, h) = extent(size);
    assert(size_name(size) =~= text::decimal(w) + seq!['x'] + text::decimal(h));
}

/// A choice carries content exactly where it has text, reasoning or a piece of a tool
/// call; empty ones do not count.
pub proof fn law_deltas_with_content(delta: ChunkDelta)
    ensures
        delta_has_content(Some(delta)) <==> (delta.content matches Some(s) && s@.len() > 0) || (
        delta.reasoning_content matches Some(s) && s@.len() > 0) || (
        delta.tool_calls matches Some(n) && n > 0),
        !delta_has_content(None),
{
}

/// A frame moves the time of the last output, and a token count replaces the last one.
/// Only a frame with content counts as a chunk, and only the first of them sets the time
/// of the first content.
pub proof fn law_frames_are_stamped(
    meter: StreamMeter,
    content: bool,
    tokens: Option<u64>,
    now: u64,
)
    requires
        meter.content_chunks < u64::MAX,
    ensures
        ({
            let after = stamped(meter, content, tokens, now);
            &&& after.last_output_at == Some(now)
            &&& content ==> after.content_chunks == meter.content_chunks + 1
            &&& !content ==> after.content_chunks == meter.content_chunks
            &&& content && meter.first_content_at is None ==> after.first_content_at == Some(now)
            &&& !content || meter.first_content_at is Some ==> after.first_content_at
                == meter.first_content_at
            &&& tokens is Some ==> after.completion_tokens == tokens
            &&& tokens is None ==> after.completion_tokens == meter.completion_tokens
            &&& after.kind == meter.kind
            &&& after.queue_wait == meter.queue_wait
            &&& after.started == meter.started
        }),
{
}

/// The Unix time at which a model was loaded lies as far back as the load, in whole
/// seconds, and never before the epoch.
pub proof fn law_models_are_as_old_as_their_load(loaded_at: u64, now: u64, unix: u64, age: int)
    requires
        loaded_at <= now,
        age * 1_000_000_000 <= now - loaded_at < (age + 1) * 1_000_000_000,
    ensures
        age <= unix ==> created_at(loaded_at, now, unix) + age == unix,
        age > unix ==> created_at(loaded_at, now, unix) == 0,
{
    assert(registry::seconds_between(loaded_at, now) == age);
}

} // verus!
