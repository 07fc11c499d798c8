# Muna Server

An HTTP prediction server backed by local [Muna](https://muna.ai) predictors, whose decisions are
verified with [Verus](https://github.com/verus-lang/verus).

- `src/` is the library: the rules by which the server loads models, batches and dispatches
  predictions, answers requests, reports to its control plane and relays events. Each function states
  what it does in `requires` and `ensures`, and Verus proves it. What holds of several functions
  together is stated in proof functions named `law_...`.
- `app/` is the program around it: sockets, tasks, shared memory, drivers and the `muna` client. It
  asks the library what to do and does it.
- `tests/` runs the library on concrete values.

## Library

| Module | What it decides |
| --- | --- |
| `serving::registry` | model lifecycles: single-flight loads, bounded waits, deferred unloads |
| `serving::loader` | the steps of one load |
| `serving::cache`, `serving::download_gate` | which resources are on disk, and which download goes first |
| `serving::batch`, `serving::dispatch` | batch plans and keys, locks, the accumulator, merging and splitting |
| `serving::stats` | counters, telemetry windows and stream meters |
| `serving::lease` | device lease segments and scheduling weights |
| `control::heartbeat`, `control::protocol` | goals of the control plane and the status reported to it |
| `control::kv_relay` | continuity, buffering and flushing of engine events |
| `handlers` | requests, remote values, error envelopes and chat streams |
| `platform` | device vocabulary and readings of the host |
| `client`, `config`, `state` | downloads, start-up options and the server's state |

The library calls `serde_json`, `base64` and `dashmap`. What it takes on trust of them, and of a few
functions of the standard library, is written at each call, in `json`, `codec`, `tag_map`, `text` and
`serving::lease`. Floating-point numbers are carried as their bits; clock
readings are nanoseconds that the caller supplies.

## Running

```bash
export MUNA_ACCESS_KEY=fxn_...
muna-server --port 8000 --models @huggingface/smollm2-360m
```

Models are loaded on demand, or at start where `--models` names them; then no other model is served.
With `--control-plane-url` and `--node-id` the server joins a fleet.
