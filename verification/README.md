# noican

The engine of a noise-suppressing virtual microphone: sample queues, model
stages, click-free model switching, rate bridging, device transport, and the
offline tools that compare and score models. The library is written in Verus:
every function in `src/` is verified against its contract, but for the few
wrappers around outside functions that are listed under "What is taken on trust".

## Samples

A sample is a `u32`, the bit pattern of an IEEE 754 single. The library moves,
counts, orders and compares samples and never does floating-point arithmetic on
them. Where a gain has to be applied it hands out the exact fraction; where a
filter has to be run it hands out the positions. `app/` multiplies. Durations in
milliseconds are the exception: they are computed on integers and rounded as
single-precision numbers are.

## Layout

- `src/signal/`: queues, stages and their runner, dry/wet delay line, the
  switching engine, resampling and short-time transform bookkeeping, capture at
  a microphone's own rate.
- `src/engine/`: the live engine (inference worker, audio bridge, switch ramp,
  status), the frame-based rate adapter, and the offline driver.
- `src/device/`: callbacks, channel routing, the preview monitor and its
  feedback guard, the echo canceller's schedule, unit configuration, start and
  takedown plans, the control plane.
- `src/tools/`: audio file decisions, batch runs, comparison manifests, mixtures
  and reports of the evaluation, model selection.
- `src/rings.rs`, `src/text.rs`: the lock-free rings between threads, and text.
- `app/`: the command line tool, file reading and writing, everything that
  computes with floats, the worker threads, and the Core Audio calls.
- `tests/`: the library's tests.

## What is taken on trust

Each outside function that verified code relies on stands behind a small item
whose contract says what is claimed of it:

- `src/rings.rs`: `rtrb`'s single-producer, single-consumer rings;
- `src/signal/switch.rs`: `crossbeam_queue::ArrayQueue`;
- `src/tools/batch.rs`: `sha2::Sha256`;
- `src/device/monitor.rs`: `str::to_lowercase`;
- `src/device/runtime.rs`: `String::from_utf8_lossy`;
- `src/text.rs`: `String::push`.

Proof functions named `law_...` state what holds of the library as a whole.
