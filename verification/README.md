# raug

A library for building signal-flow graphs of audio processors, written in Verus:
the graph, the signal model and the processors that move, store and compare samples
carry contracts that Verus proves.

## Layout

- `src/signal.rs`: signal types, samples (`Float` as IEEE-754 bits, with exact
  comparisons), MIDI messages, lists and typed sample buffers, with their mathematical
  views.
- `src/processor.rs`: the `Processor` trait, its errors, and typed access to a
  processor's inputs and outputs.
- `src/graph/`: the processor graph, kept in a `petgraph` `StableGraph` behind trusted
  wrappers; connecting and disconnecting, parameters, cast, register and condition nodes,
  strongly connected components and the processing order (every node, in dependency order
  when the graph has no cycle), with the laws that relate them.
- `src/builtins/`: processors on integers, booleans, strings, lists and MIDI messages
  (counters, registers, delays, list packing and unpacking, MIDI decoding, casts, ...).
  A cast between doubles and other values uses conversions the program supplies
  (`FloatCasts`).
- `src/message.rs`: messages and their conversion errors.
- `tests/`: tests of the library on concrete values.
- `app/`: what runs outside the verified library: processors that compute on
  floating-point samples, the `f64` conversions for casts, processors that print or use
  channels, the shared graph builder, and error types with `Display`.

## Checking

Verus verifies `src/`; the tests in `tests/` run against the compiled library with the
real outside crates linked.
