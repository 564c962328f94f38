# coupler

The verified core of an audio plugin framework for the VST3, CLAP and Audio Unit formats,
written in Verus. Everything under `src/` carries contracts that Verus proves; `app/` holds
what Verus does not take (trait objects, raw cells, floating-point ranges and smoothers, the
plugin traits) and builds on the library.

Layout of `src/`:

- `bits`, `bitset`: plain and atomic bit sets; a drain yields the set bits in increasing order.
- `params`, `vst3_params`, `float`: parameter values shared between threads, as `f64` bits.
- `param_gestures`: editor gestures and the updates that keep the host in step with them.
- `triple_buffer`: the index protocol of a single-writer, single-reader triple buffer.
- `sync_cell`: the flag that makes mutable borrows of a shared cell exclusive.
- `key`, `collect`, `id_map`: parameter keys, stable ids, and the id/index mapping.
- `bus`, `ports`, `vst3_component`: bus layouts, speaker arrangements, and the answers to a
  host's bus queries.
- `buffers`, `events`, `scratch`: buffer windows, event splitting, and the channel pointers
  and copies that set up one processing call (aliasing inputs are saved first).
- `clap_events`, `clap_ext`, `vst3_events`: the event traffic of one block, and CLAP
  extension lookup.
- `ids`, `strings`: class identifiers and fixed-size string buffers.
- `auv2`: the Audio Unit selector table.

Laws that relate several functions are public proof functions named `law_*`.

Build and check with Verus; the tests under `tests/` run with the real `uuid` crate.
