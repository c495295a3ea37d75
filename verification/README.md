# mase

The core of MASE, a monophonic modular software synthesizer with a step
sequencer, as a Verus-verified library, and the backend process around it.

- `src/` — the verified library:
  - `domain::patch` — the patch aggregate (modules, bounded parameters,
    connections, builder, conversion of patches sent over IPC) and the
    validator (one output, known modules, no cycle, an oscillator; the
    depth-first search is proved to report a cycle exactly when the signal
    graph has one);
  - `domain::sequencing` — the note pattern (note rules, unique ids) and the
    transport state machine;
  - `domain::synthesis` — LFO shape/target selection and wavetable storage;
  - `ipc` — protocol messages, the command dispatcher and the minimal server;
  - `binary64`, `text`, `search` — comparisons on IEEE 754 bit patterns,
    string helpers, first-match search.
  Real numbers cross the library as `f64::to_bits` patterns.
- `app/` — the process: JSON on stdin/stdout (serde), audio output (cpal),
  WAV export (hound), and the floating-point signal processing.
- `tests/` — tests of the library.
