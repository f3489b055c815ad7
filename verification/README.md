# slugarch

A PTX-in / cycles-out simulator core with fabric replay, and a CXL host
runtime for a 4x4 GEMM endpoint, written in Verus: the logic carries
contracts and is proved.

## Layout

- `src/wire` — CXL message types and the 64-byte FLIT encoding; decoding
  is proved to invert encoding.
- `src/ir` — SlugIR (ops, metadata, functions, modules) and its passes:
  MlpStep fusion, backend selection, token assignment (Kahn's order) and
  the structural check against an rtlmap oracle.
- `src/backend` — bindings from ops to IP dispatch commands.
- `src/fabric` — the emulation core's cycle costs and the scheduler that
  fires commands in token order, as a state machine the host drives.
- `src/host` — the GEMM dispatch stream, result decoding, the GEMM session
  state machine, replay recording and validation, QEMU Type-2 artifact
  checks and the simulator-feasible claim ledger.
- `tests/` — tests over concrete values, including a software model of the
  GEMM endpoint that drives the session.
- `app/` — the command line: file I/O, JSON/bincode documents, the
  Verilator-compiled IPs under the state machines, and the floating-point
  report figures.
