# cuda_oxide

Verified pieces of a GPU compiler toolchain.

- `src/target_resolution.rs`: detects instruction families in textual LLVM IR,
  selects the `sm_XX` target they need, and refuses targets that cannot run
  them. `src/target_laws.rs` states how the three fit together.
- `src/trace.rs`: folds scalars into an FNV-1a fingerprint.
  `src/encoding.rs` is the mathematics behind it, `src/trace_laws.rs` states
  what a fingerprint tells of the values.
- `src/text.rs`: substring searches.
- `src/call_args.rs`: the argument list of a call in textual IR.
- `src/toolchain.rs`: tells nightly compilers from stable ones.
- `app/`: reading IR files, the process-wide trace, and the build script.

Everything under `src/` is proved by Verus from the specifications of vstd
alone.
