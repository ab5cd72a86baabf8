//! Target resolution and value tracing for GPU kernels.
//!
//! * [`target_resolution`] scans textual LLVM IR for instruction families,
//!   picks the `sm_XX` target they need, and refuses targets that cannot run
//!   them. [`target_laws`] states how these three fit together,
//!   [`detection_laws`] which texts each family is found by, and [`call_laws`]
//!   which calls are multicast copies.
//! * [`trace`] folds scalar values into an FNV-1a fingerprint, so that two
//!   runs of one program can be compared by a single `u64`. [`encoding`] is the
//!   mathematics behind it, and [`trace_laws`] states what a fingerprint tells.
//! * [`text`] holds the substring searches that the scan uses, and
//!   [`call_args`] reads the argument list of a call.
//! * [`toolchain`] tells a nightly compiler from a stable one.

pub mod call_args;
pub mod call_laws;
pub mod detection_laws;
pub mod encoding;
pub mod target_laws;
pub mod target_resolution;
pub mod text;
pub mod toolchain;
pub mod trace;
pub mod trace_laws;
