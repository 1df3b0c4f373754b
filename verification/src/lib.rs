//! rocprobe: the decision and bookkeeping logic of a lightweight ROCm GPU
//! profiler, verified with Verus.
//!
//! The modules hold the parts of the profiler that compute: the CDNA3
//! wavefront occupancy calculator, the rocprof trace filter, benchmark
//! matching, rocm-smi output joining, sysfs path construction and hwmon
//! device selection, output-format
//! selection, the monitor loop's stop decision and the simulated device
//! description.

pub mod benchmark;
pub mod device;
pub mod format;
pub mod monitor;
pub mod occupancy;
pub mod text;
pub mod trace;
