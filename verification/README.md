# rocprobe

A lightweight GPU profiler for AMD ROCm platforms. The crate is split in two:

- `src/` is the verified library (Verus): the CDNA3 wavefront occupancy
  calculator (`occupancy`), the rocprof v2 trace filter (`trace`), pairing of
  benchmark runs with their baseline (`benchmark`), decimal numbers, sysfs
  paths and the choice of a card's hwmon device, whitespace trimming and the joining of `rocm-smi` output lines
  (`text`), output-format selection (`format`), the live monitor's stop
  decision (`monitor`) and the simulated device description (`device`).
- `app/` is the `rocprobe` command line around it: argument parsing (clap),
  process launches, sysfs and file reads, JSON (serde_json) and CSV output,
  coloured tables, and the floating-point summaries (averages, roofline,
  percentages), which the library does not hold.

Tests of the library are under `tests/`.
