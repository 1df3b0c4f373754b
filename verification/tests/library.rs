use rocprobe::benchmark::{last_index_of, match_benchmarks};
use rocprobe::device::{init_hip_device, reported_topology, ProfileConfig};
use rocprobe::format::{output_format, OutputFormat};
use rocprobe::monitor::{next_action, MonitorAction, MonitorConfig};
use rocprobe::occupancy::{calculate_occupancy, OccupancyParams, MAX_WAVES};
use rocprobe::text::{
    decimal_string, device_dir_path, hwmon_name_matches, hwmon_path, hwmon_root_path, join_lines,
    pick_hwmon, rocm_version, sysfs_path, trace_file_path, trim_whitespace, HwmonFile, SysfsFile,
};
use rocprobe::trace::{traces_from_rocprof, RocprofEntry};

fn params(v: u32, s: u32, lds: u64) -> OccupancyParams {
    OccupancyParams {
        vgprs_per_thread: v,
        sgprs_per_thread: s,
        lds_bytes_per_workgroup: lds,
        workgroup_size: 256,
        waves_per_workgroup: 4,
    }
}

#[test]
fn device_is_simulated_mi300x() {
    let d = init_hip_device(3);
    assert_eq!(d.name, "AMD Instinct MI300X VF");
    assert_eq!(d.gfx_arch, "gfx942");
    assert_eq!(d.compute_units, 304);
    assert_eq!(d.max_waves_per_cu, 32);
    assert_eq!(d.l2_cache_size_mb, 256);
    assert_eq!(d.mem_clock_mhz, 2600);
    assert_eq!(d.mem_bus_width_bits, 8192);
}

#[test]
fn default_profile_config() {
    let c = ProfileConfig::default();
    assert_eq!(c.gpu_id, 0);
    assert!(!c.capture_mem_transfers);
    assert_eq!(c.max_kernels, 0);
}

#[test]
fn topology_is_mi300x() {
    let t = reported_topology();
    assert_eq!(t.card_series, "MI300X");
    assert_eq!(t.vbios_version, "1.0");
    assert_eq!(t.num_compute_units, 304);
}

#[test]
fn occupancy_capped_at_sixteen_waves() {
    let r = calculate_occupancy(&params(32, 16, 0));
    assert_eq!(r.max_waves_per_cu, 16);
    assert_eq!(r.limiting_factor, "VGPRs");
    assert!(r.suggestions.is_empty());
}

#[test]
fn occupancy_vgpr_heavy_kernel_gets_advice() {
    let r = calculate_occupancy(&params(128, 16, 0));
    assert_eq!(r.max_waves_per_cu, 8);
    assert_eq!(r.limiting_factor, "VGPRs");
    assert_eq!(r.suggestions, vec!["Reduce VGPR usage".to_string()]);
}

#[test]
fn occupancy_sgpr_limited() {
    let r = calculate_occupancy(&params(0, 100, 0));
    assert_eq!(r.max_waves_per_cu, 8);
    assert_eq!(r.limiting_factor, "SGPRs");
    assert!(r.suggestions.is_empty());
}

#[test]
fn occupancy_lds_limited() {
    let r = calculate_occupancy(&params(16, 8, 16384));
    assert_eq!(r.max_waves_per_cu, 4);
    assert_eq!(r.limiting_factor, "LDS");
    assert!(r.suggestions.is_empty());
}

#[test]
fn occupancy_lds_larger_than_the_share() {
    let r = calculate_occupancy(&params(16, 8, 100000));
    assert_eq!(r.max_waves_per_cu, 0);
    assert_eq!(r.limiting_factor, "LDS");
}

#[test]
fn occupancy_too_many_vgprs_gives_zero_waves() {
    let r = calculate_occupancy(&params(2000, 1, 0));
    assert_eq!(r.max_waves_per_cu, 0);
    assert_eq!(r.limiting_factor, "VGPRs");
    assert_eq!(r.suggestions.len(), 1);
}

#[test]
fn occupancy_tie_goes_to_vgprs() {
    // 1024 / 64 == 800 / 50 == 16
    let r = calculate_occupancy(&params(64, 50, 4096));
    assert_eq!(r.max_waves_per_cu, 16);
    assert_eq!(r.limiting_factor, "VGPRs");
    assert!(r.suggestions.is_empty());
}

#[test]
fn occupancy_tie_between_sgprs_and_lds_goes_to_sgprs() {
    // 800 / 200 == 65536 / 16384 == 4, VGPRs admit 1024
    let r = calculate_occupancy(&params(1, 200, 16384));
    assert_eq!(r.max_waves_per_cu, 4);
    assert_eq!(r.limiting_factor, "SGPRs");
}

#[test]
fn occupancy_more_resources_never_more_waves() {
    let small = calculate_occupancy(&params(40, 20, 2048));
    let big = calculate_occupancy(&params(80, 20, 8192));
    assert!(big.max_waves_per_cu <= small.max_waves_per_cu);
    assert_eq!(small.max_waves_per_cu, 16);
    assert_eq!(big.max_waves_per_cu, 8);
    assert!(small.max_waves_per_cu <= MAX_WAVES);
}

fn entry(op: &str, name: Option<&str>, start: Option<u64>, end: Option<u64>) -> RocprofEntry {
    RocprofEntry {
        op: op.to_string(),
        kernel_name: name.map(|n| n.to_string()),
        start_timestamp: start,
        end_timestamp: end,
    }
}

#[test]
fn rocprof_keeps_dispatches_in_order() {
    let entries = vec![
        entry("kernel_dispatch", Some("gemm"), Some(1000), Some(6000)),
        entry("memcpy", Some("h2d"), Some(6000), Some(9000)),
        entry("kernel_dispatch", None, None, None),
        entry("kernel_dispatch", Some("reduce"), None, Some(2500)),
    ];
    let traces = traces_from_rocprof(&entries);
    assert_eq!(traces.len(), 3);
    assert_eq!(traces[0].kernel_name, "gemm");
    assert_eq!(traces[0].duration_ns, 5000);
    assert_eq!(traces[0].timestamp_ns, 1000);
    assert_eq!(traces[0].grid_size, [1, 1, 1]);
    assert_eq!(traces[0].block_size, [64, 1, 1]);
    assert_eq!(traces[0].gpu_id, 0);
    assert_eq!(traces[0].stream_id, 0);
    assert_eq!(traces[1].kernel_name, "");
    assert_eq!(traces[1].duration_ns, 0);
    assert_eq!(traces[1].timestamp_ns, 0);
    assert_eq!(traces[2].kernel_name, "reduce");
    assert_eq!(traces[2].duration_ns, 2500);
    assert_eq!(traces[2].timestamp_ns, 0);
}

#[test]
fn rocprof_without_dispatches() {
    let entries = vec![entry("memcpy", None, Some(1), Some(0)), entry("Kernel_dispatch", None, None, None)];
    assert!(traces_from_rocprof(&entries).is_empty());
    assert!(traces_from_rocprof(&vec![]).is_empty());
}

fn names(v: &[&str]) -> Vec<String> {
    v.iter().map(|s| s.to_string()).collect()
}

#[test]
fn benchmarks_match_by_name() {
    let baseline = names(&["gemm", "conv", "gemm", "fft"]);
    let current = names(&["fft", "attention", "gemm", "fft"]);
    assert_eq!(match_benchmarks(&baseline, &current), vec![(0, 3), (2, 2), (3, 3)]);
    assert_eq!(last_index_of(&baseline, &"gemm".to_string()), Some(2));
    assert_eq!(last_index_of(&baseline, &"conv".to_string()), Some(1));
    assert_eq!(last_index_of(&baseline, &"softmax".to_string()), None);
}

#[test]
fn benchmarks_without_baseline() {
    assert!(match_benchmarks(&vec![], &names(&["a", "b"])).is_empty());
    assert!(match_benchmarks(&names(&["a"]), &vec![]).is_empty());
}

#[test]
fn decimal_numbers() {
    assert_eq!(decimal_string(0), "0");
    assert_eq!(decimal_string(7), "7");
    assert_eq!(decimal_string(10), "10");
    assert_eq!(decimal_string(4294967295), "4294967295");
    assert_eq!(decimal_string(u64::MAX), u64::MAX.to_string());
}

#[test]
fn sysfs_paths() {
    assert_eq!(device_dir_path(0), "/sys/class/drm/card0/device");
    assert_eq!(sysfs_path(1, SysfsFile::GpuBusy), "/sys/class/drm/card1/device/gpu_busy_percent");
    assert_eq!(sysfs_path(12, SysfsFile::VramUsed), "/sys/class/drm/card12/device/mem_info_vram_used");
    assert_eq!(sysfs_path(2, SysfsFile::VramTotal), "/sys/class/drm/card2/device/mem_info_vram_total");
    assert_eq!(trace_file_path(5), "/tmp/rocprobe_trace_5.json");
    assert_ne!(sysfs_path(1, SysfsFile::GpuBusy), sysfs_path(11, SysfsFile::GpuBusy));
}

#[test]
fn joined_rocm_smi_lines() {
    assert_eq!(join_lines(b"GPU[0] : VRAM Total\nGPU[0] : VRAM Used\n"), b"GPU[0] : VRAM Total | GPU[0] : VRAM Used".to_vec());
    assert_eq!(join_lines(b"a\r\nb"), b"a | b".to_vec());
    assert_eq!(join_lines(b""), b"".to_vec());
    assert_eq!(join_lines(b"\n"), b"".to_vec());
    assert_eq!(join_lines(b"a\n\nb"), b"a |  | b".to_vec());
    assert_eq!(join_lines(b"a\r"), b"a\r".to_vec());
    assert_eq!(join_lines(b"x\r\n"), b"x".to_vec());
    assert_eq!(join_lines(b"one line"), b"one line".to_vec());
}

#[test]
fn joined_lines_match_std() {
    let text = "  first\r\nsecond\n\nthird\r\n\rfourth\r";
    let expected = text.lines().collect::<Vec<_>>().join(" | ");
    assert_eq!(join_lines(text.as_bytes()), expected.into_bytes());
    assert!(!join_lines(text.as_bytes()).contains(&b'\n'));
}

#[test]
fn trimming_whitespace() {
    assert_eq!(trim_whitespace("  6.3.1\n"), "6.3.1");
    assert_eq!(trim_whitespace("\u{3000}\t7.0\u{a0}"), "7.0");
    assert_eq!(trim_whitespace(" \n "), "");
    assert_eq!(trim_whitespace("a b"), "a b");
    assert_eq!(trim_whitespace(""), "");
}

#[test]
fn rocm_version_fallback() {
    assert_eq!(rocm_version(None), "7.2.0");
    assert_eq!(rocm_version(Some("6.1.2-115\n")), "6.1.2-115");
    assert_eq!(rocm_version(Some("")), "");
}

#[test]
fn output_formats() {
    assert_eq!(output_format("json"), OutputFormat::Json);
    assert_eq!(output_format("csv"), OutputFormat::Csv);
    assert_eq!(output_format("table"), OutputFormat::Table);
    assert_eq!(output_format("JSON"), OutputFormat::Table);
    assert_eq!(output_format(""), OutputFormat::Table);
}

#[test]
fn hwmon_names() {
    assert!(hwmon_name_matches("hwmon0"));
    assert!(hwmon_name_matches("hwmon12"));
    assert!(!hwmon_name_matches("hwmon"));
    assert!(!hwmon_name_matches("hwmonX"));
    assert!(!hwmon_name_matches("hwmon1a"));
    assert!(!hwmon_name_matches("Hwmon1"));
    assert!(!hwmon_name_matches("power"));
    let names = names(&["device", "hwmon", "hwmon3", "hwmon4"]);
    assert_eq!(pick_hwmon(&names), Some(2));
    assert_eq!(pick_hwmon(&vec!["subsystem".to_string()]), None);
    assert_eq!(pick_hwmon(&vec![]), None);
}

#[test]
fn hwmon_paths() {
    assert_eq!(hwmon_root_path(1), "/sys/class/drm/card1/device/hwmon");
    assert_eq!(hwmon_path(0, "hwmon3", HwmonFile::Power), "/sys/class/drm/card0/device/hwmon/hwmon3/power1_average");
    assert_eq!(hwmon_path(2, "hwmon0", HwmonFile::Temperature), "/sys/class/drm/card2/device/hwmon/hwmon0/temp1_input");
    assert_ne!(hwmon_path(1, "hwmon0", HwmonFile::Power), hwmon_path(11, "hwmon0", HwmonFile::Power));
}

#[test]
fn monitor_stops_after_duration() {
    let c = MonitorConfig { interval_ms: 100, duration_secs: 2, gpu_id: 0 };
    assert_eq!(next_action(&c, 0), MonitorAction::Sample);
    assert_eq!(next_action(&c, 2_000_000_000), MonitorAction::Sample);
    assert_eq!(next_action(&c, 2_000_000_001), MonitorAction::Stop);
    let forever = MonitorConfig { interval_ms: 100, duration_secs: 0, gpu_id: 0 };
    assert_eq!(next_action(&forever, u128::MAX), MonitorAction::Sample);
}
