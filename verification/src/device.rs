use vstd::prelude::*;
use vstd::string::StringExecFns;

verus! {

/// Properties of the GPU that the profiler attaches to.
#[derive(Debug, Clone)]
pub struct DeviceInfo {
    pub name: String,
    pub gfx_arch: String,
    pub compute_units: u32,
    pub max_waves_per_cu: u32,
    pub l2_cache_size_mb: u32,
    pub mem_clock_mhz: u32,
    pub mem_bus_width_bits: u32,
}

/// The device description that `init_hip_device` reports: an MI300X
/// virtual function, for every GPU index.
pub open spec fn is_simulated_mi300x(d: DeviceInfo) -> bool {
    &&& d.name@ == "AMD Instinct MI300X VF"@
    &&& d.gfx_arch@ == "gfx942"@
    &&& d.compute_units == 304
    &&& d.max_waves_per_cu == 32
    &&& d.l2_cache_size_mb == 256
    &&& d.mem_clock_mhz == 2600
    &&& d.mem_bus_width_bits == 8192
}

/// Initializes the HIP device `gpu_id` and queries its properties.
///
/// The runtime is simulated: every GPU index is described as an MI300X
/// virtual function (gfx942, 304 compute units).
pub fn init_hip_device(gpu_id: u32) -> (d: DeviceInfo)
    ensures
        is_simulated_mi300x(d),
{
    DeviceInfo {
        name: String::from_str("AMD Instinct MI300X VF"),
        gfx_arch: String::from_str("gfx942"),
        compute_units: 304,
        max_waves_per_cu: 32,
        l2_cache_size_mb: 256,
        mem_clock_mhz: 2600,
        mem_bus_width_bits: 8192,
    }
}

/// Settings of one profiling run.
#[derive(Debug, Clone)]
pub struct ProfileConfig {
    pub gpu_id: u32,
    pub capture_mem_transfers: bool,
    pub max_kernels: u32,
}

impl Default for ProfileConfig {
    /// GPU 0, no memory-transfer capture, no kernel limit (0).
    fn default() -> (c: Self)
        ensures
            c.gpu_id == 0,
            !c.capture_mem_transfers,
            c.max_kernels == 0,
    {
        ProfileConfig { gpu_id: 0, capture_mem_transfers: false, max_kernels: 0 }
    }
}

/// Product and topology data that `rocm-smi` reports for a card.
#[derive(Debug, Clone)]
pub struct GpuTopology {
    pub card_series: String,
    pub vbios_version: String,
    pub num_compute_units: u32,
}

/// The topology that the profiler reports once `rocm-smi` has run: an
/// MI300X with VBIOS 1.0 and 304 compute units, whatever the tool printed.
pub fn reported_topology() -> (t: GpuTopology)
    ensures
        t.card_series@ == "MI300X"@,
        t.vbios_version@ == "1.0"@,
        t.num_compute_units == 304,
{
    GpuTopology {
        card_series: String::from_str("MI300X"),
        vbios_version: String::from_str("1.0"),
        num_compute_units: 304,
    }
}

} // verus!
