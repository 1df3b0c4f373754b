//! The stop decision of the live GPU monitor.
use vstd::prelude::*;

verus! {

/// Settings of the live monitor: sampling interval, how long to run
/// (0: until interrupted) and which GPU to watch.
#[derive(Debug, Clone, Copy)]
pub struct MonitorConfig {
    pub interval_ms: u64,
    pub duration_secs: u64,
    pub gpu_id: u32,
}

/// What the monitor does next.
#[derive(Debug, Clone, Copy, PartialEq, Eq, Structural)]
pub enum MonitorAction {
    /// Take and print one more sample, then sleep for the interval.
    Sample,
    /// The run has lasted longer than its duration: stop.
    Stop,
}

/// The monitor stops once the time elapsed since its start exceeds the
/// configured duration; a duration of 0 never ends.
pub open spec fn should_stop(config: MonitorConfig, elapsed_ns: int) -> bool {
    config.duration_secs > 0 && elapsed_ns > config.duration_secs * 1_000_000_000
}

/// Decides, from the time elapsed since the monitor started, whether to take
/// another sample or to stop.
pub fn next_action(config: &MonitorConfig, elapsed_ns: u128) -> (a: MonitorAction)
    ensures
        a == (if should_stop(*config, elapsed_ns as int) {
            MonitorAction::Stop
        } else {
            MonitorAction::Sample
        }),
        config.duration_secs > 0 && elapsed_ns > config.duration_secs * 1_000_000_000 ==> a
            == MonitorAction::Stop,
        elapsed_ns <= config.duration_secs * 1_000_000_000 ==> a == MonitorAction::Sample,
{
    if config.duration_secs > 0 {
        let max_ns: u128 = config.duration_secs as u128 * 1_000_000_000;
        if elapsed_ns > max_ns {
            return MonitorAction::Stop;
        }
    }
    MonitorAction::Sample
}

/// Once the monitor has decided to stop, it would stop at any later time
/// too; and a monitor without a duration samples forever.
pub proof fn lemma_stop_is_final(config: MonitorConfig, e1: int, e2: int)
    requires
        e1 <= e2,
    ensures
        should_stop(config, e1) ==> should_stop(config, e2),
        config.duration_secs == 0 ==> !should_stop(config, e2),
{
}

/// A monitor runs for exactly its duration: with any positive duration it
/// samples up to the duration and stops as soon as more time has passed;
/// a duration of 0 never ends.
pub proof fn lemma_monitor_runs_for_its_duration(config: MonitorConfig, elapsed_ns: int)
    ensures
        config.duration_secs > 0 ==> should_stop(config, config.duration_secs * 1_000_000_000 + 1),
        config.duration_secs > 0 && elapsed_ns > config.duration_secs * 1_000_000_000 ==> should_stop(
            config,
            elapsed_ns,
        ),
        elapsed_ns <= config.duration_secs * 1_000_000_000 ==> !should_stop(config, elapsed_ns),
        config.duration_secs == 0 ==> !should_stop(config, elapsed_ns),
{
}

} // verus!
