//! Owned, plain data that crosses sampler boundaries.
//!
//! A continuous quantity counts millionths of the unit that its name ends in:
//! an `energy_mw` of 5_000_000 is five milliwatts. Counts of bytes, minutes
//! and the like are whole numbers. Intervals count nanoseconds.

use crate::num::{self, signed_digits};
use crate::text::{self, opt_text};
use vstd::prelude::*;
use vstd::string::*;

verus! {

/// Whole-system battery / power-source state at one instant.
///
/// Ground truth for total drain: power is voltage times current. Negative
/// power means the battery is discharging.
#[derive(Debug, Clone, PartialEq, Eq, Default)]
pub struct BatteryFrame {
    /// Voltage times current. Negative = discharging.
    pub system_power_mw: i64,
    /// Pack voltage.
    pub voltage_mv: i64,
    /// Instantaneous current (signed; negative = discharging).
    pub instant_amperage_ma: i64,
    /// State of charge as a percentage.
    pub soc_percent: i64,
    /// Battery pack temperature in degrees Celsius.
    pub temperature_c: i64,
    /// Gauge estimate of time-to-empty / time-to-full in whole minutes.
    pub time_remaining_min: Option<i64>,
    /// True if the pack is actively charging.
    pub is_charging: bool,
    /// True if an external power source is connected.
    pub external_connected: bool,
}

/// Per-process deltas over one sampling interval.
///
/// Every process appears by name and owner; the metrics that the system does
/// not let us read are `None`, never fabricated.
#[derive(Debug, Clone, PartialEq, Eq)]
pub struct ProcRow {
    pub pid: i32,
    pub start_abstime: Option<u64>,
    pub executable: Option<String>,
    pub footprint_bytes: Option<u64>,
    /// Parent pid.
    pub ppid: i32,
    /// Owning (effective) user id of the process.
    pub uid: u32,
    /// True if this process is owned by the current user.
    pub same_uid: bool,
    /// Best-effort process name.
    pub name: String,
    /// CPU utilisation over the interval, in percent of one core.
    pub cpu_percent: Option<u64>,
    /// Power draw attributed to this process.
    pub energy_mw: Option<u64>,
    /// Total energy this process has used since it started, a lifetime counter.
    pub lifetime_energy_j: Option<u64>,
    /// Disk bytes read per second over the interval.
    pub disk_read_bps: Option<u64>,
    /// Disk bytes written per second over the interval.
    pub disk_write_bps: Option<u64>,
    /// Idle + interrupt wakeups per second over the interval.
    pub wakeups_per_s: Option<u64>,
}

/// `ProcRow` with its texts as sequences.
pub ghost struct ProcRowView {
    pub pid: i32,
    pub start_abstime: Option<u64>,
    pub executable: Option<Seq<char>>,
    pub footprint_bytes: Option<u64>,
    pub ppid: i32,
    pub uid: u32,
    pub same_uid: bool,
    pub name: Seq<char>,
    pub cpu_percent: Option<u64>,
    pub energy_mw: Option<u64>,
    pub lifetime_energy_j: Option<u64>,
    pub disk_read_bps: Option<u64>,
    pub disk_write_bps: Option<u64>,
    pub wakeups_per_s: Option<u64>,
}

impl View for ProcRow {
    type V = ProcRowView;

    open spec fn view(&self) -> ProcRowView {
        ProcRowView {
            pid: self.pid,
            start_abstime: self.start_abstime,
            executable: opt_text(self.executable),
            footprint_bytes: self.footprint_bytes,
            ppid: self.ppid,
            uid: self.uid,
            same_uid: self.same_uid,
            name: self.name@,
            cpu_percent: self.cpu_percent,
            energy_mw: self.energy_mw,
            lifetime_energy_j: self.lifetime_energy_j,
            disk_read_bps: self.disk_read_bps,
            disk_write_bps: self.disk_write_bps,
            wakeups_per_s: self.wakeups_per_s,
        }
    }
}

impl ProcRow {
    /// The rank score of a row: measured energy if there is any, else CPU use
    /// scaled to a nominal power per core, else minus one.
    pub open spec fn rank(self, nominal_mw_per_core: u64) -> int {
        match self.energy_mw {
            Some(e) => e as int,
            None => match self.cpu_percent {
                Some(c) => (c * nominal_mw_per_core) / 100_000_000,
                None => -1_000_000,
            },
        }
    }

    /// Rank score for sorting. Rows without metrics rank lowest.
    pub fn rank_mw(&self, nominal_mw_per_core: u64) -> (r: i128)
        ensures
            r == self.rank(nominal_mw_per_core),
    {
        if let Some(e) = self.energy_mw {
            return e as i128;
        }
        if let Some(c) = self.cpu_percent {
            proof {
                assert(0 <= c * nominal_mw_per_core <= u64::MAX * u64::MAX) by (nonlinear_arith)
                    requires
                        0 <= c <= u64::MAX,
                        0 <= nominal_mw_per_core <= u64::MAX,
                ;
            }
            let p: u128 = c as u128 * nominal_mw_per_core as u128;
            return (p / 100_000_000) as i128;
        }
        -1_000_000
    }
}

/// System-wide SoC power over the interval; `None` if the matching channel was
/// not found on this chip.
#[derive(Debug, Clone, Copy, PartialEq, Eq, Default)]
pub struct SocPower {
    pub cpu_w: Option<u64>,
    pub gpu_w: Option<u64>,
    pub ane_w: Option<u64>,
    pub dram_w: Option<u64>,
    /// SoC display block, not the panel or its backlight.
    pub display_w: Option<u64>,
    /// Sum of every counted energy channel.
    pub total_w: u64,
    /// CPU active-residency fraction.
    pub cpu_active_residency: Option<i64>,
    /// GPU active-residency fraction.
    pub gpu_active_residency: Option<i64>,
    /// Highest active CPU DVFS step reached this interval (1-based ordinal).
    pub cpu_top_pstate: Option<u32>,
    /// Highest active GPU DVFS step reached this interval.
    pub gpu_top_pstate: Option<u32>,
}

/// One process's apportioned GPU share.
#[derive(Debug, Clone, PartialEq, Eq)]
pub struct GpuUser {
    pub pid: i32,
    pub name: String,
    /// Raw utilisation counter delta (relative weight).
    pub util: u64,
    /// Apportioned GPU power (estimate, not a hardware counter).
    pub gpu_mw: u64,
}

/// GPU attribution: who last submitted work, and system-wide use.
#[derive(Debug, Clone, PartialEq, Eq, Default)]
pub struct GpuFrame {
    /// PID that last submitted GPU work.
    pub top_submitter_pid: Option<i32>,
    /// Resolved name of the top submitter.
    pub top_submitter_name: Option<String>,
    /// Owning uid of the top submitter.
    pub top_submitter_uid: Option<u32>,
    /// How many of the sub-samples named the top submitter.
    pub top_submitter_hits: u32,
    pub total_samples: u32,
    /// System GPU utilisation in percent.
    pub device_util_pct: Option<i64>,
    /// GPU in-use system memory in bytes.
    pub in_use_mem_bytes: Option<u64>,
    /// Processes with a readable GPU utilisation share.
    pub users: Vec<GpuUser>,
}

/// System-wide I/O throughput over the interval, in millionths per second.
#[derive(Debug, Clone, Copy, PartialEq, Eq, Default)]
pub struct IoFrame {
    pub disk_read_bps: u64,
    pub disk_write_bps: u64,
    /// Disk operations per second (read + write).
    pub disk_iops: u64,
    pub net_rx_bps: u64,
    pub net_tx_bps: u64,
}

/// The system's own verdict on how close the machine is to throttling.
#[derive(Debug, Clone, Copy, PartialEq, Eq, Default)]
pub enum ThermalPressure {
    #[default]
    Nominal,
    Fair,
    Serious,
    Critical,
    /// State token outside the documented range.
    Unknown(u64),
}

impl ThermalPressure {
    /// The text of a pressure level.
    pub open spec fn text(self) -> Seq<char> {
        match self {
            ThermalPressure::Nominal => "NOMINAL"@,
            ThermalPressure::Fair => "FAIR"@,
            ThermalPressure::Serious => "SERIOUS"@,
            ThermalPressure::Critical => "CRITICAL"@,
            ThermalPressure::Unknown(v) => "UNKNOWN("@ + signed_digits(v as int) + ")"@,
        }
    }

    pub fn label(&self) -> (r: String)
        ensures
            r@ == self.text(),
    {
        match self {
            ThermalPressure::Nominal => text::copy("NOMINAL"),
            ThermalPressure::Fair => text::copy("FAIR"),
            ThermalPressure::Serious => text::copy("SERIOUS"),
            ThermalPressure::Critical => text::copy("CRITICAL"),
            ThermalPressure::Unknown(v) => {
                let mut r = text::copy("UNKNOWN(");
                r.append(num::decimal(*v as u128).as_str());
                r.append(")");
                r
            },
        }
    }

    /// True when the OS reports heat pressure (anything above nominal).
    pub fn is_elevated(&self) -> (r: bool)
        ensures
            r == (*self !is Nominal),
    {
        match self {
            ThermalPressure::Nominal => false,
            _ => true,
        }
    }
}

/// Die temperatures and thermal pressure.
#[derive(Debug, Clone, Copy, PartialEq, Eq, Default)]
pub struct ThermalFrame {
    /// Hottest CPU die sensor, in degrees Celsius.
    pub cpu_die_max_c: Option<i64>,
    /// Mean CPU die temperature across the CPU sensors.
    pub cpu_die_mean_c: Option<i64>,
    /// Hottest GPU die sensor.
    pub gpu_die_max_c: Option<i64>,
    /// Total system power (independent cross-check).
    pub pstr_w: Option<i64>,
    /// Number of CPU + GPU temperature sensors actually read.
    pub sensor_count: usize,
    /// OS thermal pressure verdict.
    pub pressure: ThermalPressure,
}

/// One complete sample tick.
#[derive(Debug, Clone, PartialEq, Eq)]
pub struct Sample {
    /// The interval between the two snapshots used to compute deltas.
    pub dt_ns: u64,
    pub battery: Option<BatteryFrame>,
    pub soc: Option<SocPower>,
    pub thermal: Option<ThermalFrame>,
    pub gpu: Option<GpuFrame>,
    pub io: Option<IoFrame>,
    pub procs: Vec<ProcRow>,
}

} // verus!
