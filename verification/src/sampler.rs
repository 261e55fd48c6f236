//! The sampler traits: one implementation per signal source.
//!
//! Each sampler owns its state and, on each tick, gives the deltas observed
//! since the tick before. The first tick of a stateful sampler may give nothing
//! while it takes its baseline. Intervals count nanoseconds.

use crate::types::{BatteryFrame, ProcRow, SocPower, ThermalFrame};
use vstd::prelude::*;

verus! {

/// A source of power or heat telemetry.
pub trait Sampler {
    /// Name for diagnostics.
    fn name(&self) -> &'static str;
}

/// Sampler of per-process rows.
pub trait ProcSampler: Sampler {
    fn tick(&mut self, dt_ns: u64) -> Vec<ProcRow>;
}

/// Sampler of the battery; `None` without one, as on a desktop machine.
pub trait BatterySampler: Sampler {
    fn read(&mut self) -> Option<BatteryFrame>;
}

/// Sampler of SoC power over the interval; `None` if it is unavailable.
pub trait PowerSampler: Sampler {
    fn tick(&mut self, dt_ns: u64) -> Option<SocPower>;
}

/// Sampler of die temperatures and thermal pressure at one instant.
pub trait ThermalSampler: Sampler {
    fn read(&mut self) -> ThermalFrame;
}

} // verus!
