//! The battery from the properties of the power source.
//!
//! System drain is voltage times current: negative while discharging.

use crate::sampler::Sampler;
use crate::types::BatteryFrame;
use vstd::prelude::*;

verus! {

/// What the power source publishes; a property that it lacks is `None`.
/// Voltage, capacity and temperature are in millionths of their unit, currents
/// in whole milliamperes.
#[derive(Debug, Clone, Copy, PartialEq, Eq)]
pub struct BatteryProperties {
    pub voltage: Option<i64>,
    pub instant_amperage: Option<i64>,
    pub amperage: Option<i64>,
    pub current_capacity: Option<i64>,
    /// In hundredths of a degree.
    pub temperature: Option<i64>,
    pub time_remaining: Option<i64>,
    pub is_charging: Option<bool>,
    pub external_connected: Option<bool>,
}

/// The nearest value that fits.
pub open spec fn clamped(x: int) -> i64 {
    if x > i64::MAX {
        i64::MAX
    } else if x < i64::MIN {
        i64::MIN
    } else {
        x as i64
    }
}

/// A quotient rounded toward zero.
pub open spec fn toward_zero(x: int, d: int) -> int {
    if x < 0 {
        -(-x / d)
    } else {
        x / d
    }
}

/// The current: the instantaneous one, or the average where that is missing.
pub open spec fn current_of(p: BatteryProperties) -> Option<i64> {
    match p.instant_amperage {
        Some(a) => Some(a),
        None => p.amperage,
    }
}

/// The estimate, unless the gauge has none.
pub open spec fn estimate_of(p: BatteryProperties) -> Option<i64> {
    match p.time_remaining {
        Some(m) => if 0 < m < 65535 {
            Some(m)
        } else {
            None
        },
        None => None,
    }
}

/// A reading, or zero.
pub open spec fn or_nothing(v: Option<i64>) -> i64 {
    match v {
        Some(x) => x,
        None => 0,
    }
}

/// The frame of some properties; there is none without voltage or current.
pub open spec fn frame_of(p: BatteryProperties) -> Option<BatteryFrame> {
    match (p.voltage, current_of(p)) {
        (Some(mv), Some(ma)) => Some(
            BatteryFrame {
                system_power_mw: clamped(toward_zero(mv * ma, 1000)),
                voltage_mv: mv,
                instant_amperage_ma: clamped(ma * 1_000_000),
                soc_percent: or_nothing(p.current_capacity),
                temperature_c: toward_zero(or_nothing(p.temperature) as int, 100) as i64,
                time_remaining_min: estimate_of(p),
                is_charging: p.is_charging == Some(true),
                external_connected: p.external_connected == Some(true),
            },
        ),
        _ => None,
    }
}

fn clamp(x: i128) -> (r: i64)
    ensures
        r == clamped(x as int),
{
    if x > i64::MAX as i128 {
        i64::MAX
    } else if x < i64::MIN as i128 {
        i64::MIN
    } else {
        x as i64
    }
}

fn divide(x: i128, d: i128) -> (r: i128)
    requires
        d > 0,
        x > i128::MIN,
    ensures
        r == toward_zero(x as int, d as int),
{
    proof {
        assert(x >= 0 ==> 0 <= x / d <= x) by (nonlinear_arith)
            requires
                d > 0,
        ;
        assert(x < 0 ==> 0 <= -x / d as int <= -x) by (nonlinear_arith)
            requires
                d > 0,
        ;
    }
    if x < 0 {
        -((-x) / d)
    } else {
        x / d
    }
}

/// Reads the battery.
pub struct AppleSmartBatterySampler;

impl AppleSmartBatterySampler {
    pub fn new() -> (r: AppleSmartBatterySampler)
        ensures
            r == AppleSmartBatterySampler,
    {
        AppleSmartBatterySampler
    }

    /// The battery's state, from its properties if there is a battery.
    pub fn read(&mut self, properties: Option<BatteryProperties>) -> (r: Option<BatteryFrame>)
        ensures
            r == match properties {
                Some(p) => frame_of(p),
                None => None,
            },
            *final(self) == *old(self),
    {
        let p = match properties {
            Some(p) => p,
            None => {
                return None;
            },
        };
        let current = match p.instant_amperage {
            Some(a) => Some(a),
            None => p.amperage,
        };
        match (p.voltage, current) {
            (Some(mv), Some(ma)) => {
                proof {
                    assert(-0x4000_0000_0000_0000_0000_0000_0000_0000 <= mv * ma
                        <= 0x4000_0000_0000_0000_0000_0000_0000_0000) by (nonlinear_arith)
                        requires
                            i64::MIN <= mv <= i64::MAX,
                            i64::MIN <= ma <= i64::MAX,
                    ;
                }
                let capacity: i64 = match p.current_capacity {
                    Some(c) => c,
                    None => 0,
                };
                let heat: i64 = match p.temperature {
                    Some(t) => t,
                    None => 0,
                };
                Some(
                    BatteryFrame {
                        system_power_mw: clamp(divide(mv as i128 * ma as i128, 1000)),
                        voltage_mv: mv,
                        instant_amperage_ma: clamp(ma as i128 * 1_000_000),
                        soc_percent: capacity,
                        temperature_c: divide(heat as i128, 100) as i64,
                        time_remaining_min: match p.time_remaining {
                            Some(m) => if 0 < m && m < 65535 {
                                Some(m)
                            } else {
                                None
                            },
                            None => None,
                        },
                        is_charging: match p.is_charging {
                            Some(b) => b,
                            None => false,
                        },
                        external_connected: match p.external_connected {
                            Some(b) => b,
                            None => false,
                        },
                    },
                )
            },
            _ => None,
        }
    }
}

impl Sampler for AppleSmartBatterySampler {
    fn name(&self) -> (r: &'static str)
        ensures
            r@ == "AppleSmartBattery"@,
    {
        "AppleSmartBattery"
    }
}

/// While the current is negative the machine discharges: the power has the
/// sign of the current.
pub proof fn power_has_the_sign_of_the_current(p: BatteryProperties)
    requires
        frame_of(p) is Some,
        p.voltage->0 > 0,
    ensures
        current_of(p)->0 <= 0 ==> frame_of(p)->0.system_power_mw <= 0,
        current_of(p)->0 >= 0 ==> frame_of(p)->0.system_power_mw >= 0,
{
    let mv = p.voltage->0;
    let ma = current_of(p)->0;
    assert(ma <= 0 ==> mv * ma <= 0) by (nonlinear_arith)
        requires
            mv > 0,
    ;
    assert(ma >= 0 ==> mv * ma >= 0) by (nonlinear_arith)
        requires
            mv > 0,
    ;
}

} // verus!
