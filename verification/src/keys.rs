//! The keys under which devices have process variables and defaults.

use vstd::prelude::*;

use crate::text;

verus! {

pub const CHARGE: &'static str = "charge";

pub const CORR_A: &'static str = "corrA";

pub const CORR_B: &'static str = "corrB";

pub const DQ_CAL: &'static str = "DQcal";

pub const PEAK_LOW: &'static str = "peak_low";

pub const PEAK_HIGH: &'static str = "peak_high";

pub const BASE_LOW: &'static str = "base_low";

pub const BASE_HIGH: &'static str = "base_high";

/// The output that triggers a device's front-end box.
pub const RESET_TRIGGER: &'static str = "reset_trigger";

/// The keys of the sample windows, in the order in which they are written.
pub const WINDOW_KEYS: [&'static str; 4] = [PEAK_LOW, PEAK_HIGH, BASE_LOW, BASE_HIGH];

/// The name of the dark-charge device that shares the hardware of a wall current monitor.
pub fn dq_companion(wcm_name: &str) -> (res: String)
    ensures
        res@ == wcm_name@ + ":DQ"@,
{
    text::cat2(wcm_name, ":DQ")
}

}
