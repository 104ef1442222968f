//! Battery level takeover for Android: the verified decisions of the
//! daemon. Text formats (configuration, voltage table, state file, sysfs
//! values, `dumpsys` output), the choice of battery nodes and of the sign of
//! the current, and the integer state machines of the monitoring loop.
use vstd::prelude::*;

pub mod config;
pub mod monitor;
pub mod smoother;
pub mod source;
pub mod text;
pub mod util;
pub mod vcurve;

verus! {

} // verus!
