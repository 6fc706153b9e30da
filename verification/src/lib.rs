//! Power monitoring logic for a macOS menu-bar power assistant: normalisation of
//! battery registry readings, bounded power histories, the charging-session
//! recorder, the device connection tables and the status-bar sender decisions.
//!
//! Readings that the hardware reports as floating point numbers are carried here
//! as integers: power in tenths of a watt and durations in milliseconds.
use vstd::prelude::*;

pub mod device;
pub mod history;
pub mod provider;
pub mod sender;
pub mod statistic;

verus! {

} // verus!
