//! Battery registry readings and their normalisation.
use vstd::prelude::*;

verus! {

/// How a device is connected to the Mac.
#[derive(Clone, Copy, Debug, PartialEq, Eq, Structural, PartialOrd, Ord, Hash)]
pub enum InterfaceType {
    Unknown,
    USB,
    WiFi,
}

/// Power adapter details reported by the battery registry.
#[derive(Clone, Debug)]
pub struct AdapterDetails {
    pub name: Option<String>,
    pub description: Option<String>,
}

/// The registry's power telemetry, in milliwatts.
#[derive(Clone, Copy, Debug)]
pub struct PowerTelemetry {
    pub system_power_in: u64,
    pub system_load: u64,
    pub battery_power: u64,
    pub adapter_efficiency_loss: u64,
}

/// The battery registry entry (`AppleSmartBattery`), as far as the
/// normalisation reads it.
#[derive(Clone, Debug)]
pub struct IORegistry {
    pub is_charging: bool,
    /// Instantaneous battery current in mA; its sign is the charge direction.
    pub instant_amperage: i32,
    /// Averaged battery current in mA.
    pub amperage: i32,
    /// Remaining time in minutes; `-1` or `65535` while still computing.
    pub time_remaining: i32,
    pub update_time: i64,
    pub cycle_count: i32,
    /// Charge level as a percentage (0-100).
    pub current_capacity: i32,
    /// Upper bound of `current_capacity`.
    pub max_capacity: i32,
    pub design_capacity: i32,
    pub apple_raw_current_capacity: i32,
    pub apple_raw_max_capacity: i32,
    pub adapter_details: AdapterDetails,
    /// The power telemetry, when the registry has it.
    pub telemetry: Option<PowerTelemetry>,
}

/// The System Management Controller power readings.
/// Power is counted in tenths of a watt and remaining times in milliseconds
/// (a negative time stands for a value that was not a finite number).
#[derive(Clone, Copy, Debug)]
pub struct SMCPowerData {
    /// The controller's own charging flag (`CHCC`).
    pub charging: bool,
    pub delivery_rate: i64,
    pub system_total: i64,
    pub brightness: i64,
    pub heatpipe: i64,
    pub time_to_empty_ms: i64,
    pub time_to_full_ms: i64,
}

impl SMCPowerData {
    /// The controller's charging flag.
    pub fn is_charging(&self) -> (r: bool)
        ensures
            r == self.charging,
    {
        self.charging
    }
}

/// Registry value that means "still computing".
pub const IOKIT_UNKNOWN: i32 = -1;

/// Registry sentinel value for an unknown remaining time.
pub const IOKIT_SENTINEL: i32 = 65535;

/// Longest remaining time, in minutes, that is taken as plausible.
pub const MAX_PLAUSIBLE_MIN: i32 = 1440;

/// Longest remaining time, in milliseconds, that is taken as plausible (one day).
pub const MAX_PLAUSIBLE_MS: i64 = 86400000;

/// Milliseconds in one minute.
pub const MS_PER_MINUTE: u64 = 60000;

/// A registry remaining time (minutes) is usable: not a sentinel and within one day.
pub open spec fn iokit_minutes_usable(minutes: int) -> bool {
    &&& minutes != IOKIT_UNKNOWN
    &&& minutes != IOKIT_SENTINEL
    &&& 1 <= minutes <= MAX_PLAUSIBLE_MIN
}

/// A controller remaining time (milliseconds) is usable: positive and under one day.
pub open spec fn smc_ms_usable(ms: int) -> bool {
    0 < ms < MAX_PLAUSIBLE_MS
}

/// Converts the registry `TimeRemaining` (minutes) to milliseconds, rejecting
/// the sentinels and implausible magnitudes.
pub fn time_remain_iokit(minutes: i32) -> (r: Option<u64>)
    ensures
        r is Some <==> iokit_minutes_usable(minutes as int),
        r matches Some(ms) ==> ms == minutes * MS_PER_MINUTE,
{
    if minutes != IOKIT_UNKNOWN && minutes != IOKIT_SENTINEL && 1 <= minutes && minutes
        <= MAX_PLAUSIBLE_MIN {
        Some((minutes as u64) * MS_PER_MINUTE)
    } else {
        None
    }
}

/// The charging direction seen by the Mac itself.
pub open spec fn spec_is_charging_local(io: IORegistry, smc: SMCPowerData) -> bool {
    if io.instant_amperage != 0 {
        io.instant_amperage > 0
    } else if io.amperage != 0 {
        io.amperage > 0
    } else {
        io.is_charging || smc.charging
    }
}

/// Local charging detection that does not trust the controller flag alone:
/// the sign of the instantaneous current decides, then the averaged current,
/// then the registry flag or the controller flag.
pub fn is_charging_local(io: &IORegistry, smc: &SMCPowerData) -> (r: bool)
    ensures
        r == spec_is_charging_local(*io, *smc),
{
    if io.instant_amperage != 0 {
        return io.instant_amperage > 0;
    }
    if io.amperage != 0 {
        return io.amperage > 0;
    }
    io.is_charging || smc.is_charging()
}

/// The remaining time, in milliseconds, chosen from the registry and the controller.
pub open spec fn spec_time_remain_from(io: IORegistry, smc: SMCPowerData) -> int {
    if iokit_minutes_usable(io.time_remaining as int) {
        io.time_remaining * MS_PER_MINUTE
    } else if smc_ms_usable(smc.time_to_empty_ms as int) {
        smc.time_to_empty_ms as int
    } else if smc_ms_usable(smc.time_to_full_ms as int) {
        smc.time_to_full_ms as int
    } else {
        0
    }
}

/// Picks the most reliable remaining-time estimate: the registry value when it is
/// usable, else the first usable of the controller's time to empty and time to
/// full, else zero.
pub fn time_remain_from(io: &IORegistry, smc: &SMCPowerData) -> (r: u64)
    ensures
        r == spec_time_remain_from(*io, *smc),
{
    if let Some(d) = time_remain_iokit(io.time_remaining) {
        return d;
    }
    let limit: i64 = MAX_PLAUSIBLE_MS;
    // The controller value that is not a sentinel is the right one; both are tried.
    if smc.time_to_empty_ms > 0 && smc.time_to_empty_ms < limit {
        return smc.time_to_empty_ms as u64;
    }
    if smc.time_to_full_ms > 0 && smc.time_to_full_ms < limit {
        return smc.time_to_full_ms as u64;
    }
    0
}

/// Which readings the absolute battery level (a percentage) is computed from.
#[derive(Clone, Copy, Debug, PartialEq, Eq, Structural)]
pub enum BatteryLevelBasis {
    /// `current / max * 100` of the raw capacities.
    RawRatio { current: i32, max: i32 },
    /// `current / max * 100` of the percentage capacities.
    Ratio { current: i32, max: i32 },
    /// Neither capacity pair is usable: the level is zero.
    Zero,
}

/// The basis of the absolute battery level of a registry entry.
pub open spec fn spec_absolute_battery_level(io: IORegistry) -> BatteryLevelBasis {
    if io.apple_raw_max_capacity > 0 {
        BatteryLevelBasis::RawRatio {
            current: io.apple_raw_current_capacity,
            max: io.apple_raw_max_capacity,
        }
    } else if io.max_capacity > 0 {
        BatteryLevelBasis::Ratio { current: io.current_capacity, max: io.max_capacity }
    } else {
        BatteryLevelBasis::Zero
    }
}

/// Chooses how the absolute battery level is computed: from the raw capacity
/// ratio when the raw maximum is positive, else from the percentage capacity
/// ratio when its maximum is positive, else zero (neither pair is usable).
pub fn absolute_battery_level(io: &IORegistry) -> (r: BatteryLevelBasis)
    ensures
        r == spec_absolute_battery_level(*io),
{
    if io.apple_raw_max_capacity > 0 {
        BatteryLevelBasis::RawRatio {
            current: io.apple_raw_current_capacity,
            max: io.apple_raw_max_capacity,
        }
    } else if io.max_capacity > 0 {
        BatteryLevelBasis::Ratio { current: io.current_capacity, max: io.max_capacity }
    } else {
        BatteryLevelBasis::Zero
    }
}

/// The view of an optional string.
pub open spec fn opt_str_view(s: Option<String>) -> Option<Seq<char>> {
    match s {
        Some(v) => Some(v@),
        None => None,
    }
}

/// The adapter name of a registry entry: its name, else its description.
pub open spec fn spec_adapter_name(details: AdapterDetails) -> Option<Seq<char>> {
    match details.name {
        Some(n) => Some(n@),
        None => opt_str_view(details.description),
    }
}

/// The adapter's name, falling back to its description.
pub fn adapter_name(details: &AdapterDetails) -> (r: Option<String>)
    ensures
        opt_str_view(r) == spec_adapter_name(*details),
{
    match &details.name {
        Some(n) => Some(n.clone()),
        None => match &details.description {
            Some(d) => Some(d.clone()),
            None => None,
        },
    }
}

/// The whole-number part of a normalised reading; the power figures, which are
/// fractional, are computed beside it.
#[derive(Clone, Debug)]
pub struct ResourceStatus {
    pub is_local: bool,
    pub is_charging: bool,
    pub time_remain_ms: u64,
    pub last_update: i64,
    pub adapter_name: Option<String>,
    pub cycle_count: i32,
    pub current_capacity: i32,
    pub max_capacity: i32,
    pub design_capacity: i32,
    pub battery_level: i32,
    pub absolute_battery_level: BatteryLevelBasis,
}

/// The fields that a remote and a local reading take alike from the registry.
pub open spec fn status_common(r: ResourceStatus, io: IORegistry) -> bool {
    &&& r.last_update == io.update_time
    &&& opt_str_view(r.adapter_name) == spec_adapter_name(io.adapter_details)
    &&& r.cycle_count == io.cycle_count
    &&& r.current_capacity == io.apple_raw_current_capacity
    &&& r.max_capacity == io.apple_raw_max_capacity
    &&& r.design_capacity == io.design_capacity
    &&& r.battery_level == io.current_capacity
    &&& r.absolute_battery_level == spec_absolute_battery_level(io)
}

/// Normalises the registry entry of a connected iOS device: not local, charging
/// as the registry says, and the registry's remaining time or zero.
pub fn remote_status(io: &IORegistry) -> (r: ResourceStatus)
    ensures
        status_common(r, *io),
        !r.is_local,
        r.is_charging == io.is_charging,
        r.time_remain_ms == (match spec_time_remain_iokit(io.time_remaining as int) {
            Some(ms) => ms,
            None => 0,
        }),
{
    let time_remain_ms = match time_remain_iokit(io.time_remaining) {
        Some(ms) => ms,
        None => 0,
    };
    ResourceStatus {
        is_local: false,
        is_charging: io.is_charging,
        time_remain_ms,
        last_update: io.update_time,
        adapter_name: adapter_name(&io.adapter_details),
        cycle_count: io.cycle_count,
        current_capacity: io.apple_raw_current_capacity,
        max_capacity: io.apple_raw_max_capacity,
        design_capacity: io.design_capacity,
        battery_level: io.current_capacity,
        absolute_battery_level: absolute_battery_level(io),
    }
}

/// The registry remaining time in milliseconds, when usable.
pub open spec fn spec_time_remain_iokit(minutes: int) -> Option<int> {
    if iokit_minutes_usable(minutes) {
        Some(minutes * MS_PER_MINUTE)
    } else {
        None
    }
}

/// Normalises the Mac's own registry entry merged with the controller readings:
/// local, charging by [`is_charging_local`], remaining time by [`time_remain_from`].
pub fn local_status(io: &IORegistry, smc: &SMCPowerData) -> (r: ResourceStatus)
    ensures
        status_common(r, *io),
        r.is_local,
        r.is_charging == spec_is_charging_local(*io, *smc),
        r.time_remain_ms == spec_time_remain_from(*io, *smc),
{
    ResourceStatus {
        is_local: true,
        is_charging: is_charging_local(io, smc),
        time_remain_ms: time_remain_from(io, smc),
        last_update: io.update_time,
        adapter_name: adapter_name(&io.adapter_details),
        cycle_count: io.cycle_count,
        current_capacity: io.apple_raw_current_capacity,
        max_capacity: io.apple_raw_max_capacity,
        design_capacity: io.design_capacity,
        battery_level: io.current_capacity,
        absolute_battery_level: absolute_battery_level(io),
    }
}

/// The charging direction the registry alone gives.
pub open spec fn spec_is_charging_registry(io: IORegistry) -> bool {
    if io.instant_amperage != 0 {
        io.instant_amperage > 0
    } else if io.amperage != 0 {
        io.amperage > 0
    } else {
        io.is_charging
    }
}

/// Charging detection from the registry alone: the sign of the instantaneous
/// current, then of the averaged current, then the registry flag.
pub fn is_charging_registry(io: &IORegistry) -> (r: bool)
    ensures
        r == spec_is_charging_registry(*io),
{
    if io.instant_amperage != 0 {
        return io.instant_amperage > 0;
    }
    if io.amperage != 0 {
        return io.amperage > 0;
    }
    io.is_charging
}

/// Normalises the Mac's own registry entry when the controller cannot be read:
/// local, charging as the registry says by [`is_charging_registry`], and the
/// registry's remaining time or zero.
pub fn local_status_without_controller(io: &IORegistry) -> (r: ResourceStatus)
    ensures
        status_common(r, *io),
        r.is_local,
        r.is_charging == spec_is_charging_registry(*io),
        r.time_remain_ms == (match spec_time_remain_iokit(io.time_remaining as int) {
            Some(ms) => ms,
            None => 0,
        }),
{
    let time_remain_ms = match time_remain_iokit(io.time_remaining) {
        Some(ms) => ms,
        None => 0,
    };
    ResourceStatus {
        is_local: true,
        is_charging: is_charging_registry(io),
        time_remain_ms,
        last_update: io.update_time,
        adapter_name: adapter_name(&io.adapter_details),
        cycle_count: io.cycle_count,
        current_capacity: io.apple_raw_current_capacity,
        max_capacity: io.apple_raw_max_capacity,
        design_capacity: io.design_capacity,
        battery_level: io.current_capacity,
        absolute_battery_level: absolute_battery_level(io),
    }
}

/// Without the controller the Mac's reading differs from one with it only where
/// the controller would add: its charging flag and its remaining times.
pub proof fn law_registry_alone_agrees(io: IORegistry, smc: SMCPowerData)
    requires
        !smc.charging,
        !smc_ms_usable(smc.time_to_empty_ms as int),
        !smc_ms_usable(smc.time_to_full_ms as int),
    ensures
        spec_is_charging_local(io, smc) == spec_is_charging_registry(io),
        spec_time_remain_from(io, smc) == (match spec_time_remain_iokit(io.time_remaining as int) {
            Some(ms) => ms,
            None => 0,
        }),
{
}

/// The current's sign decides the charging direction: the instantaneous current
/// when it is nonzero, else the averaged current when it is nonzero, whatever
/// the flags say; only with no current at all do the flags decide (the
/// registry's or the controller's for the Mac, the registry's alone without
/// the controller).
pub proof fn law_current_sign_decides_charging(io: IORegistry, smc: SMCPowerData)
    ensures
        io.instant_amperage != 0 ==> spec_is_charging_local(io, smc) == (io.instant_amperage > 0)
            && spec_is_charging_registry(io) == (io.instant_amperage > 0),
        io.instant_amperage == 0 && io.amperage != 0 ==> spec_is_charging_local(io, smc) == (
        io.amperage > 0) && spec_is_charging_registry(io) == (io.amperage > 0),
        io.instant_amperage == 0 && io.amperage == 0 ==> spec_is_charging_local(io, smc) == (
        io.is_charging || smc.charging) && spec_is_charging_registry(io) == io.is_charging,
{
}

/// The remaining time is the registry's minutes in milliseconds when they lie
/// within one day (the sentinels never do); otherwise, whatever else the
/// registry holds, it is the controller's time to empty when positive and under
/// a day, else its time to full when so, else zero. It never exceeds a day.
pub proof fn law_remaining_time_falls_back_to_controller(io: IORegistry, smc: SMCPowerData)
    ensures
        1 <= io.time_remaining <= 1440 ==> spec_time_remain_from(io, smc) == io.time_remaining
            * 60000,
        !(1 <= io.time_remaining <= 1440) ==> spec_time_remain_from(io, smc) == (if 0
            < smc.time_to_empty_ms < 86400000 {
            smc.time_to_empty_ms as int
        } else if 0 < smc.time_to_full_ms < 86400000 {
            smc.time_to_full_ms as int
        } else {
            0
        }),
        0 <= spec_time_remain_from(io, smc) <= 86400000,
{
}

/// Where a merged reading comes from: the Mac itself, or a device given by
/// its identifier, its name and its connection.
#[derive(Debug, PartialEq, Eq, PartialOrd, Ord, Hash)]
pub enum PowerDataFrom {
    Local,
    Remote((String, String, InterfaceType)),
}

impl Clone for PowerDataFrom {
    fn clone(&self) -> (r: Self)
        ensures
            match (*self, r) {
                (PowerDataFrom::Local, PowerDataFrom::Local) => true,
                (PowerDataFrom::Remote(a), PowerDataFrom::Remote(b)) => a.0@ == b.0@ && a.1@ == b.1@
                    && a.2 == b.2,
                _ => false,
            },
    {
        match self {
            PowerDataFrom::Local => PowerDataFrom::Local,
            PowerDataFrom::Remote(remote) => PowerDataFrom::Remote(
                (remote.0.clone(), remote.1.clone(), remote.2),
            ),
        }
    }
}

impl Default for PowerDataFrom {
    fn default() -> (r: Self)
        ensures
            r is Local,
    {
        PowerDataFrom::Local
    }
}

/// A registry entry together with the controller readings, when there are any.
#[derive(Debug)]
pub struct MergedPowerData {
    pub from: PowerDataFrom,
    pub smc: Option<SMCPowerData>,
    pub ioreg: IORegistry,
}

impl MergedPowerData {
    /// The registry entry of the merged reading.
    pub fn ioreg(&self) -> (r: &IORegistry)
        ensures
            *r == self.ioreg,
    {
        &self.ioreg
    }
}

} // verus!
