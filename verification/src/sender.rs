//! The local power sender: the polling interval, the status-bar reading and
//! its text, and the sender's reaction to each message.
use vstd::prelude::*;

use crate::provider::{is_charging_registry, spec_is_charging_registry, IORegistry, SMCPowerData};

verus! {

/// Shortest polling interval, in milliseconds.
pub const MIN_INTERVAL_MS: u64 = 500;

/// Longest polling interval, in milliseconds. Stale preference files (such as
/// a day-long interval persisted by earlier builds) would otherwise stall the chart.
pub const MAX_INTERVAL_MS: u64 = 60000;

/// Polling interval used when the preferences hold none, in milliseconds.
pub const DEFAULT_INTERVAL_MS: u64 = 2000;

/// The interval clamped into `[MIN_INTERVAL_MS, MAX_INTERVAL_MS]`.
pub open spec fn spec_sanitize_interval(ms: int) -> int {
    if ms < MIN_INTERVAL_MS {
        MIN_INTERVAL_MS as int
    } else if ms > MAX_INTERVAL_MS {
        MAX_INTERVAL_MS as int
    } else {
        ms
    }
}

/// Clamps a polling interval (milliseconds) to between 500 ms and 60 s.
pub fn sanitize_interval_ms(ms: u64) -> (r: u64)
    ensures
        r == spec_sanitize_interval(ms as int),
{
    if ms < MIN_INTERVAL_MS {
        MIN_INTERVAL_MS
    } else if ms > MAX_INTERVAL_MS {
        MAX_INTERVAL_MS
    } else {
        ms
    }
}

/// Clamps a polling interval read from the preferences (milliseconds).
pub fn sanitize_interval(ms: u64) -> (r: u64)
    ensures
        r == spec_sanitize_interval(ms as int),
{
    sanitize_interval_ms(ms)
}

/// A sanitised interval is within bounds, an interval within bounds is kept,
/// and sanitising twice is sanitising once.
pub proof fn law_sanitize_interval(ms: int)
    ensures
        MIN_INTERVAL_MS <= spec_sanitize_interval(ms) <= MAX_INTERVAL_MS,
        MIN_INTERVAL_MS <= ms <= MAX_INTERVAL_MS ==> spec_sanitize_interval(ms) == ms,
        spec_sanitize_interval(spec_sanitize_interval(ms)) == spec_sanitize_interval(ms),
{
}

/// The reading shown in the status bar.
#[derive(Clone, Copy, Debug, PartialEq, Eq, Structural)]
pub enum StatusBarItem {
    System,
    Screen,
    Heatpipe,
}

/// The status-bar reading (tenths of a watt): the delivery rate while charging
/// when charging is to be shown, else the chosen item.
pub open spec fn spec_status_bar_text(
    smc: SMCPowerData,
    item: StatusBarItem,
    show_charging: bool,
) -> i64 {
    if smc.charging && show_charging {
        smc.delivery_rate
    } else {
        match item {
            StatusBarItem::System => smc.system_total,
            StatusBarItem::Screen => smc.brightness,
            StatusBarItem::Heatpipe => smc.heatpipe,
        }
    }
}

/// The reading shown in the status bar, in tenths of a watt.
pub fn status_bar_text(smc: &SMCPowerData, status_bar_item: &StatusBarItem, show_charging: bool) -> (r:
    i64)
    ensures
        r == spec_status_bar_text(*smc, *status_bar_item, show_charging),
{
    if smc.is_charging() && show_charging {
        return smc.delivery_rate;
    }
    match status_bar_item {
        StatusBarItem::System => smc.system_total,
        StatusBarItem::Screen => smc.brightness,
        StatusBarItem::Heatpipe => smc.heatpipe,
    }
}

/// Milliwatts in a tenth of a watt.
pub const MW_PER_DECIWATT: u64 = 100;

/// Tenths of a watt in `mw` milliwatts (truncated).
pub open spec fn spec_deciwatts(mw: u64) -> i64 {
    (mw / MW_PER_DECIWATT) as i64
}

/// The readings that stand in for the controller when it cannot be read.
pub open spec fn spec_registry_stand_in(io: IORegistry) -> SMCPowerData {
    SMCPowerData {
        charging: spec_is_charging_registry(io),
        delivery_rate: match io.telemetry {
            Some(t) => spec_deciwatts(t.system_power_in),
            None => 0i64,
        },
        system_total: match io.telemetry {
            Some(t) => spec_deciwatts(t.system_load),
            None => 0i64,
        },
        brightness: 0i64,
        heatpipe: 0i64,
        time_to_empty_ms: -1i64,
        time_to_full_ms: -1i64,
    }
}

/// Readings standing in for the controller when it cannot be read, so that the
/// status bar keeps showing the registry: the system input (as the delivery
/// rate) and the system load of the registry's telemetry (zero without it),
/// charging as the registry says, no screen or heat-pipe figure and no
/// remaining time.
pub fn registry_stand_in(io: &IORegistry) -> (r: SMCPowerData)
    ensures
        r == spec_registry_stand_in(*io),
{
    let (delivery_rate, system_total) = match &io.telemetry {
        Some(t) => (
            (t.system_power_in / MW_PER_DECIWATT) as i64,
            (t.system_load / MW_PER_DECIWATT) as i64,
        ),
        None => (0, 0),
    };
    SMCPowerData {
        charging: is_charging_registry(io),
        delivery_rate,
        system_total,
        brightness: 0,
        heatpipe: 0,
        time_to_empty_ms: -1,
        time_to_full_ms: -1,
    }
}

/// Without the controller the status bar shows the registry's system input
/// while charging is shown and the Mac charges, else its system load for the
/// system item and zero for the screen and heat-pipe items.
pub proof fn law_registry_stand_in_title(io: IORegistry, item: StatusBarItem, show_charging: bool)
    ensures
        spec_status_bar_text(spec_registry_stand_in(io), item, show_charging) == (if spec_is_charging_registry(io) && show_charging {
            spec_registry_stand_in(io).delivery_rate
        } else {
            match item {
                StatusBarItem::System => spec_registry_stand_in(io).system_total,
                _ => 0,
            }
        }),
{
}

/// The character of a decimal digit.
pub open spec fn digit_char(d: int) -> char {
    if d == 0 {
        '0'
    } else if d == 1 {
        '1'
    } else if d == 2 {
        '2'
    } else if d == 3 {
        '3'
    } else if d == 4 {
        '4'
    } else if d == 5 {
        '5'
    } else if d == 6 {
        '6'
    } else if d == 7 {
        '7'
    } else if d == 8 {
        '8'
    } else {
        '9'
    }
}

/// The decimal digits of a natural number, without leading zeros.
pub open spec fn decimal(n: nat) -> Seq<char>
    decreases n,
{
    if n < 10 {
        seq![digit_char(n as int)]
    } else {
        decimal(n / 10).push(digit_char((n % 10) as int))
    }
}

/// The text of a reading of `v` tenths of a watt, with one decimal: "12.3 w",
/// "-0.5 w".
pub open spec fn watts_text(v: int) -> Seq<char> {
    let m: nat = if v < 0 {
        (-v) as nat
    } else {
        v as nat
    };
    let sign: Seq<char> = if v < 0 {
        seq!['-']
    } else {
        Seq::empty()
    };
    sign + decimal(m / 10) + seq!['.', digit_char((m % 10) as int), ' ', 'w']
}

/// Calls std's `String::push`, which appends the character to the end of the string.
#[verifier::external_body]
fn push_char(s: &mut String, c: char)
    ensures
        final(s)@ == old(s)@.push(c),
{
    s.push(c);
}

fn digit(d: u64) -> (c: char)
    requires
        d < 10,
    ensures
        c == digit_char(d as int),
{
    if d == 0 {
        '0'
    } else if d == 1 {
        '1'
    } else if d == 2 {
        '2'
    } else if d == 3 {
        '3'
    } else if d == 4 {
        '4'
    } else if d == 5 {
        '5'
    } else if d == 6 {
        '6'
    } else if d == 7 {
        '7'
    } else if d == 8 {
        '8'
    } else {
        '9'
    }
}

fn push_decimal(s: &mut String, n: u64)
    ensures
        final(s)@ == old(s)@ + decimal(n as nat),
    decreases n,
{
    if n >= 10 {
        push_decimal(s, n / 10);
    }
    push_char(s, digit(n % 10));
    proof {
        if n >= 10 {
            assert(decimal(n as nat) == decimal((n / 10) as nat).push(digit_char((n % 10) as int)));
        }
    }
}

/// The status-bar title, such as "12.3 w".
#[derive(Debug)]
pub struct PowerUpdatedEvent(pub String);

impl PowerUpdatedEvent {
    /// The title for a reading of `value` tenths of a watt, with one decimal
    /// and the unit: "12.3 w".
    pub fn new(value: i64) -> (r: Self)
        ensures
            r.0@ == watts_text(value as int),
    {
        let mut s = String::new();
        let m: u64 = if value < 0 {
            push_char(&mut s, '-');
            ((-(value + 1)) as u64) + 1
        } else {
            value as u64
        };
        push_decimal(&mut s, m / 10);
        push_char(&mut s, '.');
        push_char(&mut s, digit(m % 10));
        push_char(&mut s, ' ');
        push_char(&mut s, 'w');
        let ghost sign: Seq<char> = if value < 0 {
            seq!['-']
        } else {
            Seq::empty()
        };
        assert(s@ =~= sign + decimal((m / 10) as nat) + seq![
            '.',
            digit_char((m % 10) as int),
            ' ',
            'w',
        ]);
        PowerUpdatedEvent(s)
    }

    /// The title for the status-bar reading of the controller readings.
    pub fn new_with(smc: &SMCPowerData, status_bar_item: &StatusBarItem, show_charging: bool) -> (r:
        Self)
        ensures
            r.0@ == watts_text(spec_status_bar_text(*smc, *status_bar_item, show_charging) as int),
    {
        Self::new(status_bar_text(smc, status_bar_item, show_charging))
    }
}

/// A message to the sender.
#[derive(Clone, Copy, Debug, PartialEq, Eq, Structural)]
pub enum SenderMessage {
    /// Send a reading now (the main window has loaded).
    ImmediateSend,
    /// Poll at a new interval (milliseconds).
    ChangeInterval(u64),
    ChangeStatusBarItem(StatusBarItem),
    StatusBarShowCharging(bool),
}

/// A change of the user's preferences.
#[derive(Debug)]
pub enum PreferenceEvent {
    /// The polling interval in milliseconds.
    UpdateInterval(u32),
    StatusBarItem(StatusBarItem),
    StatusBarShowCharging(bool),
    Language(String),
}

/// The sender message for a preference change, if the sender cares.
pub open spec fn spec_message_for(event: PreferenceEvent) -> Option<SenderMessage> {
    match event {
        PreferenceEvent::UpdateInterval(ms) => Some(SenderMessage::ChangeInterval(ms as u64)),
        PreferenceEvent::StatusBarItem(item) => Some(SenderMessage::ChangeStatusBarItem(item)),
        PreferenceEvent::StatusBarShowCharging(show) => Some(SenderMessage::StatusBarShowCharging(show)),
        PreferenceEvent::Language(_) => None,
    }
}

/// Turns a preference change into a sender message: interval, status-bar item
/// and charging display go to the sender; a language change does not.
pub fn message_for(event: &PreferenceEvent) -> (r: Option<SenderMessage>)
    ensures
        r == spec_message_for(*event),
{
    match event {
        PreferenceEvent::UpdateInterval(ms) => Some(SenderMessage::ChangeInterval(*ms as u64)),
        PreferenceEvent::StatusBarItem(item) => Some(SenderMessage::ChangeStatusBarItem(*item)),
        PreferenceEvent::StatusBarShowCharging(show) => Some(SenderMessage::StatusBarShowCharging(*show)),
        PreferenceEvent::Language(_) => None,
    }
}

/// What the sender does next.
#[derive(Clone, Copy, Debug, PartialEq, Eq, Structural)]
pub enum SenderAction {
    /// Read the sensors and send a reading.
    Sample,
    /// Restart the timer with this period (milliseconds).
    Reschedule(u64),
    /// Send the status-bar title again from a fresh controller reading.
    RefreshBar,
}

/// The sender's settings.
#[derive(Clone, Copy, Debug, PartialEq, Eq, Structural)]
pub struct SenderState {
    pub interval_ms: u64,
    pub status_bar_item: StatusBarItem,
    pub show_charging: bool,
}

/// The settings after a message, and the action it calls for.
pub open spec fn spec_handle(state: SenderState, msg: SenderMessage) -> (SenderState, SenderAction) {
    match msg {
        SenderMessage::ImmediateSend => (state, SenderAction::Sample),
        SenderMessage::ChangeInterval(ms) => {
            let period = spec_sanitize_interval(ms as int) as u64;
            (SenderState { interval_ms: period, ..state }, SenderAction::Reschedule(period))
        },
        SenderMessage::ChangeStatusBarItem(item) => (
            SenderState { status_bar_item: item, ..state },
            SenderAction::RefreshBar,
        ),
        SenderMessage::StatusBarShowCharging(show) => (
            SenderState { show_charging: show, ..state },
            SenderAction::RefreshBar,
        ),
    }
}

/// The status-bar reading of a sample (tenths of a watt): the delivery rate when
/// the normalised reading charges and charging is shown, else the chosen item.
pub open spec fn spec_sample_bar(state: SenderState, is_charging: bool, smc: SMCPowerData) -> i64 {
    if is_charging && state.show_charging {
        smc.delivery_rate
    } else {
        spec_status_bar_text(smc, state.status_bar_item, false)
    }
}

impl SenderState {
    /// The settings read from the preferences, with defaults for those missing:
    /// a 2 s interval (sanitised either way), the system power, charging shown.
    pub fn from_preferences(
        update_interval: Option<u64>,
        status_bar_item: Option<StatusBarItem>,
        show_charging: Option<bool>,
    ) -> (r: Self)
        ensures
            r.interval_ms == spec_sanitize_interval(
                (match update_interval {
                    Some(ms) => ms,
                    None => DEFAULT_INTERVAL_MS,
                }) as int,
            ),
            r.status_bar_item == (match status_bar_item {
                Some(item) => item,
                None => StatusBarItem::System,
            }),
            r.show_charging == (match show_charging {
                Some(show) => show,
                None => true,
            }),
    {
        let interval = match update_interval {
            Some(ms) => ms,
            None => DEFAULT_INTERVAL_MS,
        };
        SenderState {
            interval_ms: sanitize_interval(interval),
            status_bar_item: match status_bar_item {
                Some(item) => item,
                None => StatusBarItem::System,
            },
            show_charging: match show_charging {
                Some(show) => show,
                None => true,
            },
        }
    }

    /// Applies a message: a new interval is sanitised and restarts the timer, a new
    /// status-bar item or charging display refreshes the title, an immediate send
    /// samples.
    pub fn handle(&mut self, msg: SenderMessage) -> (action: SenderAction)
        ensures
            (*final(self), action) == spec_handle(*old(self), msg),
    {
        match msg {
            SenderMessage::ImmediateSend => SenderAction::Sample,
            SenderMessage::ChangeInterval(ms) => {
                let period = sanitize_interval_ms(ms);
                self.interval_ms = period;
                SenderAction::Reschedule(period)
            },
            SenderMessage::ChangeStatusBarItem(item) => {
                self.status_bar_item = item;
                SenderAction::RefreshBar
            },
            SenderMessage::StatusBarShowCharging(show) => {
                self.show_charging = show;
                SenderAction::RefreshBar
            },
        }
    }

    /// The status-bar title for a sample whose normalised reading says
    /// `is_charging`.
    pub fn sample_title(&self, is_charging: bool, smc: &SMCPowerData) -> (r: PowerUpdatedEvent)
        ensures
            r.0@ == watts_text(spec_sample_bar(*self, is_charging, *smc) as int),
    {
        let bar = if is_charging && self.show_charging {
            smc.delivery_rate
        } else {
            status_bar_text(smc, &self.status_bar_item, false)
        };
        PowerUpdatedEvent::new(bar)
    }

    /// The status-bar title from the controller readings alone (when the registry
    /// could not be read, or to refresh the title).
    pub fn controller_title(&self, smc: &SMCPowerData) -> (r: PowerUpdatedEvent)
        ensures
            r.0@ == watts_text(
                spec_status_bar_text(*smc, self.status_bar_item, self.show_charging) as int,
            ),
    {
        PowerUpdatedEvent::new_with(smc, &self.status_bar_item, self.show_charging)
    }
}

/// After any message the polling interval is within bounds, if it was before.
pub proof fn law_interval_stays_in_bounds(state: SenderState, msg: SenderMessage)
    requires
        MIN_INTERVAL_MS <= state.interval_ms <= MAX_INTERVAL_MS,
    ensures
        MIN_INTERVAL_MS <= spec_handle(state, msg).0.interval_ms <= MAX_INTERVAL_MS,
{
}

/// While charging is shown, a charging sample shows the delivery rate whatever
/// item is chosen; otherwise the chosen item's reading is shown.
pub proof fn law_charging_shows_delivery(state: SenderState, is_charging: bool, smc: SMCPowerData)
    ensures
        is_charging && state.show_charging ==> spec_sample_bar(state, is_charging, smc) == smc.delivery_rate,
        !(is_charging && state.show_charging) ==> spec_sample_bar(state, is_charging, smc)
            == spec_status_bar_text(smc, state.status_bar_item, false),
{
}

/// Whatever the item, a charging reading shows the delivery rate while charging
/// is shown; otherwise the item's own reading is shown.
pub proof fn law_status_bar_shows_delivery_while_charging(
    smc: SMCPowerData,
    item: StatusBarItem,
    show_charging: bool,
)
    ensures
        smc.charging && show_charging ==> spec_status_bar_text(smc, item, show_charging)
            == smc.delivery_rate,
        !(smc.charging && show_charging) && item == StatusBarItem::System ==> spec_status_bar_text(
            smc,
            item,
            show_charging,
        ) == smc.system_total,
        !(smc.charging && show_charging) && item == StatusBarItem::Screen ==> spec_status_bar_text(
            smc,
            item,
            show_charging,
        ) == smc.brightness,
        !(smc.charging && show_charging) && item == StatusBarItem::Heatpipe
            ==> spec_status_bar_text(smc, item, show_charging) == smc.heatpipe,
{
}

/// Each message sets its own setting to the value it carries and leaves the
/// others as they were: the charging display to `show`, the item to `item`, the
/// interval to the period clamped between 500 ms and 60 s; an immediate send changes nothing.
pub proof fn law_message_sets_its_setting(state: SenderState, show: bool, item: StatusBarItem, ms: u64)
    ensures
        spec_handle(state, SenderMessage::StatusBarShowCharging(show)) == (
        SenderState { show_charging: show, ..state }, SenderAction::RefreshBar),
        spec_handle(state, SenderMessage::ChangeStatusBarItem(item)) == (
        SenderState { status_bar_item: item, ..state }, SenderAction::RefreshBar),
        spec_handle(state, SenderMessage::ChangeInterval(ms)).0 == (SenderState {
            interval_ms: spec_handle(state, SenderMessage::ChangeInterval(ms)).0.interval_ms,
            ..state
        }),
        spec_handle(state, SenderMessage::ChangeInterval(ms)).1 == SenderAction::Reschedule(
            spec_handle(state, SenderMessage::ChangeInterval(ms)).0.interval_ms,
        ),
        spec_handle(state, SenderMessage::ChangeInterval(ms)).0.interval_ms == (if ms < 500 {
            500
        } else if ms > 60000 {
            60000
        } else {
            ms
        }),
        spec_handle(state, SenderMessage::ImmediateSend) == (state, SenderAction::Sample),
{
}

/// The charging display follows the last message about it: turned off and on
/// again (or in any order), it is what the second message says, and turned on,
/// a charging sample shows the delivery rate again.
pub proof fn law_charging_display_follows_last_message(
    state: SenderState,
    first: bool,
    second: bool,
    smc: SMCPowerData,
)
    ensures
        spec_handle(
            spec_handle(state, SenderMessage::StatusBarShowCharging(first)).0,
            SenderMessage::StatusBarShowCharging(second),
        ).0.show_charging == second,
        spec_sample_bar(
            spec_handle(state, SenderMessage::StatusBarShowCharging(true)).0,
            true,
            smc,
        ) == smc.delivery_rate,
{
}

} // verus!
