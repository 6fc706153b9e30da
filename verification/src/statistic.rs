//! Bounded histories of power magnitudes for the terminal sparklines.
use ratatui::widgets::SparklineBar;
use std::collections::VecDeque;
use vstd::prelude::*;

verus! {

/// A bar of ratatui's sparkline widget.
#[verifier::external_type_specification]
#[verifier::external_body]
pub struct ExSparklineBar(SparklineBar);

/// The bar that ratatui makes of a value.
pub uninterp spec fn sparkline_bar_of(value: u64) -> SparklineBar;

/// Calls ratatui's `From<u64> for SparklineBar`, which makes a bar holding the
/// value with no style of its own; the contract claims only that the bar is a
/// function of the value (named [`sparkline_bar_of`]).
#[verifier::external_body]
fn sparkline_bar(value: u64) -> (bar: SparklineBar)
    ensures
        bar == sparkline_bar_of(value),
{
    SparklineBar::from(value)
}

/// Samples kept of the battery power.
pub const BATTERY_HISTORY_LEN: usize = 50;

/// Samples kept of the input power.
pub const INPUT_HISTORY_LEN: usize = 50;

/// Samples kept of the system power.
pub const SYSTEM_HISTORY_LEN: usize = 200;

/// A history after one more sample: the oldest one goes when the cap is exceeded.
pub open spec fn spec_push_bounded(history: Seq<u64>, value: u64, cap: nat) -> Seq<u64> {
    if history.len() + 1 > cap {
        history.push(value).drop_first()
    } else {
        history.push(value)
    }
}

/// The newest `width` samples of a history (all of them when there are fewer).
pub open spec fn spec_window(history: Seq<u64>, width: nat) -> Seq<u64> {
    if history.len() > width {
        history.skip(history.len() - width)
    } else {
        history
    }
}

fn push_bounded(history: &mut VecDeque<u64>, value: u64, cap: usize)
    ensures
        final(history)@ == spec_push_bounded(old(history)@, value, cap as nat),
{
    let ghost old_history = history@;
    history.push_back(value);
    if history.len() > cap {
        history.pop_front();
        assert(history@ =~= old_history.push(value).drop_first());
    }
}

fn window_bars(history: &VecDeque<u64>, width: usize) -> (bars: Vec<SparklineBar>)
    ensures
        bars@.len() == spec_window(history@, width as nat).len(),
        forall|i: int|
            0 <= i < bars@.len() ==> #[trigger] bars@[i] == sparkline_bar_of(
                spec_window(history@, width as nat)[i],
            ),
{
    let len = history.len();
    let start = if len > width {
        len - width
    } else {
        0
    };
    let ghost w = spec_window(history@, width as nat);
    assert(w =~= history@.skip(start as int));
    let mut bars: Vec<SparklineBar> = Vec::new();
    let mut i = start;
    while i < len
        invariant
            start <= i <= len,
            len == history@.len(),
            w == history@.skip(start as int),
            bars@.len() == i - start,
            forall|j: int| 0 <= j < bars@.len() ==> #[trigger] bars@[j] == sparkline_bar_of(w[j]),
        decreases len - i,
    {
        bars.push(sparkline_bar(history[i]));
        i = i + 1;
    }
    bars
}

/// The recent battery, input and system power magnitudes (whole watts), each
/// history bounded.
#[derive(Debug)]
pub struct PowerStatistic {
    battery_history: VecDeque<u64>,
    input_history: VecDeque<u64>,
    system_history: VecDeque<u64>,
}

impl PowerStatistic {
    /// The battery power history, oldest first.
    pub closed spec fn battery(&self) -> Seq<u64> {
        self.battery_history@
    }

    /// The input power history, oldest first.
    pub closed spec fn input(&self) -> Seq<u64> {
        self.input_history@
    }

    /// The system power history, oldest first.
    pub closed spec fn system(&self) -> Seq<u64> {
        self.system_history@
    }

    /// Every history is within its cap.
    pub open spec fn wf(&self) -> bool {
        &&& self.battery().len() <= BATTERY_HISTORY_LEN
        &&& self.input().len() <= INPUT_HISTORY_LEN
        &&& self.system().len() <= SYSTEM_HISTORY_LEN
    }

    /// Empty histories.
    pub fn new() -> (r: Self)
        ensures
            r.wf(),
            r.battery() == Seq::<u64>::empty(),
            r.input() == Seq::<u64>::empty(),
            r.system() == Seq::<u64>::empty(),
    {
        PowerStatistic {
            battery_history: VecDeque::new(),
            input_history: VecDeque::new(),
            system_history: VecDeque::new(),
        }
    }

    /// Appends one sample to each history, dropping the oldest sample of a
    /// history that exceeds its cap (50 battery and input samples, 200 system
    /// samples).
    pub fn update(&mut self, battery_power: u64, input_power: u64, system_power: u64)
        ensures
            old(self).wf() ==> final(self).wf(),
            final(self).battery() == spec_push_bounded(
                old(self).battery(),
                battery_power,
                BATTERY_HISTORY_LEN as nat,
            ),
            final(self).input() == spec_push_bounded(
                old(self).input(),
                input_power,
                INPUT_HISTORY_LEN as nat,
            ),
            final(self).system() == spec_push_bounded(
                old(self).system(),
                system_power,
                SYSTEM_HISTORY_LEN as nat,
            ),
    {
        push_bounded(&mut self.battery_history, battery_power, BATTERY_HISTORY_LEN);
        push_bounded(&mut self.input_history, input_power, INPUT_HISTORY_LEN);
        push_bounded(&mut self.system_history, system_power, SYSTEM_HISTORY_LEN);
    }

    /// Bars of the newest `width` battery samples, oldest first.
    pub fn battery_history(&self, width: usize) -> (bars: Vec<SparklineBar>)
        ensures
            bars@.len() == spec_window(self.battery(), width as nat).len(),
            forall|i: int|
                0 <= i < bars@.len() ==> #[trigger] bars@[i] == sparkline_bar_of(
                    spec_window(self.battery(), width as nat)[i],
                ),
    {
        window_bars(&self.battery_history, width)
    }

    /// Bars of the newest `width` input samples, oldest first.
    pub fn input_history(&self, width: usize) -> (bars: Vec<SparklineBar>)
        ensures
            bars@.len() == spec_window(self.input(), width as nat).len(),
            forall|i: int|
                0 <= i < bars@.len() ==> #[trigger] bars@[i] == sparkline_bar_of(
                    spec_window(self.input(), width as nat)[i],
                ),
    {
        window_bars(&self.input_history, width)
    }

    /// Bars of the newest `width` system samples, oldest first.
    pub fn system_history(&self, width: usize) -> (bars: Vec<SparklineBar>)
        ensures
            bars@.len() == spec_window(self.system(), width as nat).len(),
            forall|i: int|
                0 <= i < bars@.len() ==> #[trigger] bars@[i] == sparkline_bar_of(
                    spec_window(self.system(), width as nat)[i],
                ),
    {
        window_bars(&self.system_history, width)
    }
}

impl Default for PowerStatistic {
    fn default() -> (r: Self)
        ensures
            r.wf(),
            r.battery() == Seq::<u64>::empty(),
            r.input() == Seq::<u64>::empty(),
            r.system() == Seq::<u64>::empty(),
    {
        PowerStatistic::new()
    }
}

/// A bounded history never exceeds its cap, keeps its newest sample last and
/// keeps the order of the samples it retains.
pub proof fn law_history_is_bounded(history: Seq<u64>, value: u64, cap: nat)
    requires
        history.len() <= cap,
        cap > 0,
    ensures
        spec_push_bounded(history, value, cap).len() <= cap,
        spec_push_bounded(history, value, cap).last() == value,
        spec_push_bounded(history, value, cap).drop_last() =~= (if history.len() == cap {
            history.drop_first()
        } else {
            history
        }),
{
}

/// Every sample update keeps each history within its cap.
pub proof fn law_update_keeps_caps(
    before: PowerStatistic,
    after: PowerStatistic,
    battery_power: u64,
    input_power: u64,
    system_power: u64,
)
    requires
        before.wf(),
        after.battery() == spec_push_bounded(before.battery(), battery_power, BATTERY_HISTORY_LEN as nat),
        after.input() == spec_push_bounded(before.input(), input_power, INPUT_HISTORY_LEN as nat),
        after.system() == spec_push_bounded(before.system(), system_power, SYSTEM_HISTORY_LEN as nat),
    ensures
        after.wf(),
{
}

/// A window holds the newest `min(len, width)` samples in their order.
pub proof fn law_window_is_newest_suffix(history: Seq<u64>, width: nat)
    ensures
        spec_window(history, width).len() == (if history.len() > width { width } else { history.len() }),
        forall|i: int|
            0 <= i < spec_window(history, width).len() ==> #[trigger] spec_window(history, width)[i]
                == history[history.len() - spec_window(history, width).len() + i],
{
}

} // verus!
