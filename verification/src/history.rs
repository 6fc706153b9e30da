//! The charging-session recorder: readings are staged per device while it
//! charges, and a session is handed over for saving when the device is
//! unplugged or reaches a full charge.
use vstd::prelude::*;

verus! {

/// Once a session spans more than a day, its staged readings are compressed
/// whenever they reach this many, bounding memory and the saved size.
pub const MAX_STAGED_SAMPLES: usize = 3600;

/// Span, in seconds, beyond which a session's interior readings are compressed;
/// a shorter session keeps its full curve.
pub const COMPRESS_AFTER_SECS: i64 = 86400;

/// A session of at most this many readings is not saved.
pub const MIN_SAVED_SAMPLES: usize = 2;

/// Battery level, in percent, that counts as fully charged.
pub const FULL_LEVEL: i32 = 100;

/// The device a reading comes from: the Mac itself or an iOS device by its
/// identifier.
#[derive(Debug)]
pub enum DeviceType {
    Local,
    Remote(String),
}

impl DeviceType {
    /// The key by which sessions are kept apart.
    pub open spec fn key(self) -> Option<Seq<char>> {
        match self {
            DeviceType::Local => None,
            DeviceType::Remote(udid) => Some(udid@),
        }
    }

    /// Whether two device types name the same device.
    pub fn same_device(&self, other: &DeviceType) -> (r: bool)
        ensures
            r == (self.key() == other.key()),
    {
        match (self, other) {
            (DeviceType::Local, DeviceType::Local) => true,
            (DeviceType::Remote(a), DeviceType::Remote(b)) => a.eq(b),
            _ => false,
        }
    }

    /// A copy of the device type.
    pub fn duplicate(&self) -> (r: DeviceType)
        ensures
            r.key() == self.key(),
    {
        match self {
            DeviceType::Local => DeviceType::Local,
            DeviceType::Remote(udid) => DeviceType::Remote(udid.clone()),
        }
    }
}

/// Emitted when a charging session has been saved.
#[derive(Clone, Copy, Debug)]
pub struct HistoryRecordedEvent;

/// What the recorder reads of a reading.
#[derive(Clone, Debug)]
pub struct ChargeSample {
    pub is_charging: bool,
    pub battery_level: i32,
    pub last_update: i64,
    pub adapter_name: Option<String>,
}

/// One staged reading: what the recorder reads of it, the reading itself and
/// its serialised form.
#[derive(Debug)]
pub struct ChargingHistoryStage<T> {
    pub sample: ChargeSample,
    pub data: T,
    pub raw: String,
}

/// The session, with this reading, spans more than a day: the reading is more
/// than a day later than the session's first one.
pub open spec fn spans_beyond_day<T>(
    staged: Seq<ChargingHistoryStage<T>>,
    stage: ChargingHistoryStage<T>,
) -> bool {
    staged.len() > 0 && stage.sample.last_update - staged[0].sample.last_update > COMPRESS_AFTER_SECS
}

/// Staging this reading compresses the session first: it spans more than a day
/// and holds the cap.
pub open spec fn compresses<T>(
    staged: Seq<ChargingHistoryStage<T>>,
    stage: ChargingHistoryStage<T>,
) -> bool {
    spans_beyond_day(staged, stage) && staged.len() >= MAX_STAGED_SAMPLES
}

/// The number of readings at the start of `s` taken at time `t`.
pub open spec fn same_time_prefix<T>(s: Seq<ChargingHistoryStage<T>>, t: i64) -> nat
    decreases s.len(),
{
    if s.len() > 0 && s[0].sample.last_update == t {
        1 + same_time_prefix(s.skip(1), t)
    } else {
        0
    }
}

/// Where the readings kept by a compression start: a quarter in, past any
/// readings there taken at the first reading's time, so that the kept first
/// reading is not followed by one with its own time.
pub open spec fn compress_start<T>(staged: Seq<ChargingHistoryStage<T>>) -> int {
    let q = (staged.len() / 4) as int;
    q + same_time_prefix(staged.skip(q), staged[0].sample.last_update)
}

proof fn lemma_compress_start_in_range<T>(staged: Seq<ChargingHistoryStage<T>>)
    ensures
        staged.len() / 4 <= compress_start(staged) <= staged.len(),
{
    lemma_same_time_prefix(staged.skip((staged.len() / 4) as int), staged[0].sample.last_update);
}

proof fn lemma_same_time_prefix<T>(s: Seq<ChargingHistoryStage<T>>, t: i64)
    ensures
        same_time_prefix(s, t) <= s.len(),
        forall|i: int| 0 <= i < same_time_prefix(s, t) ==> #[trigger] s[i].sample.last_update == t,
        same_time_prefix(s, t) < s.len() ==> s[same_time_prefix(s, t) as int].sample.last_update != t,
    decreases s.len(),
{
    if s.len() > 0 && s[0].sample.last_update == t {
        lemma_same_time_prefix(s.skip(1), t);
        assert forall|i: int| 0 <= i < same_time_prefix(s, t) implies #[trigger] s[i].sample.last_update
            == t by {
            if i > 0 {
                assert(s[i] == s.skip(1)[i - 1]);
            }
        }
    }
}

/// The staged readings after one more is staged. A session that spans more than
/// a day and holds the cap is compressed first: its first reading and its newest
/// three quarters are kept (less any readings at their start taken at the first
/// reading's time), the interior readings between them are dropped.
pub open spec fn spec_push_stage<T>(
    staged: Seq<ChargingHistoryStage<T>>,
    stage: ChargingHistoryStage<T>,
) -> Seq<ChargingHistoryStage<T>> {
    let kept = if compresses(staged, stage) {
        staged.take(1) + staged.skip(compress_start(staged))
    } else {
        staged
    };
    kept.push(stage)
}

/// Stages one reading. A session that spans more than a day and holds the cap
/// keeps its first reading and its newest three quarters, less any readings at
/// their start taken at the first reading's time; the interior readings between
/// them are dropped.
pub fn push_stage<T>(staged: &mut Vec<ChargingHistoryStage<T>>, stage: ChargingHistoryStage<T>)
    ensures
        final(staged)@ == spec_push_stage(old(staged)@, stage),
{
    let ghost old_staged = staged@;
    if staged.len() >= MAX_STAGED_SAMPLES && (stage.sample.last_update as i128) - (
    staged[0].sample.last_update as i128) > (COMPRESS_AFTER_SECS as i128) {
        let q = staged.len() / 4;
        let head_time = staged[0].sample.last_update;
        let mut start = q;
        while start < staged.len() && staged[start].sample.last_update == head_time
            invariant
                staged@ == old_staged,
                q == old_staged.len() / 4,
                head_time == old_staged[0].sample.last_update,
                q <= start <= old_staged.len(),
                same_time_prefix(old_staged.skip(q as int), head_time) == (start - q)
                    + same_time_prefix(old_staged.skip(start as int), head_time),
            decreases old_staged.len() - start,
        {
            proof {
                assert(old_staged.skip(start as int).skip(1) =~= old_staged.skip(start + 1));
                assert(old_staged.skip(start as int)[0] == old_staged[start as int]);
            }
            start = start + 1;
        }
        proof {
            if start < old_staged.len() {
                assert(old_staged.skip(start as int)[0] == old_staged[start as int]);
            }
            assert(same_time_prefix(old_staged.skip(start as int), head_time) == 0);
        }
        let mut kept = staged.split_off(start);
        staged.truncate(1);
        staged.append(&mut kept);
        assert(staged@ =~= old_staged.take(1) + old_staged.skip(compress_start(old_staged)));
    }
    staged.push(stage);
}

/// The reading is staged: the device charges, a session is open or the battery
/// is not yet full, and it is not the same reading as the last staged one.
pub open spec fn should_stage<T>(staged: Seq<ChargingHistoryStage<T>>, s: ChargeSample) -> bool {
    &&& s.is_charging
    &&& (staged.len() > 0 || s.battery_level < FULL_LEVEL)
    &&& (staged.len() == 0 || staged.last().sample.last_update != s.last_update)
}

/// The device was charging at the last staged reading and no longer charges.
pub open spec fn unplugged<T>(staged: Seq<ChargingHistoryStage<T>>, s: ChargeSample) -> bool {
    staged.len() > 0 && staged.last().sample.is_charging && !s.is_charging
}

/// The staged readings after the reading is considered for staging.
pub open spec fn staged_after<T>(
    staged: Seq<ChargingHistoryStage<T>>,
    stage: ChargingHistoryStage<T>,
) -> Seq<ChargingHistoryStage<T>> {
    if should_stage(staged, stage.sample) {
        spec_push_stage(staged, stage)
    } else {
        staged
    }
}

/// The battery is full and the session holds a full reading last.
pub open spec fn reached_full<T>(
    after: Seq<ChargingHistoryStage<T>>,
    s: ChargeSample,
) -> bool {
    s.battery_level >= FULL_LEVEL && after.len() > 0 && after.last().sample.battery_level
        >= FULL_LEVEL
}

/// The session ends with this reading.
pub open spec fn session_ends<T>(
    staged: Seq<ChargingHistoryStage<T>>,
    stage: ChargingHistoryStage<T>,
) -> bool {
    unplugged(staged, stage.sample) || reached_full(staged_after(staged, stage), stage.sample)
}

/// The staged readings of a device after one reading.
pub open spec fn spec_record_staged<T>(
    staged: Seq<ChargingHistoryStage<T>>,
    stage: ChargingHistoryStage<T>,
) -> Seq<ChargingHistoryStage<T>> {
    if session_ends(staged, stage) {
        Seq::empty()
    } else {
        staged_after(staged, stage)
    }
}

/// The session handed over for saving after one reading, if any: the whole
/// session when it ends and holds more than two readings.
pub open spec fn spec_record_finished<T>(
    staged: Seq<ChargingHistoryStage<T>>,
    stage: ChargingHistoryStage<T>,
) -> Option<Seq<ChargingHistoryStage<T>>> {
    if session_ends(staged, stage) && staged_after(staged, stage).len() > MIN_SAVED_SAMPLES {
        Some(staged_after(staged, stage))
    } else {
        None
    }
}

/// The view of an optional vector.
pub open spec fn opt_vec_view<T>(v: Option<Vec<T>>) -> Option<Seq<T>> {
    match v {
        Some(v) => Some(v@),
        None => None,
    }
}

/// Feeds one reading of a device to its staged session. The reading is staged
/// while the device charges (a session never opens on a full battery, but the
/// full reading closes an open one), and a repeated reading is skipped. When the
/// device is unplugged or the session reaches a full reading, the session is
/// emptied and returned for saving if it holds more than two readings.
pub fn record_sample<T>(
    staged: &mut Vec<ChargingHistoryStage<T>>,
    stage: ChargingHistoryStage<T>,
) -> (finished: Option<Vec<ChargingHistoryStage<T>>>)
    ensures
        final(staged)@ == spec_record_staged(old(staged)@, stage),
        opt_vec_view(finished) == spec_record_finished(old(staged)@, stage),
{
    let ghost old_staged = staged@;
    let full_charged = stage.sample.battery_level >= FULL_LEVEL;
    let len = staged.len();
    let was_charging = len > 0 && staged[len - 1].sample.is_charging;
    let unplugged = was_charging && !stage.sample.is_charging;
    let already_staging = len > 0;
    let is_new = len == 0 || stage.sample.last_update != staged[len - 1].sample.last_update;
    let should = stage.sample.is_charging && (already_staging || !full_charged) && is_new;
    if should {
        push_stage(staged, stage);
    }
    assert(staged@ == staged_after(old_staged, stage));
    let len = staged.len();
    let reached = full_charged && len > 0 && staged[len - 1].sample.battery_level >= FULL_LEVEL;
    if unplugged || reached {
        let taken = staged.split_off(0);
        assert(taken@ =~= staged_after(old_staged, stage));
        assert(staged@ =~= Seq::<ChargingHistoryStage<T>>::empty());
        if taken.len() <= MIN_SAVED_SAMPLES {
            return None;
        }
        Some(taken)
    } else {
        None
    }
}

/// Every staged reading was taken while charging.
pub open spec fn all_charging<T>(staged: Seq<ChargingHistoryStage<T>>) -> bool {
    forall|i: int| 0 <= i < staged.len() ==> #[trigger] staged[i].sample.is_charging
}

/// A session that spans at most a day keeps its full curve: a staged reading is
/// appended and nothing is dropped.
pub proof fn law_day_keeps_full_curve<T>(
    staged: Seq<ChargingHistoryStage<T>>,
    stage: ChargingHistoryStage<T>,
)
    requires
        !spans_beyond_day(staged, stage),
    ensures
        spec_push_stage(staged, stage) == staged.push(stage),
        should_stage(staged, stage.sample) && !session_ends(staged, stage) ==> spec_record_staged(
            staged,
            stage,
        ) == staged.push(stage),
{
}

/// Below the cap a staged reading is only appended, whatever the session's time
/// span: nothing is dropped from a session of fewer than `MAX_STAGED_SAMPLES`
/// readings.
pub proof fn law_below_cap_appends<T>(
    staged: Seq<ChargingHistoryStage<T>>,
    stage: ChargingHistoryStage<T>,
)
    requires
        staged.len() < MAX_STAGED_SAMPLES,
    ensures
        spec_push_stage(staged, stage) == staged.push(stage),
{
}

/// Once a session spans more than a day, its staging stays within the cap.
pub proof fn law_long_session_stays_bounded<T>(
    staged: Seq<ChargingHistoryStage<T>>,
    stage: ChargingHistoryStage<T>,
)
    requires
        staged.len() <= MAX_STAGED_SAMPLES,
        spans_beyond_day(staged, stage),
    ensures
        spec_record_staged(staged, stage).len() <= MAX_STAGED_SAMPLES,
{
    lemma_compress_start_in_range(staged);
}

/// Compression keeps the first reading and the newest three quarters in order,
/// less only readings at their start taken at the first reading's time, so the
/// kept first reading is not followed by one with its own time.
pub proof fn law_compression_keeps_head_and_newest<T>(
    staged: Seq<ChargingHistoryStage<T>>,
    stage: ChargingHistoryStage<T>,
)
    requires
        compresses(staged, stage),
    ensures
        spec_push_stage(staged, stage)[0] == staged[0],
        spec_push_stage(staged, stage).last() == stage,
        staged.len() / 4 <= compress_start(staged) <= staged.len(),
        spec_push_stage(staged, stage).len() == 1 + staged.len() - compress_start(staged) + 1,
        forall|j: int|
            staged.len() / 4 <= j < compress_start(staged) ==> #[trigger] staged[j].sample.last_update
                == staged[0].sample.last_update,
        forall|i: int|
            0 <= i < staged.len() - compress_start(staged) ==> #[trigger] spec_push_stage(staged, stage)[1
                + i] == staged[compress_start(staged) + i],
        spec_push_stage(staged, stage)[1].sample.last_update != staged[0].sample.last_update,
{
    let q = (staged.len() / 4) as int;
    let tail = staged.skip(q);
    lemma_same_time_prefix(tail, staged[0].sample.last_update);
    assert forall|j: int| q <= j < compress_start(staged) implies #[trigger] staged[j].sample.last_update
        == staged[0].sample.last_update by {
        assert(staged[j] == tail[j - q]);
    }
    let cs = compress_start(staged);
    if cs < staged.len() {
        assert(staged[cs] == tail[cs - q]);
    }
}

/// Only readings taken while charging are staged, and so only they are saved.
pub proof fn law_only_charging_is_staged<T>(
    staged: Seq<ChargingHistoryStage<T>>,
    stage: ChargingHistoryStage<T>,
)
    requires
        all_charging(staged),
    ensures
        all_charging(spec_record_staged(staged, stage)),
        spec_record_finished(staged, stage) matches Some(saved) ==> all_charging(saved),
{
    let after = staged_after(staged, stage);
    if should_stage(staged, stage.sample) {
        if compresses(staged, stage) {
            lemma_compress_start_in_range(staged);
            let kept = staged.take(1) + staged.skip(compress_start(staged));
            assert forall|i: int| 0 <= i < kept.len() implies #[trigger] kept[i].sample.is_charging by {
                if i >= 1 {
                    assert(kept[i] == staged[i - 1 + compress_start(staged)]);
                }
            }
            assert(after == kept.push(stage));
        }
        assert forall|i: int| 0 <= i < after.len() implies #[trigger] after[i].sample.is_charging by {
            if i < after.len() - 1 {
            } else {
                assert(after[i] == stage);
            }
        }
    }
}

/// While a session stays open, its first reading is kept.
pub proof fn law_first_reading_is_kept<T>(
    staged: Seq<ChargingHistoryStage<T>>,
    stage: ChargingHistoryStage<T>,
)
    requires
        staged.len() > 0,
        !session_ends(staged, stage),
    ensures
        spec_record_staged(staged, stage).len() > 0,
        spec_record_staged(staged, stage)[0] == staged[0],
{
}

/// A staged reading is the newest of its session until the next one comes.
pub proof fn law_newest_reading_is_last<T>(
    staged: Seq<ChargingHistoryStage<T>>,
    stage: ChargingHistoryStage<T>,
)
    requires
        should_stage(staged, stage.sample),
    ensures
        !session_ends(staged, stage) ==> spec_record_staged(staged, stage).last() == stage,
        spec_record_finished(staged, stage) matches Some(saved) ==> saved.last() == stage,
{
}

/// No session opens on a full battery.
pub proof fn law_no_session_starts_full<T>(
    staged: Seq<ChargingHistoryStage<T>>,
    stage: ChargingHistoryStage<T>,
)
    requires
        staged.len() == 0,
        stage.sample.battery_level >= FULL_LEVEL,
    ensures
        spec_record_staged(staged, stage).len() == 0,
        spec_record_finished(staged, stage) is None,
{
}

/// A session is saved only when it ends, it then holds more than two readings,
/// and the device's staging starts over empty.
pub proof fn law_saved_session_closes<T>(
    staged: Seq<ChargingHistoryStage<T>>,
    stage: ChargingHistoryStage<T>,
)
    ensures
        spec_record_finished(staged, stage) matches Some(saved) ==> {
            &&& saved.len() > MIN_SAVED_SAMPLES
            &&& spec_record_staged(staged, stage).len() == 0
        },
        session_ends(staged, stage) ==> spec_record_staged(staged, stage).len() == 0,
{
}

/// A reading with the timestamp of the last staged one is not staged again.
pub proof fn law_repeated_reading_is_skipped<T>(
    staged: Seq<ChargingHistoryStage<T>>,
    stage: ChargingHistoryStage<T>,
)
    requires
        staged.len() > 0,
        stage.sample.last_update == staged.last().sample.last_update,
    ensures
        !session_ends(staged, stage) ==> spec_record_staged(staged, stage) == staged,
        spec_record_finished(staged, stage) matches Some(saved) ==> saved == staged,
{
}

/// Feeds readings one by one to a device's staged session: the staged session
/// at the end, and the sessions saved on the way, in order.
pub open spec fn feed<T>(
    staged: Seq<ChargingHistoryStage<T>>,
    readings: Seq<ChargingHistoryStage<T>>,
) -> (Seq<ChargingHistoryStage<T>>, Seq<Seq<ChargingHistoryStage<T>>>)
    decreases readings.len(),
{
    if readings.len() == 0 {
        (staged, Seq::empty())
    } else {
        let rest = feed(spec_record_staged(staged, readings[0]), readings.skip(1));
        match spec_record_finished(staged, readings[0]) {
            Some(saved) => (rest.0, seq![saved] + rest.1),
            None => rest,
        }
    }
}

/// An open session: every reading charging and below full.
pub open spec fn open_session_ok<T>(staged: Seq<ChargingHistoryStage<T>>) -> bool {
    &&& all_charging(staged)
    &&& forall|i: int| 0 <= i < staged.len() ==> #[trigger] staged[i].sample.battery_level < FULL_LEVEL
}

/// A saved session: more than two readings, all charging, the first below full
/// and only the last possibly at or above full.
pub open spec fn saved_session_ok<T>(saved: Seq<ChargingHistoryStage<T>>) -> bool {
    &&& saved.len() > MIN_SAVED_SAMPLES
    &&& all_charging(saved)
    &&& saved[0].sample.battery_level < FULL_LEVEL
    &&& forall|i: int| 0 <= i < saved.len() - 1 ==> #[trigger] saved[i].sample.battery_level < FULL_LEVEL
}

/// Where the `i`-th kept reading of a staging step stood before it.
pub open spec fn kept_index<T>(
    staged: Seq<ChargingHistoryStage<T>>,
    stage: ChargingHistoryStage<T>,
    i: int,
) -> int {
    if compresses(staged, stage) && i > 0 {
        compress_start(staged) + i - 1
    } else {
        i
    }
}

proof fn lemma_kept_is_subsequence<T>(
    staged: Seq<ChargingHistoryStage<T>>,
    stage: ChargingHistoryStage<T>,
)
    ensures
        spec_push_stage(staged, stage).len() >= 1,
        spec_push_stage(staged, stage).last() == stage,
        forall|i: int|
            0 <= i < spec_push_stage(staged, stage).len() - 1 ==> 0 <= kept_index(staged, stage, i)
                < staged.len() && #[trigger] spec_push_stage(staged, stage)[i] == staged[kept_index(
                staged,
                stage,
                i,
            )],
        forall|i: int, l: int|
            0 <= i < l < spec_push_stage(staged, stage).len() - 1 ==> #[trigger] kept_index(
                staged,
                stage,
                i,
            ) < #[trigger] kept_index(staged, stage, l),
        kept_index(staged, stage, 0) == 0,
{
    let r = spec_push_stage(staged, stage);
    if compresses(staged, stage) {
        let q = (staged.len() / 4) as int;
        assert(q >= 1);
        lemma_compress_start_in_range(staged);
        let cs = compress_start(staged);
        assert forall|i: int| 0 <= i < r.len() - 1 implies 0 <= kept_index(staged, stage, i) < staged.len()
            && #[trigger] r[i] == staged[kept_index(staged, stage, i)] by {
            if i > 0 {
                assert(r[i] == staged[cs + i - 1]);
            }
        }
    }
}

proof fn lemma_step_keeps_sessions_ok<T>(
    staged: Seq<ChargingHistoryStage<T>>,
    stage: ChargingHistoryStage<T>,
)
    requires
        open_session_ok(staged),
    ensures
        open_session_ok(spec_record_staged(staged, stage)),
        spec_record_finished(staged, stage) matches Some(saved) ==> saved_session_ok(saved),
{
    let after = staged_after(staged, stage);
    lemma_kept_is_subsequence(staged, stage);
    assert(all_charging(after)) by {
        assert forall|i: int| 0 <= i < after.len() implies #[trigger] after[i].sample.is_charging by {
            if should_stage(staged, stage.sample) && i < after.len() - 1 {
                assert(after[i] == staged[kept_index(staged, stage, i)]);
            }
        }
    }
    assert forall|i: int| 0 <= i < after.len() - 1 implies #[trigger] after[i].sample.battery_level
        < FULL_LEVEL by {
        if should_stage(staged, stage.sample) {
            assert(after[i] == staged[kept_index(staged, stage, i)]);
        }
    }
    if after.len() > 0 {
        assert(after[0].sample.battery_level < FULL_LEVEL) by {
            if should_stage(staged, stage.sample) && staged.len() > 0 {
                assert(after[0] == staged[0]);
            }
        }
    }
    if !session_ends(staged, stage) && after.len() > 0 {
        assert(after.last().sample.battery_level < FULL_LEVEL);
    }
}

/// Over any run of readings from an open session, every saved session holds more
/// than two readings, all taken while charging, the first below full and only
/// the last possibly at or above full.
pub proof fn law_saved_sessions_are_charging_runs<T>(
    staged: Seq<ChargingHistoryStage<T>>,
    readings: Seq<ChargingHistoryStage<T>>,
)
    requires
        open_session_ok(staged),
    ensures
        open_session_ok(feed(staged, readings).0),
        forall|i: int|
            0 <= i < feed(staged, readings).1.len() ==> saved_session_ok(
                #[trigger] feed(staged, readings).1[i],
            ),
    decreases readings.len(),
{
    if readings.len() > 0 {
        lemma_step_keeps_sessions_ok(staged, readings[0]);
        let next = spec_record_staged(staged, readings[0]);
        law_saved_sessions_are_charging_runs(next, readings.skip(1));
        let rest = feed(next, readings.skip(1));
        if let Some(saved) = spec_record_finished(staged, readings[0]) {
            let all = seq![saved] + rest.1;
            assert forall|i: int| 0 <= i < all.len() implies saved_session_ok(#[trigger] all[i]) by {
                if i > 0 {
                    assert(all[i] == rest.1[i - 1]);
                }
            }
        }
    }
}

/// Timestamps strictly increase along the readings.
pub open spec fn increasing_times<T>(s: Seq<ChargingHistoryStage<T>>) -> bool {
    forall|i: int, j: int|
        0 <= i < j < s.len() ==> #[trigger] s[i].sample.last_update < #[trigger] s[j].sample.last_update
}

/// The staged session and the coming readings are in time order.
pub open spec fn in_time_order<T>(
    staged: Seq<ChargingHistoryStage<T>>,
    readings: Seq<ChargingHistoryStage<T>>,
) -> bool {
    &&& increasing_times(staged)
    &&& increasing_times(readings)
    &&& (staged.len() > 0 && readings.len() > 0 ==> staged.last().sample.last_update
        < readings[0].sample.last_update)
}

proof fn lemma_step_keeps_time_order<T>(
    staged: Seq<ChargingHistoryStage<T>>,
    readings: Seq<ChargingHistoryStage<T>>,
)
    requires
        in_time_order(staged, readings),
        readings.len() > 0,
    ensures
        in_time_order(spec_record_staged(staged, readings[0]), readings.skip(1)),
        spec_record_finished(staged, readings[0]) matches Some(saved) ==> increasing_times(saved),
{
    let x = readings[0];
    let after = staged_after(staged, x);
    lemma_kept_is_subsequence(staged, x);
    if should_stage(staged, x.sample) {
        assert forall|i: int, j: int| 0 <= i < j < after.len() implies #[trigger] after[i].sample.last_update
            < #[trigger] after[j].sample.last_update by {
            let a = kept_index(staged, x, i);
            assert(after[i] == staged[a]);
            if j == after.len() - 1 {
                if a < staged.len() - 1 {
                    assert(staged[a].sample.last_update < staged.last().sample.last_update);
                }
            } else {
                let b = kept_index(staged, x, j);
                assert(a < b);
                assert(after[j] == staged[b]);
            }
        }
    }
    let rest = readings.skip(1);
    if rest.len() > 0 {
        assert(readings[0].sample.last_update < readings[1].sample.last_update);
        assert(rest[0] == readings[1]);
        if staged.len() > 0 && !should_stage(staged, x.sample) {
            assert(after.last() == staged.last());
        }
    }
    assert(increasing_times(rest)) by {
        assert forall|i: int, j: int| 0 <= i < j < rest.len() implies #[trigger] rest[i].sample.last_update
            < #[trigger] rest[j].sample.last_update by {
            assert(rest[i] == readings[i + 1]);
            assert(rest[j] == readings[j + 1]);
        }
    }
}

/// Fed readings in time order, every saved session is in time order, so no two
/// consecutive readings of a saved session share a timestamp.
pub proof fn law_saved_sessions_are_in_time_order<T>(
    staged: Seq<ChargingHistoryStage<T>>,
    readings: Seq<ChargingHistoryStage<T>>,
)
    requires
        in_time_order(staged, readings),
    ensures
        forall|i: int|
            0 <= i < feed(staged, readings).1.len() ==> increasing_times(
                #[trigger] feed(staged, readings).1[i],
            ),
    decreases readings.len(),
{
    if readings.len() > 0 {
        lemma_step_keeps_time_order(staged, readings);
        let next = spec_record_staged(staged, readings[0]);
        law_saved_sessions_are_in_time_order(next, readings.skip(1));
        let rest = feed(next, readings.skip(1));
        if let Some(saved) = spec_record_finished(staged, readings[0]) {
            let all = seq![saved] + rest.1;
            assert forall|i: int| 0 <= i < all.len() implies increasing_times(#[trigger] all[i]) by {
                if i > 0 {
                    assert(all[i] == rest.1[i - 1]);
                }
            }
        }
    }
}

/// The reading at `i` and the next one have different timestamps.
pub open spec fn differs_from_next<T>(s: Seq<ChargingHistoryStage<T>>, i: int) -> bool {
    s[i].sample.last_update != s[i + 1].sample.last_update
}

/// No two consecutive readings share a timestamp.
pub open spec fn consecutive_times_differ<T>(s: Seq<ChargingHistoryStage<T>>) -> bool {
    forall|i: int| 0 <= i < s.len() - 1 ==> #[trigger] differs_from_next(s, i)
}

proof fn lemma_step_keeps_times_apart<T>(
    staged: Seq<ChargingHistoryStage<T>>,
    stage: ChargingHistoryStage<T>,
)
    requires
        consecutive_times_differ(staged),
    ensures
        consecutive_times_differ(spec_record_staged(staged, stage)),
        spec_record_finished(staged, stage) matches Some(saved) ==> consecutive_times_differ(saved),
{
    let after = staged_after(staged, stage);
    if should_stage(staged, stage.sample) {
        let kept = if compresses(staged, stage) {
            staged.take(1) + staged.skip(compress_start(staged))
        } else {
            staged
        };
        assert(after == kept.push(stage));
        if compresses(staged, stage) {
            law_compression_keeps_head_and_newest(staged, stage);
            lemma_compress_start_in_range(staged);
        }
        assert forall|i: int| 0 <= i < after.len() - 1 implies #[trigger] differs_from_next(after, i) by {
            if i == after.len() - 2 {
                // the new reading against the last kept one
                if compresses(staged, stage) {
                    let cs = compress_start(staged);
                    if cs < staged.len() {
                        assert(after[i] == staged[staged.len() - 1]);
                    } else {
                        assert(after[i] == staged[0]);
                    }
                } else {
                    assert(after[i] == staged.last());
                }
                assert(after[i + 1] == stage);
            } else if compresses(staged, stage) {
                let cs = compress_start(staged);
                if i == 0 {
                    assert(after[1] == staged[cs]);
                } else {
                    assert(after[i] == staged[cs + i - 1]);
                    assert(after[i + 1] == staged[cs + i]);
                    assert(differs_from_next(staged, cs + i - 1));
                }
            } else {
                assert(after[i] == staged[i]);
                assert(after[i + 1] == staged[i + 1]);
                assert(differs_from_next(staged, i));
            }
        }
    }
}

/// For readings in any order, no two consecutive readings of a saved session
/// share a timestamp.
pub proof fn law_saved_sessions_keep_times_apart<T>(
    staged: Seq<ChargingHistoryStage<T>>,
    readings: Seq<ChargingHistoryStage<T>>,
)
    requires
        consecutive_times_differ(staged),
    ensures
        forall|i: int|
            0 <= i < feed(staged, readings).1.len() ==> consecutive_times_differ(
                #[trigger] feed(staged, readings).1[i],
            ),
    decreases readings.len(),
{
    if readings.len() > 0 {
        lemma_step_keeps_times_apart(staged, readings[0]);
        let next = spec_record_staged(staged, readings[0]);
        law_saved_sessions_keep_times_apart(next, readings.skip(1));
        let rest = feed(next, readings.skip(1));
        if let Some(saved) = spec_record_finished(staged, readings[0]) {
            let all = seq![saved] + rest.1;
            assert forall|i: int| 0 <= i < all.len() implies consecutive_times_differ(#[trigger] all[i]) by {
                if i > 0 {
                    assert(all[i] == rest.1[i - 1]);
                }
            }
        }
    }
}

/// Feeds readings of several devices, in the order they come, to the devices'
/// sessions (what [`ChargingRecorder::record`] does at each step): the sessions
/// saved on the way, each with its device key, in order.
pub open spec fn feed_devices<T>(
    sessions: spec_fn(Option<Seq<char>>) -> Seq<ChargingHistoryStage<T>>,
    msgs: Seq<(Option<Seq<char>>, ChargingHistoryStage<T>)>,
) -> Seq<(Option<Seq<char>>, Seq<ChargingHistoryStage<T>>)>
    decreases msgs.len(),
{
    if msgs.len() == 0 {
        Seq::empty()
    } else {
        let key = msgs[0].0;
        let stage = msgs[0].1;
        let next = |k: Option<Seq<char>>|
            if k == key {
                spec_record_staged(sessions(key), stage)
            } else {
                sessions(k)
            };
        let rest = feed_devices(next, msgs.skip(1));
        match spec_record_finished(sessions(key), stage) {
            Some(saved) => seq![(key, saved)] + rest,
            None => rest,
        }
    }
}

/// The readings of one device among interleaved readings, in order.
pub open spec fn readings_of<T>(
    key: Option<Seq<char>>,
    msgs: Seq<(Option<Seq<char>>, ChargingHistoryStage<T>)>,
) -> Seq<ChargingHistoryStage<T>>
    decreases msgs.len(),
{
    if msgs.len() == 0 {
        Seq::empty()
    } else {
        let rest = readings_of(key, msgs.skip(1));
        if msgs[0].0 == key {
            seq![msgs[0].1] + rest
        } else {
            rest
        }
    }
}

/// The sessions saved for one device, in order.
pub open spec fn saved_of<T>(
    key: Option<Seq<char>>,
    saved: Seq<(Option<Seq<char>>, Seq<ChargingHistoryStage<T>>)>,
) -> Seq<Seq<ChargingHistoryStage<T>>>
    decreases saved.len(),
{
    if saved.len() == 0 {
        Seq::empty()
    } else {
        let rest = saved_of(key, saved.skip(1));
        if saved[0].0 == key {
            seq![saved[0].1] + rest
        } else {
            rest
        }
    }
}

proof fn lemma_saved_of_cons<T>(
    key: Option<Seq<char>>,
    head: (Option<Seq<char>>, Seq<ChargingHistoryStage<T>>),
    rest: Seq<(Option<Seq<char>>, Seq<ChargingHistoryStage<T>>)>,
)
    ensures
        saved_of(key, seq![head] + rest) == (if head.0 == key {
            seq![head.1] + saved_of(key, rest)
        } else {
            saved_of(key, rest)
        }),
{
    let all = seq![head] + rest;
    assert(all[0] == head);
    assert(all.skip(1) =~= rest);
}

proof fn lemma_feed_cons<T>(
    staged: Seq<ChargingHistoryStage<T>>,
    x: ChargingHistoryStage<T>,
    rest: Seq<ChargingHistoryStage<T>>,
)
    ensures
        feed(staged, seq![x] + rest).1 == (match spec_record_finished(staged, x) {
            Some(saved) => seq![saved] + feed(spec_record_staged(staged, x), rest).1,
            None => feed(spec_record_staged(staged, x), rest).1,
        }),
{
    let all = seq![x] + rest;
    assert(all[0] == x);
    assert(all.skip(1) =~= rest);
}

/// Interleaving does not mix devices: the sessions saved for one device out of
/// the interleaved readings of all devices are exactly those saved when that
/// device's readings are fed alone, in the same order.
pub proof fn law_devices_are_independent<T>(
    sessions: spec_fn(Option<Seq<char>>) -> Seq<ChargingHistoryStage<T>>,
    msgs: Seq<(Option<Seq<char>>, ChargingHistoryStage<T>)>,
    key: Option<Seq<char>>,
)
    ensures
        saved_of(key, feed_devices(sessions, msgs)) == feed(sessions(key), readings_of(key, msgs)).1,
    decreases msgs.len(),
{
    if msgs.len() > 0 {
        let k0 = msgs[0].0;
        let x = msgs[0].1;
        let next = |k: Option<Seq<char>>|
            if k == k0 {
                spec_record_staged(sessions(k0), x)
            } else {
                sessions(k)
            };
        law_devices_are_independent(next, msgs.skip(1), key);
        let rest = feed_devices(next, msgs.skip(1));
        assert(feed_devices(sessions, msgs) == match spec_record_finished(sessions(k0), x) {
            Some(saved) => seq![(k0, saved)] + rest,
            None => rest,
        });
        if let Some(saved) = spec_record_finished(sessions(k0), x) {
            lemma_saved_of_cons(key, (k0, saved), rest);
        }
        if k0 == key {
            assert(readings_of(key, msgs) == seq![x] + readings_of(key, msgs.skip(1)));
            lemma_feed_cons(sessions(key), x, readings_of(key, msgs.skip(1)));
        } else {
            assert(next(key) == sessions(key));
        }
    }
}

/// The staged session of one device.
#[derive(Debug)]
pub struct DeviceSession<T> {
    pub device: DeviceType,
    pub staged: Vec<ChargingHistoryStage<T>>,
}

/// The staged sessions of all devices, one per device.
#[derive(Debug)]
pub struct ChargingRecorder<T> {
    sessions: Vec<DeviceSession<T>>,
}

impl<T> ChargingRecorder<T> {
    /// No device has two sessions.
    pub closed spec fn wf(&self) -> bool {
        forall|i: int, j: int|
            0 <= i < self.sessions@.len() && 0 <= j < self.sessions@.len() && i != j
                ==> #[trigger] self.sessions@[i].device.key()
                != #[trigger] self.sessions@[j].device.key()
    }

    /// Some session belongs to the device with this key.
    pub closed spec fn has_session(&self, key: Option<Seq<char>>) -> bool {
        exists|i: int| 0 <= i < self.sessions@.len() && #[trigger] self.sessions@[i].device.key() == key
    }

    /// The readings staged for the device with this key (none when it has no session).
    pub closed spec fn staged_of(&self, key: Option<Seq<char>>) -> Seq<ChargingHistoryStage<T>> {
        if self.has_session(key) {
            let i = choose|i: int|
                0 <= i < self.sessions@.len() && #[trigger] self.sessions@[i].device.key() == key;
            self.sessions@[i].staged@
        } else {
            Seq::empty()
        }
    }

    proof fn lemma_staged_at(&self, i: int)
        requires
            self.wf(),
            0 <= i < self.sessions@.len(),
        ensures
            self.has_session(self.sessions@[i].device.key()),
            self.staged_of(self.sessions@[i].device.key()) == self.sessions@[i].staged@,
    {
        let key = self.sessions@[i].device.key();
        assert(self.has_session(key));
        let j = choose|j: int|
            0 <= j < self.sessions@.len() && #[trigger] self.sessions@[j].device.key() == key;
        assert(j == i);
    }

    /// A recorder with no staged readings.
    pub fn new() -> (r: Self)
        ensures
            r.wf(),
            forall|k: Option<Seq<char>>| #[trigger] r.staged_of(k) == Seq::<ChargingHistoryStage<T>>::empty(),
    {
        ChargingRecorder { sessions: Vec::new() }
    }

    /// The index of the session of a device, if it has one.
    fn find(&self, typ: &DeviceType) -> (r: Option<usize>)
        ensures
            match r {
                Some(i) => i < self.sessions@.len() && self.sessions@[i as int].device.key() == typ.key(),
                None => !self.has_session(typ.key()),
            },
    {
        let mut i: usize = 0;
        while i < self.sessions.len()
            invariant
                0 <= i <= self.sessions@.len(),
                forall|j: int| 0 <= j < i ==> #[trigger] self.sessions@[j].device.key() != typ.key(),
            decreases self.sessions@.len() - i,
        {
            if self.sessions[i].device.same_device(typ) {
                return Some(i);
            }
            i = i + 1;
        }
        None
    }

    /// Feeds one reading of a device to that device's session (see
    /// [`record_sample`]); the sessions of other devices are unchanged. Returns the
    /// session to save, if one ended. This is one step of [`feed_devices`].
    pub fn record(&mut self, typ: DeviceType, stage: ChargingHistoryStage<T>) -> (finished: Option<
        Vec<ChargingHistoryStage<T>>,
    >)
        requires
            old(self).wf(),
        ensures
            final(self).wf(),
            final(self).staged_of(typ.key()) == spec_record_staged(
                old(self).staged_of(typ.key()),
                stage,
            ),
            forall|k: Option<Seq<char>>|
                k != typ.key() ==> #[trigger] final(self).staged_of(k) == old(self).staged_of(k),
            opt_vec_view(finished) == spec_record_finished(old(self).staged_of(typ.key()), stage),
    {
        let ghost key = typ.key();
        let ghost old_self = *self;
        let idx = match self.find(&typ) {
            Some(i) => i,
            None => {
                self.sessions.push(DeviceSession { device: typ, staged: Vec::new() });
                proof {
                    assert forall|k: Option<Seq<char>>| k != key implies #[trigger] self.staged_of(k)
                        == old_self.staged_of(k) by {
                        if old_self.has_session(k) {
                            let j = choose|j: int|
                                0 <= j < old_self.sessions@.len()
                                    && #[trigger] old_self.sessions@[j].device.key() == k;
                            assert(self.sessions@[j] == old_self.sessions@[j]);
                            self.lemma_staged_at(j);
                            old_self.lemma_staged_at(j);
                        } else {
                            assert(!self.has_session(k));
                        }
                    }
                }
                self.sessions.len() - 1
            },
        };
        let ghost mid = *self;
        proof {
            mid.lemma_staged_at(idx as int);
        }
        assert(mid.staged_of(key) == old_self.staged_of(key));
        let mut entry = self.sessions.remove(idx);
        let finished = record_sample(&mut entry.staged, stage);
        self.sessions.insert(idx, entry);
        proof {
            assert(self.sessions@ =~= mid.sessions@.update(idx as int, self.sessions@[idx as int]));
            assert(self.wf());
            self.lemma_staged_at(idx as int);
            assert forall|k: Option<Seq<char>>| k != key implies #[trigger] self.staged_of(k)
                == mid.staged_of(k) by {
                if mid.has_session(k) {
                    let j = choose|j: int|
                        0 <= j < mid.sessions@.len() && #[trigger] mid.sessions@[j].device.key() == k;
                    assert(j != idx);
                    self.lemma_staged_at(j);
                    mid.lemma_staged_at(j);
                } else {
                    if self.has_session(k) {
                        let j = choose|j: int|
                            0 <= j < self.sessions@.len() && #[trigger] self.sessions@[j].device.key() == k;
                        assert(mid.sessions@[j].device.key() == k);
                    }
                }
            }
        }
        finished
    }
}

/// The series of a saved session: every reading and its serialised form.
#[derive(Debug)]
pub struct ChargingHistoryDetail<T> {
    pub curve: Vec<T>,
    pub raw: Vec<String>,
}

/// A saved charging session.
#[derive(Debug)]
pub struct ChargingHistory<T> {
    pub is_remote: bool,
    pub name: String,
    pub udid: String,
    pub from_level: i32,
    pub end_level: i32,
    /// Seconds from the first to the last reading, never negative.
    pub duration: i64,
    /// Time of the first reading.
    pub timestamp: i64,
    pub adapter_name: String,
    pub detail: ChargingHistoryDetail<T>,
}

/// The session's time span fits an `i64`.
pub open spec fn span_fits<T>(staged: Seq<ChargingHistoryStage<T>>) -> bool {
    staged.len() > 0 ==> i64::MIN <= staged.last().sample.last_update
        - staged[0].sample.last_update <= i64::MAX
}

/// The udid under which a device's sessions are saved.
pub open spec fn spec_udid(typ: DeviceType) -> Seq<char> {
    match typ {
        DeviceType::Local => "local"@,
        DeviceType::Remote(udid) => udid@,
    }
}

/// The adapter name saved with a session.
pub open spec fn spec_adapter_label(name: Option<String>) -> Seq<char> {
    match name {
        Some(n) => n@,
        None => "Unknown"@,
    }
}

/// The saved form of a non-empty session.
pub open spec fn summarizes<T>(
    h: ChargingHistory<T>,
    staged: Seq<ChargingHistoryStage<T>>,
    typ: DeviceType,
    name: Seq<char>,
) -> bool {
    &&& h.is_remote == (typ is Remote)
    &&& h.name@ == name
    &&& h.udid@ == spec_udid(typ)
    &&& h.from_level == staged[0].sample.battery_level
    &&& h.end_level == staged.last().sample.battery_level
    &&& h.timestamp == staged[0].sample.last_update
    &&& h.duration == (if staged.last().sample.last_update - staged[0].sample.last_update >= 0 {
        staged.last().sample.last_update - staged[0].sample.last_update
    } else {
        0
    })
    &&& h.adapter_name@ == spec_adapter_label(staged.last().sample.adapter_name)
    &&& h.detail.curve@.len() == staged.len()
    &&& h.detail.raw@.len() == staged.len()
    &&& forall|i: int|
        0 <= i < staged.len() ==> #[trigger] h.detail.curve@[i] == staged[i].data
            && h.detail.raw@[i] == staged[i].raw
}

/// Summarises a session: levels and time of its first and last readings, the
/// span between them (zero when the clock went backwards), the last adapter name
/// ("Unknown" when there is none) and the full series. `None` for an empty session.
pub fn summarize_history<T>(
    staged: Vec<ChargingHistoryStage<T>>,
    typ: DeviceType,
    name: String,
) -> (r: Option<ChargingHistory<T>>)
    requires
        span_fits(staged@),
    ensures
        r is Some <==> staged@.len() > 0,
        r matches Some(h) ==> summarizes(h, staged@, typ, name@),
{
    let len = staged.len();
    if len == 0 {
        return None;
    }
    let from_level = staged[0].sample.battery_level;
    let end_level = staged[len - 1].sample.battery_level;
    let timestamp = staged[0].sample.last_update;
    let span = staged[len - 1].sample.last_update - timestamp;
    let duration = if span >= 0 {
        span
    } else {
        0
    };
    let adapter_name = match &staged[len - 1].sample.adapter_name {
        Some(n) => n.clone(),
        None => {
            proof {
                reveal_strlit("Unknown");
            }
            "Unknown".to_string()
        },
    };
    let is_remote = match &typ {
        DeviceType::Local => false,
        DeviceType::Remote(_) => true,
    };
    let udid = match &typ {
        DeviceType::Local => "local".to_string(),
        DeviceType::Remote(udid) => udid.clone(),
    };
    let ghost all = staged@;
    let n = staged.len();
    // Take the readings off the end, then off the end again, to keep their order.
    let mut rest = staged;
    let mut reversed: Vec<ChargingHistoryStage<T>> = Vec::new();
    while rest.len() > 0
        invariant
            rest@.len() + reversed@.len() == n,
            n == all.len(),
            rest@ == all.take(rest@.len() as int),
            forall|j: int| 0 <= j < reversed@.len() ==> #[trigger] reversed@[j] == all[n - 1 - j],
        decreases rest@.len(),
    {
        let last = rest.pop().unwrap();
        reversed.push(last);
    }
    let mut curve: Vec<T> = Vec::new();
    let mut raw: Vec<String> = Vec::new();
    while reversed.len() > 0
        invariant
            curve@.len() + reversed@.len() == n,
            raw@.len() == curve@.len(),
            n == all.len(),
            forall|j: int| 0 <= j < reversed@.len() ==> #[trigger] reversed@[j] == all[n - 1 - j],
            forall|i: int|
                0 <= i < curve@.len() ==> #[trigger] curve@[i] == all[i].data && raw@[i] == all[i].raw,
        decreases reversed@.len(),
    {
        let ghost k = curve@.len();
        let next = reversed.pop().unwrap();
        assert(next == all[k as int]);
        let ChargingHistoryStage { sample: _, data, raw: text } = next;
        curve.push(data);
        raw.push(text);
    }
    Some(
        ChargingHistory {
            is_remote,
            name,
            udid,
            from_level,
            end_level,
            duration,
            timestamp,
            adapter_name,
            detail: ChargingHistoryDetail { curve, raw },
        },
    )
}

} // verus!
