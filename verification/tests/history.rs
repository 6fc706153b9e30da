use powerflow::history::{
    push_stage, record_sample, summarize_history, ChargeSample, ChargingHistoryStage,
    ChargingRecorder, DeviceType, COMPRESS_AFTER_SECS, MAX_STAGED_SAMPLES,
};

fn stage(charging: bool, level: i32, t: i64) -> ChargingHistoryStage<u32> {
    ChargingHistoryStage {
        sample: ChargeSample {
            is_charging: charging,
            battery_level: level,
            last_update: t,
            adapter_name: None,
        },
        data: t as u32,
        raw: format!("r{t}"),
    }
}

fn times(v: &[ChargingHistoryStage<u32>]) -> Vec<i64> {
    v.iter().map(|s| s.sample.last_update).collect()
}

#[test]
fn push_stage_appends_below_cap() {
    let mut staged = vec![stage(true, 10, 1)];
    push_stage(&mut staged, stage(true, 11, 2));
    assert_eq!(times(&staged), vec![1, 2]);
}

#[test]
fn push_stage_within_a_day_keeps_everything() {
    let mut staged: Vec<_> = (0..MAX_STAGED_SAMPLES as i64).map(|t| stage(true, 50, t)).collect();
    push_stage(&mut staged, stage(true, 51, 10_000));
    assert_eq!(staged.len(), MAX_STAGED_SAMPLES + 1);
    assert_eq!(staged[1].sample.last_update, 1);
}

#[test]
fn push_stage_beyond_a_day_keeps_head_and_newest_three_quarters() {
    let mut staged: Vec<_> = (0..MAX_STAGED_SAMPLES as i64).map(|t| stage(true, 50, t)).collect();
    push_stage(&mut staged, stage(true, 51, COMPRESS_AFTER_SECS + 1));
    assert_eq!(staged.len(), 1 + (MAX_STAGED_SAMPLES - 900) + 1);
    assert_eq!(staged[0].sample.last_update, 0);
    assert_eq!(staged[1].sample.last_update, 900);
    assert_eq!(staged[staged.len() - 2].sample.last_update, 3599);
    assert_eq!(staged.last().unwrap().sample.last_update, COMPRESS_AFTER_SECS + 1);
}

#[test]
fn push_stage_beyond_a_day_below_cap_keeps_everything() {
    let mut staged = vec![stage(true, 10, 0), stage(true, 11, 10)];
    push_stage(&mut staged, stage(true, 12, COMPRESS_AFTER_SECS + 100));
    assert_eq!(times(&staged), vec![0, 10, COMPRESS_AFTER_SECS + 100]);
}

#[test]
fn two_hour_session_is_saved_whole() {
    let mut staged = Vec::new();
    for i in 0..4000i64 {
        assert!(record_sample(&mut staged, stage(true, 20 + (i / 100) as i32, 1_000 + 2 * i)).is_none());
    }
    let saved = record_sample(&mut staged, stage(false, 60, 9_000)).expect("session saved");
    assert_eq!(saved.len(), 4000);
    let h = summarize_history(saved, DeviceType::Local, "Mac".to_string()).unwrap();
    assert_eq!(h.detail.curve.len(), 4000);
    assert_eq!(h.from_level, 20);
    assert_eq!(h.timestamp, 1_000);
    assert_eq!(h.duration, 7_998);
}

#[test]
fn staging_starts_when_charging_below_full() {
    let mut staged = Vec::new();
    assert!(record_sample(&mut staged, stage(true, 40, 1)).is_none());
    assert_eq!(times(&staged), vec![1]);
}

#[test]
fn not_charging_is_not_staged() {
    let mut staged = Vec::new();
    assert!(record_sample(&mut staged, stage(false, 40, 1)).is_none());
    assert!(staged.is_empty());
}

#[test]
fn no_session_starts_at_full() {
    let mut staged = Vec::new();
    assert!(record_sample(&mut staged, stage(true, 100, 1)).is_none());
    assert!(staged.is_empty());
}

#[test]
fn repeated_timestamp_is_skipped() {
    let mut staged = Vec::new();
    record_sample(&mut staged, stage(true, 40, 5));
    record_sample(&mut staged, stage(true, 41, 5));
    assert_eq!(times(&staged), vec![5]);
    assert_eq!(staged[0].sample.battery_level, 40);
}

#[test]
fn unplug_saves_a_long_session() {
    let mut staged = Vec::new();
    for t in 1..=3 {
        assert!(record_sample(&mut staged, stage(true, 40 + t as i32, t)).is_none());
    }
    let saved = record_sample(&mut staged, stage(false, 44, 4)).expect("session saved");
    assert_eq!(times(&saved), vec![1, 2, 3]);
    assert!(staged.is_empty());
}

#[test]
fn unplug_drops_a_short_session() {
    let mut staged = Vec::new();
    record_sample(&mut staged, stage(true, 40, 1));
    record_sample(&mut staged, stage(true, 41, 2));
    assert!(record_sample(&mut staged, stage(false, 41, 3)).is_none());
    assert!(staged.is_empty());
}

#[test]
fn full_reading_closes_the_session_including_it() {
    let mut staged = Vec::new();
    record_sample(&mut staged, stage(true, 97, 1));
    record_sample(&mut staged, stage(true, 98, 2));
    record_sample(&mut staged, stage(true, 99, 3));
    let saved = record_sample(&mut staged, stage(true, 100, 4)).expect("session saved");
    assert_eq!(times(&saved), vec![1, 2, 3, 4]);
    assert_eq!(saved.last().unwrap().sample.battery_level, 100);
    assert!(staged.is_empty());
}

#[test]
fn day_long_session_stays_bounded_after_the_first_day() {
    let mut staged = Vec::new();
    let step = 30i64;
    let n = (COMPRESS_AFTER_SECS / step) + 4000;
    for i in 0..n {
        record_sample(&mut staged, stage(true, 50, i * step));
        if i * step > COMPRESS_AFTER_SECS + step {
            assert!(staged.len() <= MAX_STAGED_SAMPLES);
        }
        assert_eq!(staged[0].sample.last_update, 0);
        assert_eq!(staged.last().unwrap().sample.last_update, i * step);
    }
}

#[test]
fn saved_sessions_are_charging_runs_in_time_order() {
    let mut staged = Vec::new();
    let mut saved = Vec::new();
    let plan: Vec<(bool, i32)> = vec![
        (false, 30), (true, 100), (true, 40), (true, 60), (true, 80), (false, 80),
        (true, 97), (true, 99), (true, 99), (true, 100), (true, 100), (true, 50), (true, 51),
    ];
    for (t, (charging, level)) in plan.into_iter().enumerate() {
        if let Some(s) = record_sample(&mut staged, stage(charging, level, t as i64)) {
            saved.push(s);
        }
    }
    assert_eq!(saved.len(), 2);
    for s in &saved {
        assert!(s.len() > 2);
        assert!(s.iter().all(|r| r.sample.is_charging));
        assert!(s[..s.len() - 1].iter().all(|r| r.sample.battery_level < 100));
        assert!(s.windows(2).all(|w| w[0].sample.last_update < w[1].sample.last_update));
    }
    assert_eq!(times(&saved[0]), vec![2, 3, 4]);
    assert_eq!(times(&saved[1]), vec![6, 7, 8, 9]);
}

#[test]
fn interleaved_devices_save_as_if_alone() {
    let feed_alone = |levels: &[(bool, i64)]| {
        let mut staged = Vec::new();
        let mut out = Vec::new();
        for (charging, t) in levels {
            if let Some(s) = record_sample(&mut staged, stage(*charging, 50, *t)) {
                out.push(times(&s));
            }
        }
        out
    };
    let local = [(true, 1), (true, 2), (true, 3), (false, 4), (true, 5)];
    let phone = [(true, 1), (true, 3), (true, 5), (true, 7), (false, 9)];
    let mut recorder = ChargingRecorder::new();
    let mut saved_local = Vec::new();
    let mut saved_phone = Vec::new();
    for i in 0..5 {
        if let Some(s) = recorder.record(DeviceType::Remote("p".to_string()), stage(phone[i].0, 50, phone[i].1)) {
            saved_phone.push(times(&s));
        }
        if let Some(s) = recorder.record(DeviceType::Local, stage(local[i].0, 50, local[i].1)) {
            saved_local.push(times(&s));
        }
    }
    assert_eq!(saved_local, feed_alone(&local));
    assert_eq!(saved_phone, feed_alone(&phone));
    assert_eq!(saved_local, vec![vec![1, 2, 3]]);
    assert_eq!(saved_phone, vec![vec![1, 3, 5, 7]]);
}

#[test]
fn recorder_keeps_devices_apart() {
    let mut recorder = ChargingRecorder::new();
    let phone = || DeviceType::Remote("phone-1".to_string());
    for t in 1..=3 {
        assert!(recorder.record(DeviceType::Local, stage(true, 50, t)).is_none());
        assert!(recorder.record(phone(), stage(true, 60, t)).is_none());
    }
    let saved = recorder.record(phone(), stage(false, 63, 4)).expect("phone session saved");
    assert_eq!(times(&saved), vec![1, 2, 3]);
    assert!(saved.iter().all(|s| s.sample.battery_level == 60));
    let local = recorder.record(DeviceType::Local, stage(false, 53, 4)).expect("local session saved");
    assert_eq!(times(&local), vec![1, 2, 3]);
    assert!(local.iter().all(|s| s.sample.battery_level == 50));
}

#[test]
fn summary_of_a_remote_session() {
    let mut staged = vec![stage(true, 20, 1000), stage(true, 35, 1600), stage(true, 50, 2200)];
    staged[2].sample.adapter_name = Some("20W".to_string());
    let h = summarize_history(staged, DeviceType::Remote("u-1".to_string()), "Phone".to_string())
        .expect("non-empty session");
    assert!(h.is_remote);
    assert_eq!(h.udid, "u-1");
    assert_eq!(h.name, "Phone");
    assert_eq!(h.from_level, 20);
    assert_eq!(h.end_level, 50);
    assert_eq!(h.timestamp, 1000);
    assert_eq!(h.duration, 1200);
    assert_eq!(h.adapter_name, "20W");
    assert_eq!(h.detail.curve, vec![1000, 1600, 2200]);
    assert_eq!(h.detail.raw, vec!["r1000", "r1600", "r2200"]);
}

#[test]
fn summary_of_a_local_session_with_clock_skew() {
    let staged = vec![stage(true, 20, 5000), stage(true, 30, 4000)];
    let h = summarize_history(staged, DeviceType::Local, "MacBook".to_string()).unwrap();
    assert!(!h.is_remote);
    assert_eq!(h.udid, "local");
    assert_eq!(h.duration, 0);
    assert_eq!(h.adapter_name, "Unknown");
}

#[test]
fn summary_of_nothing_is_none() {
    assert!(summarize_history(Vec::<ChargingHistoryStage<u32>>::new(), DeviceType::Local, String::new()).is_none());
}

#[test]
fn device_types_compare_by_udid() {
    let a = DeviceType::Remote("x".to_string());
    assert!(a.same_device(&DeviceType::Remote("x".to_string())));
    assert!(!a.same_device(&DeviceType::Remote("y".to_string())));
    assert!(!a.same_device(&DeviceType::Local));
    assert!(DeviceType::Local.same_device(&DeviceType::Local.duplicate()));
}

#[test]
fn compression_skips_readings_at_the_first_readings_time() {
    let mut staged: Vec<_> = (0..MAX_STAGED_SAMPLES as i64).map(|i| stage(true, 50, i % 2)).collect();
    push_stage(&mut staged, stage(true, 51, 100_000));
    assert_eq!(staged.len(), 1 + (MAX_STAGED_SAMPLES - 901) + 1);
    assert_eq!(staged[0].sample.last_update, 0);
    assert_eq!(staged[1].sample.last_update, 1);
    assert_eq!(staged.last().unwrap().sample.last_update, 100_000);
}

#[test]
fn out_of_order_readings_keep_saved_times_apart() {
    let mut staged = Vec::new();
    for i in 0..MAX_STAGED_SAMPLES as i64 {
        assert!(record_sample(&mut staged, stage(true, 50, i % 2)).is_none());
    }
    assert!(record_sample(&mut staged, stage(true, 51, 100_000)).is_none());
    let saved = record_sample(&mut staged, stage(false, 51, 100_001)).unwrap();
    assert!(staged.is_empty());
    assert_eq!(saved.len(), 1 + (MAX_STAGED_SAMPLES - 901) + 1);
    assert_eq!(saved[0].sample.last_update, 0);
    assert_eq!(saved[1].sample.last_update, 1);
    assert!(saved.windows(2).all(|w| w[0].sample.last_update != w[1].sample.last_update));
}
