use powerflow::statistic::PowerStatistic;
use ratatui::widgets::SparklineBar;

fn bars(v: &[u64]) -> Vec<SparklineBar> {
    v.iter().map(|x| SparklineBar::from(*x)).collect()
}

#[test]
fn histories_start_empty() {
    let s = PowerStatistic::default();
    assert!(s.battery_history(10).is_empty());
    assert!(s.system_history(10).is_empty());
}

#[test]
fn window_shows_newest_samples_in_order() {
    let mut s = PowerStatistic::new();
    for i in 1..=5u64 {
        s.update(i, i * 10, i * 100);
    }
    assert_eq!(s.battery_history(3), bars(&[3, 4, 5]));
    assert_eq!(s.input_history(10), bars(&[10, 20, 30, 40, 50]));
    assert_eq!(s.system_history(0), bars(&[]));
    assert_eq!(s.system_history(2), bars(&[400, 500]));
}

#[test]
fn histories_are_capped() {
    let mut s = PowerStatistic::new();
    for i in 0..300u64 {
        s.update(i, i + 1, i + 2);
    }
    let b = s.battery_history(1000);
    assert_eq!(b.len(), 50);
    assert_eq!(b[0], SparklineBar::from(250u64));
    assert_eq!(b[49], SparklineBar::from(299u64));
    assert_eq!(s.input_history(1000).len(), 50);
    let sys = s.system_history(1000);
    assert_eq!(sys.len(), 200);
    assert_eq!(sys[0], SparklineBar::from(102u64));
    assert_eq!(sys[199], SparklineBar::from(301u64));
}
