use dahuang_dog::detector::Detector;
use dahuang_dog::usage::{
    average_bps, history_since, retention_cutoff, trend_window, usage_since, usage_summary, AppUsageAggregate,
    DailyUsage,
};

fn aggregate(name: &str, sessions: u64, foreground: u64) -> AppUsageAggregate {
    AppUsageAggregate {
        name: name.into(),
        session_count: sessions,
        runtime_seconds: foreground * 2,
        foreground_seconds: foreground,
        background_seconds: foreground,
    }
}

#[test]
fn usage_summary_totals_and_leaders() {
    let apps: Vec<_> = (0..10u64).map(|i| aggregate(&format!("app{i}"), i + 1, 100 - i)).collect();
    let days = vec![DailyUsage { date: "2024-01-01".into(), foreground_seconds: 50, launch_count: 2 }];
    let summary = usage_summary(7, apps, days);
    assert_eq!(summary.application_count, 10);
    assert_eq!(summary.session_count, 55);
    assert_eq!(summary.total_foreground_seconds, 955);
    assert_eq!(summary.total_runtime_seconds, 1910);
    assert_eq!(summary.longest_used_app.as_deref(), Some("app0"));
    assert_eq!(summary.top_apps.len(), 8);
    assert_eq!(summary.daily_usage.len(), 1);
    let empty = usage_summary(1, vec![], vec![]);
    assert_eq!(empty.longest_used_app, None);
}

#[test]
fn periods_and_trend_windows() {
    assert_eq!(usage_since(86_400_000 * 3, 1), Some(86_400_000 * 2));
    assert_eq!(usage_since(1_000, 1), None);
    assert_eq!(trend_window(10_000_000, 60), (10_000_000 - 3_600_000, 12_000));
    assert_eq!(trend_window(1_000, 0), (0, 2_000));
    assert_eq!(trend_window(u64::MAX, 20_000).0, u64::MAX - 10_080 * 60_000);
}

#[test]
fn clearing_memory_restarts_the_timeline() {
    let mut detector = Detector::new();
    detector.add_finding(10, "memory.pressure", "warning", "电脑内存有点挤", "m".into(), vec![], None);
    detector.observe_load(2, true, true);
    detector.reset_load_runs();
    assert_eq!(detector.observe_load(2, false, false), (false, false));
    detector.clear(20);
    assert!(detector.findings().is_empty());
    assert_eq!(detector.timeline().len(), 1);
    assert_eq!(detector.timeline()[0].message, "旧的本地记忆已经清除，从现在重新开始巡逻");
}

#[test]
fn history_averages_round_down() {
    assert_eq!(average_bps(&vec![10, 20, 31]), 20);
    assert_eq!(average_bps(&vec![7]), 7);
    assert_eq!(average_bps(&vec![]), 0);
    assert_eq!(average_bps(&vec![u64::MAX, 0]), u64::MAX / 2);
}

#[test]
fn history_baseline_covers_the_day_before_the_last_point() {
    assert_eq!(history_since(Some(100_000_000)), 13_600_000);
    assert_eq!(history_since(Some(1_000)), 0);
    assert_eq!(history_since(None), 0);
}

#[test]
fn snapshots_are_kept_for_the_retention_period() {
    assert_eq!(retention_cutoff(10 * 86_400_000, 7), 3 * 86_400_000);
    assert_eq!(retention_cutoff(86_400_000, 7), 0);
    assert_eq!(retention_cutoff(5, 0), 5);
}
