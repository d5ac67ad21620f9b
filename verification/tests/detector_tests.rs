use dahuang_dog::detector::{growth_finding_kind, patrol_due, AppMemory, Detector};
use dahuang_dog::notify::findings_to_notify;

#[test]
fn timeline_keeps_fifty_newest_first() {
    let mut detector = Detector::new();
    for i in 0..60u64 {
        detector.push_event(i, "patrol", &format!("event {i}"));
    }
    assert_eq!(detector.timeline().len(), 50);
    assert_eq!(detector.timeline()[0].message, "event 59");
    assert_eq!(detector.timeline()[0].occurred_at, 59_000);
}

#[test]
fn findings_respect_the_cooldown() {
    let mut detector = Detector::new();
    assert!(detector.add_finding(1_000, "cpu.sustained_high", "warning", "CPU 一直很忙", "m".into(), vec![], None));
    let removed = detector.resolve(1_010, true, false, false);
    assert_eq!(removed.len(), 1);
    assert!(!detector.add_finding(1_100, "cpu.sustained_high", "warning", "CPU 一直很忙", "m".into(), vec![], None));
    assert!(detector.add_finding(1_600, "cpu.sustained_high", "warning", "CPU 一直很忙", "m".into(), vec![], None));
    assert_eq!(detector.findings().len(), 1);
}

#[test]
fn load_needs_a_full_window() {
    let mut detector = Detector::new();
    for _ in 0..29 {
        assert_eq!(detector.observe_load(2, true, false), (false, false));
    }
    assert_eq!(detector.observe_load(2, true, false), (true, false));
    assert_eq!(detector.observe_load(2, false, false), (false, false));
}

#[test]
fn a_calm_reading_restarts_the_minute() {
    let mut detector = Detector::new();
    for _ in 0..29 {
        detector.observe_load(2, false, true);
    }
    assert_eq!(detector.observe_load(2, false, false), (false, false));
    for _ in 0..29 {
        assert_eq!(detector.observe_load(2, false, true), (false, false));
    }
    assert_eq!(detector.observe_load(2, false, true), (false, true));
}

#[test]
fn memory_growth_is_found_after_twenty_minutes() {
    let mut detector = Detector::new();
    let gib = 1024 * 1024 * 1024;
    let reading = |bytes| vec![AppMemory { pid: 7, started_at: 1, memory_bytes: bytes }];
    assert!(detector.observe_memory(0, &reading(gib)).is_empty());
    let found = detector.observe_memory(20 * 60, &reading(3 * gib));
    assert_eq!(found, vec![(0, 2 * gib, 20 * 60)]);
}

#[test]
fn each_finding_is_notified_once() {
    let mut detector = Detector::new();
    detector.add_finding(1_000, "cpu.sustained_high", "warning", "CPU 一直很忙", "m".into(), vec![], None);
    let findings = detector.findings().clone();
    let mut notified = Vec::new();
    assert!(findings_to_notify(&mut notified, &findings, false).is_empty());
    assert!(notified.is_empty());
    assert_eq!(findings_to_notify(&mut notified, &findings, true), vec![0]);
    assert!(findings_to_notify(&mut notified, &findings, true).is_empty());
    assert!(findings_to_notify(&mut notified, &Vec::new(), true).is_empty());
    assert!(notified.is_empty());
    assert_eq!(findings_to_notify(&mut notified, &findings, true), vec![0]);
}

#[test]
fn growth_findings_are_keyed_by_application_and_not_repeated_while_open() {
    assert_eq!(growth_finding_kind(42, 1_700_000_000), "process.memory_growth:42:1700000000");
    let mut detector = Detector::new();
    assert!(detector.add_growth_finding(1_000, 42, 7, "app 的内存持续增长", "m".into(), vec![], None));
    assert_eq!(detector.findings()[0].kind, "process.memory_growth:42:7");
    assert_eq!(detector.findings()[0].severity, "warning");
    assert!(!detector.add_growth_finding(2_000, 42, 7, "app 的内存持续增长", "m".into(), vec![], None));
    assert_eq!(detector.findings().len(), 1);
    assert!(detector.add_growth_finding(2_000, 43, 7, "other 的内存持续增长", "m".into(), vec![], None));
    assert_eq!(detector.findings().len(), 2);
}

#[test]
fn an_open_kind_is_not_raised_again() {
    let mut detector = Detector::new();
    assert!(detector.add_finding(1_000, "disk.io_spike", "warning", "磁盘读写突然变忙", "m".into(), vec![], None));
    assert!(!detector.add_finding(5_000, "disk.io_spike", "warning", "磁盘读写突然变忙", "m".into(), vec![], None));
    assert_eq!(detector.findings().len(), 1);
    assert_eq!(detector.timeline().len(), 1);
}

#[test]
fn patrol_event_every_ten_minutes() {
    assert!(!patrol_due(1_599, 1_000));
    assert!(patrol_due(1_600, 1_000));
    assert!(!patrol_due(900, 1_000));
}
