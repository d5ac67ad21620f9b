use dahuang_dog::actions::Verifier;
use dahuang_dog::health::{health_score, local_diagnosis, lowest_disk_pressure, patrol_mood, DiagnosisInput, DiskMetric};
use dahuang_dog::detector::Detector;
use dahuang_dog::network::{NetworkCollector, WorkerCommand};
use dahuang_dog::settings::{apply_settings, same_settings, validate_settings, UserSettings};

fn disk(mount: &str, available: u64, total: u64) -> DiskMetric {
    DiskMetric {
        name: mount.into(),
        mount_point: mount.into(),
        total_bytes: total,
        available_bytes: available,
        read_bps: 0,
        write_bps: 0,
    }
}

#[test]
fn score_is_capped_by_disk_pressure() {
    assert_eq!(health_score(90, &vec![disk("C:", 50, 100)]), 90);
    assert_eq!(health_score(90, &vec![disk("C:", 8, 100)]), 70);
    assert_eq!(health_score(90, &vec![disk("C:", 8, 100), disk("D:", 3, 100)]), 45);
    assert_eq!(health_score(30, &vec![disk("D:", 3, 100)]), 30);
    assert_eq!(lowest_disk_pressure(&vec![disk("C:", 8, 100), disk("D:", 3, 100)]), Some((1, "critical")));
}

#[test]
fn diagnosis_without_snapshot_asks_to_wait() {
    let d = local_diagnosis(None);
    assert_eq!(d.summary, "我还没有收集到足够的数据。");
    assert_eq!(d.confidence, "low");
    assert_eq!(d.source, "local");
    let input = DiagnosisInput {
        details: vec!["CPU 20%".into()],
        disks: vec![disk("C:", 3, 100)],
        disk_note: "C: 只剩 3.0% 可用空间".into(),
        memory_high: true,
        cpu_high: true,
        disk_read_bps: 0,
        disk_write_bps: 0,
    };
    let d = local_diagnosis(Some(input));
    assert_eq!(d.details.last().unwrap(), "C: 只剩 3.0% 可用空间");
    assert_eq!(patrol_mood(false).0, "patrol");
    assert_eq!(patrol_mood(true).0, "investigating");
}

#[test]
fn settings_defaults_and_validation() {
    let defaults = UserSettings::default();
    assert_eq!(f32::from_bits(defaults.cpu_threshold_bits), 90.0);
    assert_eq!(defaults.sampling_interval_seconds(), 2);
    assert!(validate_settings(&defaults).is_ok());
    let mut low_power = UserSettings::defaults();
    low_power.low_power_mode = true;
    assert_eq!(low_power.sampling_interval_seconds(), 15);
    let mut bad = UserSettings::defaults();
    bad.cpu_threshold_bits = 50.0f32.to_bits();
    assert!(validate_settings(&bad).is_err());
}

#[test]
fn verification_reports_improvement() {
    let mut verifier = Verifier::new();
    verifier.start(100, "worker.exe", "action-1".into(), 42, 95.0f32.to_bits());
    assert!(verifier.due(110).is_none());
    assert!(verifier.due(115).is_some());
    let (id, message, kind) = verifier.finish(115, true, false, false).unwrap();
    assert_eq!(id, "action-1");
    assert_eq!(message, "处理完成后，系统资源压力已经明显下降。");
    assert_eq!(kind, "resolved");
    assert_eq!(verifier.status().as_ref().unwrap().status, "improved");
    assert!(verifier.due(200).is_none());
    assert!(verifier.finish(200, true, false, false).is_none());
}

#[test]
fn verification_without_relief_is_reported() {
    let mut verifier = Verifier::new();
    verifier.start(100, "worker.exe", "action-2".into(), 42, 95.0f32.to_bits());
    assert_eq!(verifier.due(114), None);
    assert_eq!(verifier.due(115), Some((42, 95.0f32.to_bits())));
    let (_, message, kind) = verifier.finish(115, false, true, false).unwrap();
    assert_eq!(message, "目标已经处理，但系统压力没有明显下降，可能还有其他原因。");
    assert_eq!(kind, "finding");
    let status = verifier.status().as_ref().unwrap();
    assert_eq!(status.status, "noImprovement");
    assert_eq!(status.target_name, "worker.exe");
    assert_eq!(status.started_at, 115_000);
}

#[test]
fn default_settings_are_the_documented_ones() {
    let s = UserSettings::default();
    assert_eq!(f32::from_bits(s.cpu_threshold_bits), 90.0);
    assert_eq!(f32::from_bits(s.memory_threshold_bits), 90.0);
    assert_eq!(s.sampling_seconds, 2);
    assert!(!s.low_power_mode);
    assert!(s.notifications_enabled);
    assert_eq!(s.retention_days, 7);
}

#[test]
fn applying_settings_restarts_the_runs_and_records_it() {
    let mut detector = Detector::new();
    let (mut network, _) = NetworkCollector::new(false);
    for _ in 0..29 {
        detector.observe_load(2, true, false);
    }
    let mut settings = UserSettings::defaults();
    settings.application_network_monitoring = true;
    assert!(!same_settings(&settings, &UserSettings::defaults()));
    assert!(same_settings(&UserSettings::defaults(), &UserSettings::default()));
    assert_eq!(apply_settings(&mut detector, &mut network, &settings, 100), Ok(WorkerCommand::Spawn));
    assert_eq!(detector.timeline()[0].kind, "patrol");
    assert_eq!(detector.timeline()[0].message, "巡逻设置已经更新");
    assert_eq!(detector.observe_load(2, true, false), (false, false));
    let mut bad = UserSettings::defaults();
    bad.sampling_seconds = 1;
    assert_eq!(apply_settings(&mut detector, &mut network, &bad, 100).unwrap_err(), "设置超出安全范围");
    assert_eq!(detector.timeline().len(), 1);
}
