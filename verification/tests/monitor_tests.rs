use dahuang_dog::baseline::{memory_growth, required_high_samples, RollingBaseline};
use dahuang_dog::grouping::build_application_groups;
use dahuang_dog::health::disk_space_pressure;
use dahuang_dog::network::NetworkRate;
use dahuang_dog::process::{is_critical, ProcessSample};
use std::collections::{HashMap, VecDeque};

fn free_percent(available: u64, total: u64) -> f64 {
    available as f64 / total as f64 * 100.0
}

#[test]
fn critical_process_names_are_case_insensitive() {
    assert!(is_critical("LSASS.EXE"));
    assert!(!is_critical("my-test-worker.exe"));
}

#[test]
fn high_samples_require_a_full_window() {
    let required = required_high_samples(2);
    let mut count = 0_u8;
    for _ in 0..required - 1 {
        count = count.saturating_add(1);
    }
    assert!(count < required);
    count = count.saturating_add(1);
    assert_eq!(count, required);
}

#[test]
fn groups_same_name_child_processes() {
    let sample = |pid, parent_pid, name: &str, cpu: f32, memory| ProcessSample {
        pid,
        parent_pid,
        started_at: 1,
        name: name.into(),
        cpu_bits: cpu.to_bits(),
        memory_bytes: memory,
        is_critical: false,
        thread_count: 1,
        handle_count: Some(1),
        disk_read_bps: 0,
        disk_write_bps: 0,
        executable_path: None,
    };
    let mut network_rates = HashMap::new();
    network_rates.insert(10, NetworkRate { receive_bps: 1_000, send_bps: 200 });
    network_rates.insert(11, NetworkRate { receive_bps: 2_000, send_bps: 300 });
    let groups = build_application_groups(
        &vec![
            sample(10, None, "chrome.exe", 5.0, 100),
            sample(11, Some(10), "chrome.exe", 7.0, 200),
            sample(12, Some(11), "chrome.exe", 3.0, 300),
            sample(20, Some(10), "helper.exe", 1.0, 50),
        ],
        &network_rates,
        true,
    );
    let chrome = groups.iter().find(|group| group.name == "chrome.exe").unwrap();
    let chrome_cpu: f32 = chrome.members.iter().map(|member| f32::from_bits(member.cpu_bits)).sum();
    assert_eq!(chrome.root_pid, 10);
    assert_eq!(chrome.member_count, 3);
    assert_eq!(chrome_cpu, 15.0);
    assert_eq!(chrome.memory_bytes, 600);
    assert_eq!(chrome.network_receive_bps, Some(3_000));
    assert_eq!(chrome.network_send_bps, Some(500));
    assert_eq!(chrome.network_bps, Some(3_500));
    assert!(groups.iter().any(|group| group.name == "helper.exe" && group.member_count == 1));
}

#[test]
fn rolling_baseline_uses_median_and_mad() {
    let mut baseline = RollingBaseline::new();
    for value in 1..=40u64 {
        baseline.push(1_000_000 + (value % 3) * 10_000);
    }
    assert!(baseline.assess(5_000_000, 500_000).is_some());
    assert!(baseline.assess(1_020_000, 500_000).is_none());
}

#[test]
fn detects_sustained_application_memory_growth() {
    let mut history = VecDeque::new();
    history.push_back((0, 1024 * 1024 * 1024));
    history.push_back((20 * 60, 3 * 1024 * 1024 * 1024));
    let (growth, duration) = memory_growth(&history).unwrap();
    assert_eq!(growth, 2 * 1024 * 1024 * 1024);
    assert_eq!(duration, 20 * 60);
}

#[test]
fn disk_space_pressure_has_warning_and_critical_levels() {
    assert_eq!(disk_space_pressure(9, 100).map(|level| (free_percent(9, 100), level)), Some((9.0, "warning")));
    assert_eq!(disk_space_pressure(4, 100).map(|level| (free_percent(4, 100), level)), Some((4.0, "critical")));
    assert_eq!(disk_space_pressure(10, 100), None);
    assert_eq!(disk_space_pressure(0, 0), None);
}

#[test]
fn baseline_needs_thirty_readings_and_the_floor() {
    let mut baseline = RollingBaseline::new();
    for _ in 0..29 {
        baseline.push(1_000_000);
    }
    assert_eq!(baseline.assess(9_000_000, 500_000), None);
    baseline.push(1_000_000);
    assert_eq!(baseline.assess(9_000_000, 500_000), Some((1_000_000, 1)));
    assert_eq!(baseline.assess(400_000, 500_000), None);
}

#[test]
fn short_or_small_growth_is_not_reported() {
    let mut history = VecDeque::new();
    history.push_back((0, 1024 * 1024 * 1024));
    history.push_back((19 * 60, 3 * 1024 * 1024 * 1024));
    assert_eq!(memory_growth(&history), None);
    let mut small = VecDeque::new();
    small.push_back((0, 4 * 1024 * 1024 * 1024));
    small.push_back((30 * 60, 5 * 1024 * 1024 * 1024));
    assert_eq!(memory_growth(&small), None);
    assert_eq!(memory_growth(&VecDeque::new()), None);
}

#[test]
fn required_samples_cover_about_a_minute() {
    assert_eq!(required_high_samples(2), 30);
    assert_eq!(required_high_samples(5), 12);
    assert_eq!(required_high_samples(0), 60);
}

#[test]
fn disk_pressure_boundaries() {
    assert_eq!(disk_space_pressure(5, 100), Some("warning"));
    assert_eq!(disk_space_pressure(0, 100), Some("critical"));
    assert_eq!(disk_space_pressure(100, 100), None);
}

#[test]
fn members_with_equal_cpu_keep_their_sampling_order() {
    let sample = |pid, parent_pid, cpu: f32| ProcessSample {
        pid,
        parent_pid,
        started_at: 1,
        name: "code.exe".into(),
        cpu_bits: cpu.to_bits(),
        memory_bytes: 10,
        is_critical: false,
        thread_count: 1,
        handle_count: None,
        disk_read_bps: 0,
        disk_write_bps: 0,
        executable_path: None,
    };
    let groups = build_application_groups(
        &vec![sample(1, None, 2.0), sample(5, Some(1), 2.0), sample(3, Some(1), 9.0), sample(4, Some(1), 2.0)],
        &HashMap::new(),
        false,
    );
    let pids: Vec<u32> = groups[0].members.iter().map(|m| m.pid).collect();
    assert_eq!(pids, vec![3, 1, 5, 4]);
}
