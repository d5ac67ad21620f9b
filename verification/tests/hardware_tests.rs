use dahuang_dog::hardware::{battery_metric, gpu_fields, gpu_memory_bytes, parse_u64};
use dahuang_dog::network::CollectorStatus;

#[test]
fn no_battery_flag_means_no_battery() {
    assert!(battery_metric(1, 128, 100, 0).is_none());
}

#[test]
fn battery_reading_caps_charge_and_reads_flags() {
    let battery = battery_metric(1, 8 | 1, 255, u32::MAX).unwrap();
    assert_eq!(battery.charge_percent, 100);
    assert!(battery.charging);
    assert!(battery.ac_connected);
    assert_eq!(battery.life_seconds, None);
    let battery = battery_metric(0, 2, 42, 3_600).unwrap();
    assert_eq!(battery.charge_percent, 42);
    assert!(!battery.charging);
    assert!(!battery.ac_connected);
    assert_eq!(battery.life_seconds, Some(3_600));
}

#[test]
fn gpu_lines_split_into_four_trimmed_fields() {
    let fields = gpu_fields("NVIDIA GeForce RTX 3060 , 15,  1024,12288 ").unwrap();
    assert_eq!(fields.name, "NVIDIA GeForce RTX 3060");
    assert_eq!(fields.usage, "15");
    assert_eq!(fields.memory_used, "1024");
    assert_eq!(fields.memory_total, "12288");
    assert!(gpu_fields("a, b, c").is_none());
    assert!(gpu_fields("a, b, c, d, e").is_none());
    assert!(gpu_fields("").is_none());
    let empty = gpu_fields(",,,").unwrap();
    assert_eq!(empty.name, "");
    assert_eq!(empty.memory_total, "");
}

#[test]
fn decimal_parsing_matches_std() {
    for text in ["0", "+12", "007", "18446744073709551615", "18446744073709551616", "", "+", "-1", "1a", " 1", "１"] {
        assert_eq!(parse_u64(text), text.parse::<u64>().ok(), "{text:?}");
    }
}

#[test]
fn gpu_memory_is_given_in_mebibytes() {
    assert_eq!(gpu_memory_bytes("1024"), Some(1_073_741_824));
    assert_eq!(gpu_memory_bytes("N/A"), None);
    assert_eq!(gpu_memory_bytes("0"), Some(0));
}

#[test]
fn collector_summary_reports_lost_events() {
    let mut status = CollectorStatus::disabled();
    assert_eq!(status.summary(), "应用网络监控尚未启用");
    status.events_lost = 7;
    assert_eq!(status.summary(), "应用网络监控尚未启用；已有 7 个事件丢失，本段数据可能不完整");
}
