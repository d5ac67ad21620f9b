use dahuang_dog::grouping::{most_memory, shown_applications, ApplicationGroup};
use dahuang_dog::lifecycle::AppSessions;
use dahuang_dog::process::ProcessSample;

fn process(pid: u32, started_at: u64, critical: bool) -> ProcessSample {
    ProcessSample {
        pid,
        parent_pid: None,
        started_at,
        name: "app.exe".into(),
        cpu_bits: 0,
        memory_bytes: 10,
        is_critical: critical,
        thread_count: 1,
        handle_count: None,
        disk_read_bps: 0,
        disk_write_bps: 0,
        executable_path: None,
    }
}

fn app(pid: u32, started_at: u64, members: usize, critical: bool) -> ApplicationGroup {
    ApplicationGroup {
        root_pid: pid,
        name: "app.exe".into(),
        member_count: members,
        memory_bytes: 10,
        disk_read_bps: 0,
        disk_write_bps: 0,
        network_bps: None,
        network_receive_bps: None,
        network_send_bps: None,
        product_name: None,
        description: None,
        publisher: None,
        executable_path: None,
        root_process: process(pid, started_at, critical),
        members: vec![process(pid, started_at, critical)],
    }
}

#[test]
fn sessions_open_advance_and_close() {
    let mut sessions = AppSessions::new(100);
    let first = sessions.update(110, 2, &vec![app(42, 100, 2, false), app(4, 1, 1, true)], Some(42));
    assert_eq!(first.len(), 1);
    assert_eq!(first[0].session_id, "42-100");
    assert_eq!(first[0].started_at, 100_000);
    assert_eq!(first[0].first_seen_at, 110_000);
    assert_eq!(first[0].runtime_seconds, 10);
    assert_eq!(first[0].foreground_seconds, 4);
    assert_eq!(first[0].background_seconds, 6);
    let second = sessions.update(112, 2, &vec![app(42, 100, 5, false)], None);
    assert_eq!(second[0].member_peak, 5);
    assert_eq!(second[0].foreground_seconds, 4);
    assert_eq!(second[0].first_seen_at, 110_000);
    let closed = sessions.update(161, 2, &vec![], None);
    assert_eq!(closed.len(), 1);
    assert!(!closed[0].is_running);
    assert_eq!(closed[0].closed_at, Some(161_000));
    assert_eq!(closed[0].runtime_seconds, 61);
    assert_eq!(closed[0].background_seconds, 57);
}

#[test]
fn a_key_seen_twice_advances_one_session() {
    let mut sessions = AppSessions::new(100);
    let records = sessions.update(104, 2, &vec![app(42, 100, 1, false), app(42, 100, 3, false)], Some(42));
    assert_eq!(records.len(), 2);
    assert_eq!(records[0].foreground_seconds, 4);
    assert_eq!(records[1].foreground_seconds, 8);
    assert_eq!(records[1].member_peak, 3);
    assert_eq!(records[1].session_id, "42-100");
    let closed = sessions.update(106, 2, &vec![], None);
    assert_eq!(closed.len(), 1);
    assert_eq!(closed[0].foreground_seconds, 8);
}

#[test]
fn most_memory_picks_the_last_of_equals() {
    let mut apps = vec![app(1, 1, 1, false), app(2, 1, 1, false), app(3, 1, 1, false)];
    apps[0].memory_bytes = 50;
    apps[1].memory_bytes = 70;
    apps[2].memory_bytes = 70;
    assert_eq!(most_memory(&apps), Some(2));
    apps[2].memory_bytes = 20;
    assert_eq!(most_memory(&apps), Some(1));
    assert_eq!(most_memory(&Vec::new()), None);
}

#[test]
fn status_shows_thirty_applications_of_thirty_members() {
    let mut apps: Vec<ApplicationGroup> = (0..40u32).map(|i| app(i, 1, 1, false)).collect();
    apps[0].members = (0..35u32).map(|i| process(i, 1, false)).collect();
    apps[0].member_count = 35;
    let shown = shown_applications(apps);
    assert_eq!(shown.len(), 30);
    assert_eq!(shown[0].members.len(), 30);
    assert_eq!(shown[0].member_count, 35);
    assert_eq!(shown[29].root_pid, 29);
    assert_eq!(shown_applications(vec![app(7, 1, 1, false)]).len(), 1);
}
