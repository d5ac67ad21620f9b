use dahuang_dog::network::{little_endian_u64, transfer_direction, Direction, NetworkCollector, WorkerCommand};

#[test]
fn little_endian_widths() {
    assert_eq!(little_endian_u64(&[7]), Some(7));
    assert_eq!(little_endian_u64(&[0x34, 0x12]), Some(0x1234));
    assert_eq!(little_endian_u64(&[1, 0, 0, 0]), Some(1));
    assert_eq!(little_endian_u64(&[0, 0, 0, 0, 0, 0, 0, 0x80]), Some(0x8000_0000_0000_0000));
    assert_eq!(little_endian_u64(&[1, 2, 3]), None);
    assert_eq!(little_endian_u64(&[]), None);
}

#[test]
fn opcodes_give_directions() {
    assert_eq!(transfer_direction(10), Some(Direction::Send));
    assert_eq!(transfer_direction(26), Some(Direction::Send));
    assert_eq!(transfer_direction(11), Some(Direction::Receive));
    assert_eq!(transfer_direction(27), Some(Direction::Receive));
    assert_eq!(transfer_direction(12), None);
}

#[test]
fn transfers_become_rates_and_counters_empty() {
    let (mut collector, command) = NetworkCollector::new(true);
    assert_eq!(command, WorkerCommand::Spawn);
    collector.record_transfer(10, Some(&[42, 0, 0, 0]), Some(&[0x10, 0x27]));
    collector.record_transfer(11, Some(&[42, 0, 0, 0]), Some(&[100]));
    collector.record_transfer(12, Some(&[43, 0, 0, 0]), Some(&[100]));
    collector.record_transfer(10, Some(&[0, 0, 0, 0]), Some(&[100]));
    collector.record_transfer(10, Some(&[0, 0, 0, 0, 1, 0, 0, 0]), Some(&[100]));
    let rates = collector.rates(2);
    assert_eq!(rates.len(), 1);
    assert_eq!(rates[&42].send_bps, 5_000);
    assert_eq!(rates[&42].receive_bps, 50);
    assert!(collector.rates(2).is_empty());
}

#[test]
fn collector_states() {
    let (mut collector, command) = NetworkCollector::new(false);
    assert_eq!(command, WorkerCommand::Keep);
    assert_eq!(collector.status().state, "disabled");
    assert_eq!(collector.set_enabled(true), WorkerCommand::Spawn);
    assert_eq!(collector.set_enabled(true), WorkerCommand::Keep);
    collector.note_start_failed(5);
    assert_eq!(collector.status().state, "error");
    assert_eq!(
        collector.status().message,
        "权限不足，无法启动内核 TCP/IP ETW 会话。请以管理员身份启动采集组件（错误 5）"
    );
    collector.note_finished(1, 3);
    assert_eq!(collector.status().message, "ETW 实时事件处理意外停止（错误 1）");
    assert_eq!(collector.status().events_lost, 3);
    assert_eq!(collector.stop(), WorkerCommand::Halt);
    collector.note_finished(1, 2);
    assert_eq!(collector.status().state, "disabled");
    assert_eq!(collector.status().events_lost, 5);
}
