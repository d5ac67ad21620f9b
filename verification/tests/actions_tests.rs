use dahuang_dog::actions::{
    action_message, check_identity, location_result, location_target, record_action, PendingActions, PendingKind,
    PriorityLevel, ProcessProbe, Verifier,
};
use dahuang_dog::detector::Detector;

fn probe(name: &str, started_at: u64) -> ProcessProbe {
    ProcessProbe {
        parent_pid: None,
        started_at,
        name: name.into(),
        cpu_bits: 12.5f32.to_bits(),
        memory_bytes: 1_000,
        handle_count: None,
        executable_path: None,
    }
}

#[test]
fn confirmation_redeems_a_preview_once() {
    let mut pending = PendingActions::new();
    let preview = pending.prepare_terminate(1_000, 42, 77, Some(probe("worker.exe", 77))).unwrap();
    assert!(preview.allowed);
    assert_eq!(preview.risk_level, "R2");
    assert_eq!(preview.expires_at, 1_030_000);
    assert!(pending.confirm_action(&preview.preview_id, 1_010, Some((42, 77))).is_ok());
    assert_eq!(pending.confirm_action(&preview.preview_id, 1_010, Some((42, 77))).unwrap_err(), "确认已失效，请重新发起操作");
}

#[test]
fn preview_expires_after_thirty_seconds() {
    let mut pending = PendingActions::new();
    let preview = pending.prepare_terminate(1_000, 42, 77, Some(probe("worker.exe", 77))).unwrap();
    assert_eq!(pending.confirm_action(&preview.preview_id, 1_031, Some((42, 77))).unwrap_err(), "确认已过期，请重新检查目标");
}

#[test]
fn critical_process_preview_is_refused() {
    let mut pending = PendingActions::new();
    let preview = pending.prepare_terminate(1_000, 4, 1, Some(probe("csrss.exe", 1))).unwrap();
    assert!(!preview.allowed);
    assert_eq!(preview.risk_level, "R4");
    assert_eq!(pending.confirm_action(&preview.preview_id, 1_000, Some((4, 1))).unwrap_err(), "安全策略拒绝了这个操作");
}

#[test]
fn gone_or_reused_process_is_refused() {
    let mut pending = PendingActions::new();
    assert!(pending.prepare_terminate(1_000, 42, 77, None).is_err());
    assert!(pending.prepare_terminate(1_000, 42, 77, Some(probe("worker.exe", 78))).is_err());
    assert!(pending.prepare_priority(1_000, 42, 77, "realtime", Some(probe("worker.exe", 77))).is_err());
    let preview = pending.prepare_priority(1_000, 42, 77, "belowNormal", Some(probe("worker.exe", 77))).unwrap();
    assert!(check_identity(&preview.target, None).is_err());
    assert!(check_identity(&preview.target, Some(78)).is_err());
    assert!(check_identity(&preview.target, Some(77)).is_ok());
}

#[test]
fn expired_previews_are_dropped_and_messages_name_the_target() {
    let mut pending = PendingActions::new();
    let preview = pending.prepare_terminate(1_000, 42, 77, Some(probe("worker.exe", 77))).unwrap();
    pending.expire(1_031);
    assert_eq!(pending.confirm_action(&preview.preview_id, 1_000, Some((42, 77))).unwrap_err(), "确认已失效，请重新发起操作");
    assert_eq!(
        action_message(PendingKind::Terminate, "worker.exe", true),
        "已向 worker.exe 发送结束请求，我会继续观察资源是否恢复。"
    );
    assert_eq!(
        action_message(PendingKind::SetPriority(PriorityLevel::Normal), "worker.exe", false),
        "无法调整 worker.exe，可能需要管理员权限。"
    );
}

#[test]
fn location_needs_the_same_process_and_a_path() {
    assert_eq!(location_target(77, None).unwrap_err(), "目标进程已经退出");
    assert_eq!(location_target(77, Some(probe("worker.exe", 78))).unwrap_err(), "目标身份已经变化，请重新查看");
    assert_eq!(location_target(77, Some(probe("worker.exe", 77))).unwrap_err(), "无法读取这个进程的位置");
    let mut found = probe("worker.exe", 77);
    found.executable_path = Some("C:\\Tools\\worker.exe".into());
    assert_eq!(location_target(77, Some(found)).unwrap(), ("worker.exe".to_string(), "C:\\Tools\\worker.exe".to_string()));
}

#[test]
fn location_result_names_the_process() {
    let shown = location_result("worker.exe", true);
    assert!(shown.success);
    assert_eq!(shown.message, "已经帮你定位到 worker.exe。");
    assert_eq!(shown.action_id.len(), 36);
    let failed = location_result("worker.exe", false);
    assert!(!failed.success);
    assert_eq!(failed.message, "无法打开文件位置。");
}

#[test]
fn confirmation_checks_the_target_still_runs() {
    let mut pending = PendingActions::new();
    let preview = pending.prepare_terminate(1_000, 42, 77, Some(probe("worker.exe", 77))).unwrap();
    assert_eq!(pending.confirm_action(&preview.preview_id, 1_010, None).unwrap_err(), "目标进程已经退出");
    let preview = pending.prepare_terminate(1_000, 42, 77, Some(probe("worker.exe", 77))).unwrap();
    assert_eq!(
        pending.confirm_action(&preview.preview_id, 1_010, Some((42, 78))).unwrap_err(),
        "目标身份已经变化，操作已取消"
    );
    assert_eq!(pending.confirm_action(&preview.preview_id, 1_010, Some((42, 77))).unwrap_err(), "确认已失效，请重新发起操作");
    let preview = pending.prepare_terminate(1_000, 42, 77, Some(probe("worker.exe", 77))).unwrap();
    assert_eq!(pending.confirm_action(&preview.preview_id, 1_010, Some((43, 77))).unwrap_err(), "目标进程已经退出");
}

#[test]
fn a_successful_termination_is_recorded_and_observed() {
    let mut pending = PendingActions::new();
    let preview = pending.prepare_terminate(1_000, 42, 77, Some(probe("worker.exe", 77))).unwrap();
    let action = pending.confirm_action(&preview.preview_id, 1_010, Some((42, 77))).unwrap();
    let mut detector = Detector::new();
    let mut verifier = Verifier::new();
    let result = record_action(&mut detector, &mut verifier, &action, true, 1_010, 95.0f32.to_bits());
    assert!(result.success);
    assert_eq!(result.message, "已向 worker.exe 发送结束请求，我会继续观察资源是否恢复。");
    assert_eq!(result.action_id.len(), 36);
    assert_eq!(detector.timeline()[0].kind, "action");
    assert_eq!(detector.timeline()[0].message, result.message);
    let status = verifier.status().as_ref().unwrap();
    assert_eq!(status.status, "observing");
    assert_eq!(status.target_name, "worker.exe");
    assert_eq!(verifier.due(1_024), None);
    assert_eq!(verifier.due(1_025), Some((42, 95.0f32.to_bits())));
    let (id, _, kind) = verifier.finish(1_025, false, true, true).unwrap();
    assert_eq!(id, result.action_id);
    assert_eq!(kind, "resolved");
}

#[test]
fn failed_or_priority_actions_start_no_observation() {
    let mut pending = PendingActions::new();
    let preview = pending.prepare_terminate(1_000, 42, 77, Some(probe("worker.exe", 77))).unwrap();
    let action = pending.confirm_action(&preview.preview_id, 1_010, Some((42, 77))).unwrap();
    let mut detector = Detector::new();
    let mut verifier = Verifier::new();
    let result = record_action(&mut detector, &mut verifier, &action, false, 1_010, 0);
    assert_eq!(result.message, "没有成功结束 worker.exe，可能需要管理员权限。");
    assert!(verifier.status().is_none());
    assert_eq!(detector.timeline()[0].kind, "action");
    let preview = pending.prepare_priority(1_000, 42, 77, "belowNormal", Some(probe("worker.exe", 77))).unwrap();
    let action = pending.confirm_action(&preview.preview_id, 1_010, Some((42, 77))).unwrap();
    let result = record_action(&mut detector, &mut verifier, &action, true, 1_010, 0);
    assert_eq!(result.message, "已调整 worker.exe 的优先级。");
    assert!(verifier.status().is_none());
}
