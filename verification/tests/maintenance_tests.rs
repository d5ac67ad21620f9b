use dahuang_dog::maintenance::{
    backup_command, backup_value, cleanup_report, keep_candidate, maintenance_result, run_subkey, split_backup,
    startup_done_message,
    CleanupCandidate, CleanupTarget, MaintenanceAction, MaintenanceManager,
};

fn target(requested: &str, canonical: Option<&str>, within: bool, is_file: bool, size: u64) -> CleanupTarget {
    CleanupTarget {
        requested: requested.into(),
        canonical: canonical.map(|c| c.to_string()),
        within_allowed: within,
        is_file,
        size_bytes: size,
    }
}

#[test]
fn cleanup_keeps_old_cache_files_and_large_downloads() {
    let day = 86_400_000;
    assert!(!keep_candidate(true, 10, day, day + 10));
    assert!(keep_candidate(true, 10, 0, day));
    assert!(!keep_candidate(true, 10, 5_000, 1_000));
    assert!(!keep_candidate(false, 104_857_599, 0, 0));
    assert!(keep_candidate(false, 104_857_600, 0, 0));
}

#[test]
fn cleanup_report_lists_largest_first() {
    let c = |path: &str, size, cleanable| CleanupCandidate {
        path: path.into(),
        category: "临时文件".into(),
        size_bytes: size,
        modified_at: 0,
        cleanable,
    };
    let report = cleanup_report(vec![c("a", 5, true), c("b", 9, false), c("c", 5, true), c("d", 7, true)], 99);
    assert_eq!(report.reclaimable_bytes, 17);
    assert_eq!(report.candidates.iter().map(|x| x.path.as_str()).collect::<Vec<_>>(), vec!["b", "d", "a", "c"]);
}

#[test]
fn cleanup_preview_is_confirmed_once() {
    let mut manager = MaintenanceManager::new();
    let preview = manager
        .prepare_cleanup(1, vec![target("x", Some("X"), true, true, 10), target("y", Some("Y"), true, true, 5)], 1_000)
        .unwrap();
    assert_eq!(preview.item_count, 2);
    assert_eq!(preview.total_bytes, 15);
    assert_eq!(preview.expires_at, 31_000);
    match manager.confirm(&preview.preview_id, 2_000).unwrap() {
        MaintenanceAction::Cleanup(paths) => assert_eq!(paths, vec!["X".to_string(), "Y".to_string()]),
        _ => panic!("expected a cleanup"),
    }
    assert_eq!(manager.confirm(&preview.preview_id, 2_000).unwrap_err(), "确认已失效");
}

#[test]
fn cleanup_refuses_unsafe_targets() {
    let mut manager = MaintenanceManager::new();
    assert_eq!(manager.prepare_cleanup(0, vec![], 0).unwrap_err(), "无法定位可清理目录");
    assert_eq!(manager.prepare_cleanup(1, vec![], 0).unwrap_err(), "没有选择可清理文件");
    assert_eq!(
        manager.prepare_cleanup(1, vec![target("gone.tmp", None, false, false, 0)], 0).unwrap_err(),
        "文件已不存在：gone.tmp"
    );
    assert_eq!(
        manager.prepare_cleanup(1, vec![target("a", Some("A"), false, true, 0)], 0).unwrap_err(),
        "安全策略只允许清理已扫描缓存目录中的普通文件"
    );
}

#[test]
fn startup_preview_expires() {
    let mut manager = MaintenanceManager::new();
    assert_eq!(
        manager.prepare_startup(r"HKEY_LOCAL_MACHINE\Run".into(), "x".into(), "c".into(), false, 0).unwrap_err(),
        "首版只允许管理当前用户启动项"
    );
    assert!(manager.prepare_startup(r"HKEY_CURRENT_USER\Run".into(), "".into(), "c".into(), false, 0).is_err());
    let preview = manager
        .prepare_startup(r"HKEY_CURRENT_USER\Software\Run".into(), "Tool".into(), "c".into(), false, 0)
        .unwrap();
    assert_eq!(preview.title, "禁用启动项 Tool");
    assert_eq!(manager.confirm(&preview.preview_id, 30_001).unwrap_err(), "确认已过期");
    let again = manager.prepare_startup(r"大黄狗\已禁用".into(), "Tool".into(), "c".into(), true, 0).unwrap();
    assert_eq!(again.title, "启用启动项 Tool");
    assert_eq!(startup_done_message("Tool", true), "已启用启动项 Tool");
}

#[test]
fn registry_backup_round_trip() {
    let stored = backup_value(r"Software\Microsoft\Windows\CurrentVersion\Run", "C:\\a.exe --x");
    assert_eq!(
        split_backup(&stored),
        Some((r"Software\Microsoft\Windows\CurrentVersion\Run".to_string(), "C:\\a.exe --x".to_string()))
    );
    assert_eq!(backup_command(&stored), "C:\\a.exe --x");
    assert_eq!(split_backup("no line break"), None);
    assert_eq!(backup_command("no line break"), "");
    assert_eq!(
        run_subkey(r"当前用户\HKEY_CURRENT_USER\Software\Run"),
        Some(r"Software\Run".to_string())
    );
    assert_eq!(run_subkey("本机"), None);
}

#[test]
fn results_and_previews_get_fresh_ids() {
    let result = maintenance_result("已清理 1 个临时文件".into());
    assert_eq!(result.action_id.len(), 36);
    assert!(result.success);
    let mut manager = MaintenanceManager::new();
    let a = manager.prepare_startup(r"HKEY_CURRENT_USER\Run".into(), "A".into(), "c".into(), false, 0).unwrap();
    let b = manager.prepare_startup(r"HKEY_CURRENT_USER\Run".into(), "B".into(), "c".into(), false, 0).unwrap();
    assert_ne!(a.preview_id, b.preview_id);
    assert_eq!(a.preview_id.len(), 36);
}
