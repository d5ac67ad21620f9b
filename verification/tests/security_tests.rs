use dahuang_dog::security::{
    assess_program, folder_startup_entry, registry_source, security_report, select_programs, startup_entry,
    user_writable_path, ProcessImage,
};

#[test]
fn identifies_user_writable_locations() {
    assert!(user_writable_path(r"C:\Users\me\AppData\Local\Temp\a.exe"));
    assert!(!user_writable_path(r"C:\Program Files\Example\a.exe"));
}

#[test]
fn unsigned_program_in_downloads_is_medium() {
    let risk = assess_program(7, "a.exe".into(), r"C:\Users\me\DOWNLOADS\a.exe".into(), false);
    assert_eq!(risk.risk_level, "medium");
    assert_eq!(risk.signature_status, "unverified");
    assert_eq!(risk.reasons, vec!["没有可验证的数字签名".to_string(), "程序位于用户可写目录".to_string()]);
    let unsigned_elsewhere = assess_program(8, "b.exe".into(), r"C:\Tools\b.exe".into(), false);
    assert_eq!(unsigned_elsewhere.risk_level, "low");
    let signed_elsewhere = assess_program(9, "c.exe".into(), r"C:\Tools\c.exe".into(), true);
    assert_eq!(signed_elsewhere.risk_level, "normal");
    assert!(signed_elsewhere.reasons.is_empty());
}

#[test]
fn startup_in_temp_is_medium() {
    let entry = startup_entry("x".into(), r"C:\Users\me\AppData\Local\TEMP\x.exe".into(), "当前用户".into());
    assert_eq!(entry.risk_level, "medium");
    assert_eq!(entry.reasons, vec!["启动命令指向临时目录".to_string()]);
    let calm = startup_entry("y".into(), r"C:\Tools\y.exe".into(), "本机".into());
    assert_eq!(calm.risk_level, "normal");
    let folder = folder_startup_entry("z.lnk".into(), r"C:\Startup\z.lnk".into());
    assert_eq!(folder.source, "Startup 文件夹");
    assert_eq!(registry_source("当前用户", r"Software\Run"), r"当前用户\Software\Run");
}

#[test]
fn programs_are_selected_once_per_path() {
    let image = |pid, path: &str| ProcessImage { pid, name: "p".into(), path: path.into() };
    let picked = select_programs(&vec![image(1, r"C:\A.exe"), image(2, r"c:\a.EXE"), image(3, r"C:\b.exe")]);
    assert_eq!(picked.iter().map(|p| p.pid).collect::<Vec<_>>(), vec![1, 3]);
    let many: Vec<_> = (0..130).map(|i| image(i, &format!(r"C:\p{i}.exe"))).collect();
    assert_eq!(select_programs(&many).len(), 120);
}

#[test]
fn report_orders_and_summarises() {
    let programs = vec![
        assess_program(1, "n".into(), r"C:\Tools\n.exe".into(), true),
        assess_program(2, "l".into(), r"C:\Tools\l.exe".into(), false),
        assess_program(3, "m".into(), r"C:\Users\me\Desktop\m.exe".into(), false),
    ];
    let startups = vec![startup_entry("t".into(), r"C:\temp\t.exe".into(), "本机".into())];
    let report = security_report(programs, startups, 123);
    assert_eq!(report.scanned_at, 123);
    assert_eq!(report.scanned_programs, 3);
    assert_eq!(report.signed_programs, 1);
    assert_eq!(report.programs.iter().map(|p| p.pid).collect::<Vec<_>>(), vec![3, 2]);
    assert_eq!(report.summary, "发现 2 个值得进一步确认的项目。");
    let quiet = security_report(vec![], vec![], 0);
    assert_eq!(quiet.summary, "没有发现明显需要注意的项目。");
}
