use dahuang_dog::storage_scan::{display_name, scan, scan_entry, FsNode, ScanStats};

fn file(name: &str, size: u64) -> Option<FsNode> {
    Some(FsNode::File { name: name.into(), path: format!(r"C:\d\{name}"), size_bytes: size })
}

#[test]
fn scan_orders_children_and_counts() {
    let tree = FsNode::Directory {
        name: r"C:\".into(),
        path: r"C:\".into(),
        listing: Some(vec![
            file("a", 5),
            Some(FsNode::Symlink),
            None,
            file("b", 9),
            Some(FsNode::Directory { name: "d".into(), path: r"C:\d".into(), listing: None }),
        ]),
    };
    let result = scan(true, &tree).unwrap();
    assert_eq!(result.root.size_bytes, 14);
    assert_eq!(result.root.kind, "directory");
    assert_eq!(result.root.children.iter().map(|c| c.name.as_str()).collect::<Vec<_>>(), vec!["b", "a", "d"]);
    assert_eq!(result.file_count, 2);
    assert_eq!(result.directory_count, 2);
    assert_eq!(result.skipped_count, 3);
}

#[test]
fn many_children_are_aggregated() {
    let items: Vec<_> = (0..165u64).map(|i| file(&format!("f{i}"), i + 1)).collect();
    let tree = FsNode::Directory { name: "big".into(), path: r"C:\big".into(), listing: Some(items) };
    let mut stats = ScanStats { files: 0, directories: 0, skipped: 0 };
    let entry = scan_entry(&tree, 0, &mut stats).unwrap();
    assert_eq!(entry.children.len(), 161);
    let last = entry.children.last().unwrap();
    assert_eq!(last.kind, "aggregate");
    assert_eq!(last.name, "其他 5 个项目");
    assert_eq!(last.size_bytes, 1 + 2 + 3 + 4 + 5);
    assert_eq!(entry.size_bytes, (1..=165u64).sum::<u64>());
    assert_eq!(stats.files, 165);
}

#[test]
fn depth_limit_and_bad_roots() {
    let mut stats = ScanStats { files: 0, directories: 0, skipped: 0 };
    let deep = FsNode::Directory { name: "x".into(), path: "x".into(), listing: Some(vec![]) };
    assert!(scan_entry(&deep, 64, &mut stats).is_none());
    assert_eq!(stats.skipped, 1);
    assert_eq!(scan(false, &deep).unwrap_err(), "请选择一个存在的磁盘根目录");
    assert_eq!(scan(true, &FsNode::Unreadable).unwrap_err(), "无法读取该磁盘");
}

#[test]
fn display_names() {
    assert_eq!(display_name(r"C:\Users\me\file.txt"), "file.txt");
    assert_eq!(display_name(r"C:\Users\me\"), "me");
    assert_eq!(display_name(r"C:\"), r"C:\");
    assert_eq!(display_name("a/b/.."), "a/b/..");
}
