use ssh_core::sftp::{
    download_label, file_entry, join_path, last_component_of, transfer_detail, upload_label, DeleteWalk,
    TransferCounter,
};

#[test]
fn sftp_join_paths() {
    assert_eq!(join_path("/", "etc"), "/etc");
    assert_eq!(join_path("/home/me", "notes.txt"), "/home/me/notes.txt");
    assert_eq!(join_path("/home/me///", "notes.txt"), "/home/me/notes.txt");
    assert_eq!(join_path("", "x"), "/x");
    assert_eq!(join_path("rel", "x"), "rel/x");
}

#[test]
fn sftp_transfer_labels() {
    assert_eq!(download_label("/var/log/syslog"), "Download syslog");
    assert_eq!(upload_label("/tmp/upload-src.bin"), "Upload upload-src.bin");
    assert_eq!(upload_label("plain"), "Upload plain");
    assert_eq!(download_label("/srv/dir/"), "Download ");
    assert_eq!(last_component_of("a/b/c"), "c");
    assert_eq!(transfer_detail(307200, "/tmp/x"), "307200 bytes → /tmp/x");
    assert_eq!(transfer_detail(0, "d"), "0 bytes → d");
}

#[test]
fn sftp_entries_follow_symlinks() {
    let plain = file_entry("/root", "hello.txt".into(), false, 8, false, None, Some(5), "rw-r--r--".into());
    assert_eq!(plain.path, "/root/hello.txt");
    assert!(!plain.is_dir);
    assert_eq!(plain.size, 8);
    assert_eq!(plain.permissions.as_deref(), Some("rw-r--r--"));

    let link_to_dir = file_entry("/", "data".into(), false, 4, true, Some((true, 4096)), None, "rwx".into());
    assert_eq!(link_to_dir.path, "/data");
    assert!(link_to_dir.is_dir);
    assert!(link_to_dir.is_symlink);
    assert_eq!(link_to_dir.size, 4096);

    let broken = file_entry("/x", "dangling".into(), false, 9, true, None, None, "rwx".into());
    assert!(!broken.is_dir);
    assert_eq!(broken.size, 0);
}

#[test]
fn sftp_transfer_progress() {
    let mut c = TransferCounter::new(300 * 1024);
    assert_eq!(c.add(64 * 1024), Some((64 * 1024, 300 * 1024)));
    assert_eq!(c.add(236 * 1024), Some((300 * 1024, 300 * 1024)));
    let mut unknown = TransferCounter::new(0);
    assert_eq!(unknown.add(10), None);
    assert_eq!(unknown.done, 10);
}

#[test]
fn sftp_recursive_delete_order() {
    // tree/{a.txt, nested/{b.txt}}
    let mut walk = DeleteWalk::new("/r/tree".into());
    let mut files = Vec::new();
    let first = walk.next_dir().unwrap();
    assert_eq!(first, "/r/tree");
    assert_eq!(walk.entry(&first, "nested", true), None);
    files.push(walk.entry(&first, "a.txt", false).unwrap());
    let second = walk.next_dir().unwrap();
    assert_eq!(second, "/r/tree/nested");
    files.push(walk.entry(&second, "b.txt", false).unwrap());
    assert!(walk.next_dir().is_none());
    assert_eq!(files, vec!["/r/tree/a.txt", "/r/tree/nested/b.txt"]);
    assert_eq!(walk.removal_order(), vec!["/r/tree/nested", "/r/tree"]);
}

#[test]
fn sftp_transfer_progress_rises_to_total() {
    let chunks = [65536u64, 65536, 65536, 65536, 45056];
    let total: u64 = chunks.iter().sum();
    let mut c = TransferCounter::new(total);
    let mut last = 0u64;
    for n in chunks {
        let (done, t) = c.add(n).unwrap();
        assert!(done > last);
        assert!(done <= t);
        last = done;
    }
    assert_eq!(last, total);
}
