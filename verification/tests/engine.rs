use mvcore::engine::perform_backup;
use mvcore::engine::transfer_entry;
use mvcore::fsmodel::FsEntry;
use mvcore::fsmodel::ModelFs;
use mvcore::options::BackupPolicy;
use mvcore::options::FailReason;
use mvcore::options::TransferOutcome;

fn s(x: &str) -> String {
    x.to_string()
}

fn file(bytes: &[u8], device: u64) -> FsEntry {
    FsEntry { is_dir: false, data: bytes.to_vec(), device, locked: false }
}

fn dir(device: u64) -> FsEntry {
    FsEntry { is_dir: true, data: Vec::new(), device, locked: false }
}

fn locked_file(bytes: &[u8], device: u64) -> FsEntry {
    FsEntry { is_dir: false, data: bytes.to_vec(), device, locked: true }
}

#[test]
fn same_device_transfer_renames() {
    let mut fs = ModelFs::new();
    fs.set_entry(s("a"), file(b"x", 0));
    let r = transfer_entry(&mut fs, &s("a"), &s("b"), false);
    assert_eq!(r.outcome, TransferOutcome::Renamed);
    assert!(!r.cleanup_failed);
    assert!(!r.crossed);
    assert!(!fs.contains(&s("a")));
    assert_eq!(fs.data_at(&s("b")), Some(b"x".to_vec()));
}

#[test]
fn cross_device_transfer_copies_then_removes() {
    let mut fs = ModelFs::new();
    fs.set_entry(s("a"), file(b"payload", 0));
    fs.set_entry(s("dest"), dir(1));
    let r = transfer_entry(&mut fs, &s("a"), &s("dest/a"), false);
    assert_eq!(r.outcome, TransferOutcome::Copied);
    assert!(!r.cleanup_failed);
    assert!(r.crossed);
    assert!(!fs.contains(&s("a")));
    assert_eq!(fs.data_at(&s("dest/a")), Some(b"payload".to_vec()));
}

#[test]
fn skip_rename_goes_straight_to_copy() {
    let mut fs = ModelFs::new();
    fs.set_entry(s("a"), file(b"x", 0));
    let r = transfer_entry(&mut fs, &s("a"), &s("b"), true);
    assert_eq!(r.outcome, TransferOutcome::Copied);
    assert!(!r.crossed);
    assert_eq!(fs.data_at(&s("b")), Some(b"x".to_vec()));
    assert!(!fs.contains(&s("a")));
}

#[test]
fn other_rename_failure_has_no_fallback() {
    let mut fs = ModelFs::new();
    fs.set_entry(s("a"), locked_file(b"x", 0));
    let r = transfer_entry(&mut fs, &s("a"), &s("b"), false);
    assert_eq!(r.outcome, TransferOutcome::Failed(FailReason::RenameFailed));
    assert_eq!(fs.data_at(&s("a")), Some(b"x".to_vec()));
    assert!(!fs.contains(&s("b")));
}

#[test]
fn missing_source_fails_rename() {
    let mut fs = ModelFs::new();
    let r = transfer_entry(&mut fs, &s("a"), &s("b"), false);
    assert_eq!(r.outcome, TransferOutcome::Failed(FailReason::RenameFailed));
}

#[test]
fn copy_failure_leaves_source() {
    let mut fs = ModelFs::new();
    fs.set_entry(s("a"), file(b"x", 0));
    fs.set_entry(s("dest"), dir(1));
    fs.set_entry(s("dest/a"), dir(1));
    // cross-device, and the copy target is a directory: the copy fails
    let r = transfer_entry(&mut fs, &s("a"), &s("dest/a"), false);
    assert_eq!(r.outcome, TransferOutcome::Failed(FailReason::CopyFailed));
    assert_eq!(fs.data_at(&s("a")), Some(b"x".to_vec()));
}

#[test]
fn failed_removal_after_copy_is_reported() {
    let mut fs = ModelFs::new();
    fs.set_entry(s("a"), locked_file(b"x", 0));
    fs.set_entry(s("dest"), dir(1));
    // cross-device: the copy succeeds, the locked source cannot be removed
    let r = transfer_entry(&mut fs, &s("a"), &s("dest/a"), false);
    assert_eq!(r.outcome, TransferOutcome::Copied);
    assert!(r.cleanup_failed);
    assert_eq!(fs.data_at(&s("a")), Some(b"x".to_vec()));
    assert_eq!(fs.data_at(&s("dest/a")), Some(b"x".to_vec()));
}

#[test]
fn backup_simple_renames_aside() {
    let mut fs = ModelFs::new();
    fs.set_entry(s("d"), dir(0));
    fs.set_entry(s("d/a"), file(b"old", 0));
    let r = perform_backup(&mut fs, &s("d/a"), &BackupPolicy::Simple(s("~")));
    assert_eq!(r, Some(s("a~")));
    assert!(!fs.contains(&s("d/a")));
    assert_eq!(fs.data_at(&s("d/a~")), Some(b"old".to_vec()));
}

#[test]
fn backup_numbered_takes_next_number() {
    let mut fs = ModelFs::new();
    fs.set_entry(s("d"), dir(0));
    fs.set_entry(s("d/a"), file(b"old", 0));
    fs.set_entry(s("d/a.~3~"), file(b"ancient", 0));
    let r = perform_backup(&mut fs, &s("d/a"), &BackupPolicy::Numbered);
    assert_eq!(r, Some(s("a.~4~")));
    assert_eq!(fs.data_at(&s("d/a.~4~")), Some(b"old".to_vec()));
    assert_eq!(fs.data_at(&s("d/a.~3~")), Some(b"ancient".to_vec()));
    assert!(!fs.contains(&s("d/a")));
}

#[test]
fn backup_existing_behaves_as_simple_then_escalates() {
    let mut fs = ModelFs::new();
    fs.set_entry(s("d"), dir(0));
    fs.set_entry(s("d/a"), file(b"v1", 0));
    let r = perform_backup(&mut fs, &s("d/a"), &BackupPolicy::Existing(s("~")));
    assert_eq!(r, Some(s("a~")));
    // the next round sees the plain-suffix backup and escalates to numbered
    fs.set_entry(s("d/a"), file(b"v2", 0));
    let r = perform_backup(&mut fs, &s("d/a"), &BackupPolicy::Existing(s("~")));
    assert_eq!(r, Some(s("a.~1~")));
    // and from then on every backup is numbered
    fs.set_entry(s("d/a"), file(b"v3", 0));
    let r = perform_backup(&mut fs, &s("d/a"), &BackupPolicy::Existing(s("~")));
    assert_eq!(r, Some(s("a.~2~")));
    assert_eq!(fs.data_at(&s("d/a~")), Some(b"v1".to_vec()));
    assert_eq!(fs.data_at(&s("d/a.~1~")), Some(b"v2".to_vec()));
    assert_eq!(fs.data_at(&s("d/a.~2~")), Some(b"v3".to_vec()));
}

#[test]
fn directories_are_not_backed_up() {
    let mut fs = ModelFs::new();
    fs.set_entry(s("d"), dir(0));
    let r = perform_backup(&mut fs, &s("d"), &BackupPolicy::Numbered);
    assert_eq!(r, None);
    assert!(fs.is_dir(&s("d")));
}

#[test]
fn no_backup_policy_does_nothing() {
    let mut fs = ModelFs::new();
    fs.set_entry(s("a"), file(b"x", 0));
    let r = perform_backup(&mut fs, &s("a"), &BackupPolicy::NoBackup);
    assert_eq!(r, None);
    assert_eq!(fs.data_at(&s("a")), Some(b"x".to_vec()));
}
