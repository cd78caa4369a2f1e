use mvcore::batch::mv;
use mvcore::batch::BatchReport;
use mvcore::fsmodel::FsEntry;
use mvcore::fsmodel::ModelFs;
use mvcore::options::BackupPolicy;
use mvcore::options::FailReason;
use mvcore::options::MoveOptions;
use mvcore::options::MvError;
use mvcore::options::SkipReason;
use mvcore::options::TransferOutcome;
use mvcore::options::UserDecision;

fn s(x: &str) -> String {
    x.to_string()
}

fn paths(xs: &[&str]) -> Vec<String> {
    xs.iter().map(|x| x.to_string()).collect()
}

fn file(bytes: &[u8], device: u64) -> FsEntry {
    FsEntry { is_dir: false, data: bytes.to_vec(), device, locked: false }
}

fn dir(device: u64) -> FsEntry {
    FsEntry { is_dir: true, data: Vec::new(), device, locked: false }
}

fn plain_opts() -> MoveOptions {
    MoveOptions {
        backup: BackupPolicy::NoBackup,
        force: false,
        interactive: false,
        no_clobber: false,
        strip_trailing_separators: false,
        verbose: false,
        debug: false,
    }
}

fn run(fs: &mut ModelFs, opts: &MoveOptions, ps: &[&str], ans: &[UserDecision]) -> BatchReport {
    mv(fs, opts, &paths(ps), &ans.to_vec()).unwrap()
}

#[test]
fn too_few_paths_is_an_error() {
    let mut fs = ModelFs::new();
    let opts = plain_opts();
    assert!(matches!(
        mv(&mut fs, &opts, &paths(&[]), &Vec::new()),
        Err(MvError::InsufficientArguments)
    ));
    assert!(matches!(
        mv(&mut fs, &opts, &paths(&["a"]), &Vec::new()),
        Err(MvError::InsufficientArguments)
    ));
}

#[test]
fn two_paths_is_a_single_rename() {
    let mut fs = ModelFs::new();
    fs.set_entry(s("a"), file(b"x", 0));
    let rep = run(&mut fs, &plain_opts(), &["a", "b"], &[]);
    assert!(!rep.too_many_for_rename);
    assert_eq!(rep.entries.len(), 1);
    assert_eq!(rep.entries[0].outcome, TransferOutcome::Renamed);
    assert!(!rep.entries[0].backup_attempted);
    assert_eq!(fs.data_at(&s("b")), Some(b"x".to_vec()));
    assert!(!fs.contains(&s("a")));
}

#[test]
fn extra_paths_for_rename_warn_but_rename_the_first() {
    let mut fs = ModelFs::new();
    fs.set_entry(s("a"), file(b"x", 0));
    fs.set_entry(s("c"), file(b"z", 0));
    let rep = run(&mut fs, &plain_opts(), &["a", "b", "c"], &[]);
    assert!(rep.too_many_for_rename);
    assert_eq!(rep.entries.len(), 1);
    assert_eq!(fs.data_at(&s("b")), Some(b"x".to_vec()));
    assert_eq!(fs.data_at(&s("c")), Some(b"z".to_vec()));
}

#[test]
fn fan_in_moves_every_source_in_order() {
    // paths ["a.txt", "b.txt", "dest/"] with an existing empty dest/
    let mut fs = ModelFs::new();
    fs.set_entry(s("a.txt"), file(b"aaa", 0));
    fs.set_entry(s("b.txt"), file(b"bbb", 0));
    fs.set_entry(s("dest/"), dir(0));
    let rep = run(&mut fs, &plain_opts(), &["a.txt", "b.txt", "dest/"], &[]);
    assert_eq!(rep.entries.len(), 2);
    assert_eq!(rep.entries[0].source, "a.txt");
    assert_eq!(rep.entries[0].dest, Some(s("dest/a.txt")));
    assert_eq!(rep.entries[0].outcome, TransferOutcome::Renamed);
    assert_eq!(rep.entries[1].source, "b.txt");
    assert_eq!(rep.entries[1].dest, Some(s("dest/b.txt")));
    assert_eq!(rep.entries[1].outcome, TransferOutcome::Renamed);
    assert_eq!(fs.data_at(&s("dest/a.txt")), Some(b"aaa".to_vec()));
    assert_eq!(fs.data_at(&s("dest/b.txt")), Some(b"bbb".to_vec()));
    assert!(!fs.contains(&s("a.txt")));
    assert!(!fs.contains(&s("b.txt")));
}

#[test]
fn trailing_separators_are_stripped_on_request() {
    let mut fs = ModelFs::new();
    fs.set_entry(s("a.txt"), file(b"aaa", 0));
    fs.set_entry(s("dest"), dir(0));
    let mut opts = plain_opts();
    opts.strip_trailing_separators = true;
    let rep = run(&mut fs, &opts, &["a.txt", "dest///"], &[]);
    assert_eq!(rep.entries[0].dest, Some(s("dest/a.txt")));
    assert_eq!(fs.data_at(&s("dest/a.txt")), Some(b"aaa".to_vec()));
}

#[test]
fn separator_only_source_is_an_invalid_path() {
    let mut fs = ModelFs::new();
    fs.set_entry(s("dest"), dir(0));
    fs.set_entry(s("b.txt"), file(b"bbb", 0));
    let mut opts = plain_opts();
    opts.strip_trailing_separators = true;
    let rep = run(&mut fs, &opts, &["///", "b.txt", "dest"], &[]);
    assert_eq!(rep.entries.len(), 2);
    assert_eq!(rep.entries[0].outcome, TransferOutcome::Failed(FailReason::InvalidPath));
    assert_eq!(rep.entries[0].dest, None);
    // the failure does not block the entry after it
    assert_eq!(rep.entries[1].outcome, TransferOutcome::Renamed);
    assert_eq!(fs.data_at(&s("dest/b.txt")), Some(b"bbb".to_vec()));
}

#[test]
fn no_clobber_leaves_everything_in_place() {
    let mut fs = ModelFs::new();
    fs.set_entry(s("a.txt"), file(b"new", 0));
    fs.set_entry(s("dest"), dir(0));
    fs.set_entry(s("dest/a.txt"), file(b"old", 0));
    let mut opts = plain_opts();
    opts.no_clobber = true;
    let rep = run(&mut fs, &opts, &["a.txt", "dest"], &[]);
    assert_eq!(rep.entries[0].outcome, TransferOutcome::Skipped(SkipReason::NoClobber));
    assert_eq!(fs.data_at(&s("a.txt")), Some(b"new".to_vec()));
    assert_eq!(fs.data_at(&s("dest/a.txt")), Some(b"old".to_vec()));
}

#[test]
fn interactive_decline_changes_nothing() {
    let mut fs = ModelFs::new();
    fs.set_entry(s("a.txt"), file(b"new", 0));
    fs.set_entry(s("dest"), dir(0));
    fs.set_entry(s("dest/a.txt"), file(b"old", 0));
    let mut opts = plain_opts();
    opts.interactive = true;
    let rep = run(&mut fs, &opts, &["a.txt", "dest"], &[UserDecision::No]);
    assert_eq!(rep.entries[0].outcome, TransferOutcome::Skipped(SkipReason::Declined));
    assert_eq!(fs.data_at(&s("a.txt")), Some(b"new".to_vec()));
    assert_eq!(fs.data_at(&s("dest/a.txt")), Some(b"old".to_vec()));
}

#[test]
fn interactive_without_an_answer_declines() {
    let mut fs = ModelFs::new();
    fs.set_entry(s("a.txt"), file(b"new", 0));
    fs.set_entry(s("dest"), dir(0));
    fs.set_entry(s("dest/a.txt"), file(b"old", 0));
    let mut opts = plain_opts();
    opts.interactive = true;
    let rep = run(&mut fs, &opts, &["a.txt", "dest"], &[]);
    assert_eq!(rep.entries[0].outcome, TransferOutcome::Skipped(SkipReason::Declined));
    assert_eq!(fs.data_at(&s("dest/a.txt")), Some(b"old".to_vec()));
}

#[test]
fn interactive_accept_overwrites() {
    let mut fs = ModelFs::new();
    fs.set_entry(s("a.txt"), file(b"new", 0));
    fs.set_entry(s("dest"), dir(0));
    fs.set_entry(s("dest/a.txt"), file(b"old", 0));
    let mut opts = plain_opts();
    opts.interactive = true;
    let rep = run(&mut fs, &opts, &["a.txt", "dest"], &[UserDecision::Yes]);
    assert_eq!(rep.entries[0].outcome, TransferOutcome::Renamed);
    assert_eq!(fs.data_at(&s("dest/a.txt")), Some(b"new".to_vec()));
    assert!(!fs.contains(&s("a.txt")));
}

#[test]
fn overwrite_with_numbered_backup() {
    let mut fs = ModelFs::new();
    fs.set_entry(s("a.txt"), file(b"new", 0));
    fs.set_entry(s("dest"), dir(0));
    fs.set_entry(s("dest/a.txt"), file(b"old", 0));
    fs.set_entry(s("dest/a.txt.~2~"), file(b"older", 0));
    let mut opts = plain_opts();
    opts.backup = BackupPolicy::Numbered;
    let rep = run(&mut fs, &opts, &["a.txt", "dest"], &[]);
    assert!(rep.entries[0].backup_attempted);
    assert_eq!(rep.entries[0].backup, Some(s("a.txt.~3~")));
    assert_eq!(rep.entries[0].outcome, TransferOutcome::Renamed);
    assert_eq!(fs.data_at(&s("dest/a.txt")), Some(b"new".to_vec()));
    assert_eq!(fs.data_at(&s("dest/a.txt.~3~")), Some(b"old".to_vec()));
    assert_eq!(fs.data_at(&s("dest/a.txt.~2~")), Some(b"older".to_vec()));
}

#[test]
fn existing_backup_family_stays_numbered() {
    let mut fs = ModelFs::new();
    fs.set_entry(s("dest"), dir(0));
    fs.set_entry(s("dest/a.txt"), file(b"v0", 0));
    let mut opts = plain_opts();
    opts.backup = BackupPolicy::Existing(s("~"));
    fs.set_entry(s("a.txt"), file(b"v1", 0));
    let rep = run(&mut fs, &opts, &["a.txt", "dest"], &[]);
    assert_eq!(rep.entries[0].backup, Some(s("a.txt~")));
    fs.set_entry(s("a.txt"), file(b"v2", 0));
    let rep = run(&mut fs, &opts, &["a.txt", "dest"], &[]);
    assert_eq!(rep.entries[0].backup, Some(s("a.txt.~1~")));
    fs.set_entry(s("a.txt"), file(b"v3", 0));
    let rep = run(&mut fs, &opts, &["a.txt", "dest"], &[]);
    assert_eq!(rep.entries[0].backup, Some(s("a.txt.~2~")));
    assert_eq!(fs.data_at(&s("dest/a.txt~")), Some(b"v0".to_vec()));
    assert_eq!(fs.data_at(&s("dest/a.txt.~1~")), Some(b"v1".to_vec()));
    assert_eq!(fs.data_at(&s("dest/a.txt.~2~")), Some(b"v2".to_vec()));
    assert_eq!(fs.data_at(&s("dest/a.txt")), Some(b"v3".to_vec()));
}

#[test]
fn cross_device_fan_in_falls_back_to_copy() {
    let mut fs = ModelFs::new();
    fs.set_entry(s("a.txt"), file(b"aaa", 0));
    fs.set_entry(s("b.txt"), file(b"bbb", 0));
    fs.set_entry(s("dest"), dir(1));
    let rep = run(&mut fs, &plain_opts(), &["a.txt", "b.txt", "dest"], &[]);
    assert_eq!(rep.entries[0].outcome, TransferOutcome::Copied);
    assert_eq!(rep.entries[1].outcome, TransferOutcome::Copied);
    assert_eq!(fs.data_at(&s("dest/a.txt")), Some(b"aaa".to_vec()));
    assert_eq!(fs.data_at(&s("dest/b.txt")), Some(b"bbb".to_vec()));
    assert!(!fs.contains(&s("a.txt")));
    assert!(!fs.contains(&s("b.txt")));
}

#[test]
fn single_rename_with_directory_source_keeps_it_whole() {
    // a rename onto a fresh name works for directories too
    let mut fs = ModelFs::new();
    fs.set_entry(s("d"), dir(0));
    let rep = run(&mut fs, &plain_opts(), &["d", "e"], &[]);
    assert_eq!(rep.entries[0].outcome, TransferOutcome::Renamed);
    assert!(fs.is_dir(&s("e")));
}
