use mvcore::fsmodel::FsEntry;
use mvcore::fsmodel::FsError;
use mvcore::fsmodel::ModelFs;
use mvcore::fsmodel::PathExt;

fn s(x: &str) -> String {
    x.to_string()
}

fn file(bytes: &[u8], device: u64) -> FsEntry {
    FsEntry { is_dir: false, data: bytes.to_vec(), device, locked: false }
}

fn dir(device: u64) -> FsEntry {
    FsEntry { is_dir: true, data: Vec::new(), device, locked: false }
}

fn locked_file(bytes: &[u8], device: u64) -> FsEntry {
    FsEntry { is_dir: false, data: bytes.to_vec(), device, locked: true }
}

#[test]
fn entries_are_stored_and_replaced() {
    let mut fs = ModelFs::new();
    assert!(!fs.contains(&s("a")));
    fs.set_entry(s("a"), file(b"one", 0));
    assert!(fs.contains(&s("a")));
    assert_eq!(fs.data_at(&s("a")), Some(b"one".to_vec()));
    fs.set_entry(s("a"), file(b"two", 0));
    assert_eq!(fs.data_at(&s("a")), Some(b"two".to_vec()));
    assert!(!fs.is_dir(&s("a")));
    fs.set_entry(s("d"), dir(0));
    assert!(fs.is_dir(&s("d")));
}

#[test]
fn rename_moves_an_entry() {
    let mut fs = ModelFs::new();
    fs.set_entry(s("a"), file(b"x", 0));
    assert_eq!(fs.rename(&s("a"), &s("b")), Ok(()));
    assert!(!fs.contains(&s("a")));
    assert_eq!(fs.data_at(&s("b")), Some(b"x".to_vec()));
}

#[test]
fn rename_reports_missing_source() {
    let mut fs = ModelFs::new();
    assert_eq!(fs.rename(&s("a"), &s("b")), Err(FsError::NotFound));
}

#[test]
fn rename_reports_cross_device() {
    let mut fs = ModelFs::new();
    fs.set_entry(s("a"), file(b"x", 0));
    fs.set_entry(s("dest"), dir(1));
    assert_eq!(fs.rename(&s("a"), &s("dest/a")), Err(FsError::CrossDevice));
    // nothing moved
    assert_eq!(fs.data_at(&s("a")), Some(b"x".to_vec()));
    assert!(!fs.contains(&s("dest/a")));
}

#[test]
fn rename_refuses_locked_entries() {
    let mut fs = ModelFs::new();
    fs.set_entry(s("a"), locked_file(b"x", 0));
    assert_eq!(fs.rename(&s("a"), &s("b")), Err(FsError::Denied));
    fs.set_entry(s("c"), file(b"y", 0));
    fs.set_entry(s("d"), locked_file(b"z", 0));
    assert_eq!(fs.rename(&s("c"), &s("d")), Err(FsError::Denied));
}

#[test]
fn copy_duplicates_bytes() {
    let mut fs = ModelFs::new();
    fs.set_entry(s("a"), file(b"abc", 0));
    assert_eq!(fs.copy_file(&s("a"), &s("b")), Ok(()));
    assert_eq!(fs.data_at(&s("a")), Some(b"abc".to_vec()));
    assert_eq!(fs.data_at(&s("b")), Some(b"abc".to_vec()));
}

#[test]
fn copy_refuses_directories() {
    let mut fs = ModelFs::new();
    fs.set_entry(s("d"), dir(0));
    fs.set_entry(s("a"), file(b"x", 0));
    assert_eq!(fs.copy_file(&s("d"), &s("b")), Err(FsError::IsDirectory));
    assert_eq!(fs.copy_file(&s("a"), &s("d")), Err(FsError::IsDirectory));
    assert_eq!(fs.copy_file(&s("missing"), &s("b")), Err(FsError::NotFound));
}

#[test]
fn remove_file_cases() {
    let mut fs = ModelFs::new();
    fs.set_entry(s("a"), file(b"x", 0));
    fs.set_entry(s("d"), dir(0));
    fs.set_entry(s("l"), locked_file(b"y", 0));
    assert_eq!(fs.remove_file(&s("a")), Ok(()));
    assert!(!fs.contains(&s("a")));
    assert_eq!(fs.remove_file(&s("a")), Err(FsError::NotFound));
    assert_eq!(fs.remove_file(&s("d")), Err(FsError::IsDirectory));
    assert_eq!(fs.remove_file(&s("l")), Err(FsError::Denied));
}

#[test]
fn lists_directory_children() {
    let mut fs = ModelFs::new();
    fs.set_entry(s("dest"), dir(0));
    fs.set_entry(s("dest/a"), file(b"1", 0));
    fs.set_entry(s("dest/b"), file(b"2", 0));
    fs.set_entry(s("dest/sub/c"), file(b"3", 0));
    fs.set_entry(s("other"), file(b"4", 0));
    let mut names = fs.dir_entry_names(&s("dest"));
    names.sort();
    assert_eq!(names, vec![s("a"), s("b")]);
    let top = fs.dir_entry_names(&s(""));
    assert_eq!(top.len(), 2); // "dest" and "other"
}

#[test]
fn path_views_tell_emptiness() {
    let mut fs = ModelFs::new();
    fs.set_entry(s("empty"), dir(0));
    fs.set_entry(s("full"), dir(0));
    fs.set_entry(s("full/x"), file(b"1", 0));
    fs.set_entry(s("plain"), file(b"1", 0));
    assert!(fs.path_view(&s("empty")).is_empty());
    assert!(!fs.path_view(&s("full")).is_empty());
    assert!(!fs.path_view(&s("plain")).is_empty());
    assert!(!fs.path_view(&s("missing")).is_empty());
}
