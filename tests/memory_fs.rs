use memvfs::harness::{fuzz, run_actions, Action};
use memvfs::memory::{FileSystem, FsError, MemoryFs};
use memvfs::path::is_valid_path;

#[test]
fn fresh_fs_holds_only_root() {
    let fs = MemoryFs::new();
    assert_eq!(fs.path_exists(""), Ok(true));
    assert_eq!(fs.path_exists("/a"), Ok(false));
    assert_eq!(fs.path_exists("/"), Ok(false));
}

#[test]
fn create_then_open_gives_empty_file() {
    let mut fs = MemoryFs::new();
    let h = fs.create_file("/a").unwrap();
    assert_eq!(h.path(), b"/a");
    let h2 = fs.open_file("/a").unwrap();
    assert_eq!(fs.read(&h2), Ok(Vec::new()));
    assert_eq!(fs.path_exists("/a"), Ok(true));
}

#[test]
fn create_twice_fails_and_keeps_content() {
    let mut fs = MemoryFs::new();
    let h = fs.create_file("/a").unwrap();
    assert_eq!(fs.write(&h, b"xyz"), Ok(()));
    assert_eq!(fs.create_file("/a").err(), Some(FsError::AlreadyExists));
    assert_eq!(fs.read(&h), Ok(b"xyz".to_vec()));
}

#[test]
fn create_errors() {
    let mut fs = MemoryFs::new();
    assert_eq!(fs.create_file("").err(), Some(FsError::AlreadyExists));
    assert_eq!(fs.create_file("a").err(), Some(FsError::InvalidPath));
    assert_eq!(fs.create_file("/a/").err(), Some(FsError::InvalidPath));
    assert_eq!(fs.create_file("/a//b").err(), Some(FsError::InvalidPath));
    assert_eq!(fs.create_file("/..").err(), Some(FsError::InvalidPath));
    assert_eq!(fs.create_file("/d/f").err(), Some(FsError::NotFound));
    fs.create_file("/f").unwrap();
    assert_eq!(fs.create_file("/f/g").err(), Some(FsError::NotADirectory));
    assert_eq!(fs.create_dir("/f"), Err(FsError::AlreadyExists));
    assert_eq!(fs.path_exists("/f/g"), Ok(false));
}

#[test]
fn nested_directories() {
    let mut fs = MemoryFs::new();
    assert_eq!(fs.create_dir("/d"), Ok(()));
    assert_eq!(fs.create_dir("/d/e"), Ok(()));
    fs.create_file("/d/e/f").unwrap();
    assert_eq!(fs.path_exists("/d/e/f"), Ok(true));
    assert_eq!(fs.open_file("/d/e").err(), Some(FsError::IsADirectory));
    assert_eq!(fs.remove_file("/d/e/f"), Ok(()));
    assert_eq!(fs.path_exists("/d/e/f"), Ok(false));
    assert_eq!(fs.path_exists("/d/e"), Ok(true));
    assert_eq!(fs.path_exists("/d"), Ok(true));
}

#[test]
fn non_ascii_names() {
    let mut fs = MemoryFs::new();
    fs.create_file("/\u{e9}t\u{e9}").unwrap();
    assert_eq!(fs.path_exists("/\u{e9}t\u{e9}"), Ok(true));
    assert_eq!(fs.path_exists("/ete"), Ok(false));
}

#[test]
fn remove_non_file_fails_and_changes_nothing() {
    let mut fs = MemoryFs::new();
    fs.create_dir("/d").unwrap();
    let h = fs.create_file("/f").unwrap();
    fs.write(&h, b"k").unwrap();
    assert_eq!(fs.remove_file("/g"), Err(FsError::NotFound));
    assert_eq!(fs.remove_file("/d"), Err(FsError::IsADirectory));
    assert_eq!(fs.remove_file(""), Err(FsError::IsADirectory));
    assert_eq!(fs.remove_file("bad//"), Err(FsError::NotFound));
    assert_eq!(fs.path_exists("/d"), Ok(true));
    assert_eq!(fs.read(&h), Ok(b"k".to_vec()));
}

#[test]
fn removed_file_handle_is_stale() {
    let mut fs = MemoryFs::new();
    let h = fs.create_file("/f").unwrap();
    fs.remove_file("/f").unwrap();
    assert_eq!(fs.read(&h), Err(FsError::NotFound));
    assert_eq!(fs.write(&h, b"x"), Err(FsError::NotFound));
    assert_eq!(fs.open_file("/f").err(), Some(FsError::NotFound));
}

#[test]
fn copy_is_independent() {
    let mut fs = MemoryFs::new();
    let a = fs.create_file("/a").unwrap();
    fs.write(&a, b"hello").unwrap();
    assert_eq!(fs.copy_file("/a", "/b"), Ok(()));
    assert_eq!(fs.path_exists("/a"), Ok(true));
    assert_eq!(fs.path_exists("/b"), Ok(true));
    let b = fs.open_file("/b").unwrap();
    assert_eq!(fs.read(&b), Ok(b"hello".to_vec()));
    fs.write(&b, b"bye").unwrap();
    assert_eq!(fs.read(&a), Ok(b"hello".to_vec()));
    fs.write(&a, b"again").unwrap();
    assert_eq!(fs.read(&b), Ok(b"bye".to_vec()));
}

#[test]
fn copy_errors() {
    let mut fs = MemoryFs::new();
    fs.create_dir("/d").unwrap();
    fs.create_file("/a").unwrap();
    assert_eq!(fs.copy_file("/x", "/b"), Err(FsError::NotFound));
    assert_eq!(fs.copy_file("/d", "/b"), Err(FsError::NotFound));
    assert_eq!(fs.copy_file("/a", "/d"), Err(FsError::AlreadyExists));
    assert_eq!(fs.copy_file("/a", "/a"), Err(FsError::AlreadyExists));
    assert_eq!(fs.copy_file("/a", "/x/b"), Err(FsError::NotFound));
    assert_eq!(fs.copy_file("/a", "/a/b"), Err(FsError::NotADirectory));
    assert_eq!(fs.copy_file("/a", "b"), Err(FsError::InvalidPath));
    assert_eq!(fs.path_exists("/b"), Ok(false));
}

#[test]
fn move_relocates_file() {
    let mut fs = MemoryFs::new();
    let a = fs.create_file("/a").unwrap();
    fs.write(&a, b"data").unwrap();
    fs.create_dir("/d").unwrap();
    assert_eq!(fs.move_file("/a", "/d/b"), Ok(()));
    assert_eq!(fs.path_exists("/a"), Ok(false));
    assert_eq!(fs.path_exists("/d/b"), Ok(true));
    let b = fs.open_file("/d/b").unwrap();
    assert_eq!(fs.read(&b), Ok(b"data".to_vec()));
}

#[test]
fn failed_move_changes_nothing() {
    let mut fs = MemoryFs::new();
    fs.create_file("/a").unwrap();
    fs.create_file("/b").unwrap();
    assert_eq!(fs.move_file("/a", "/b"), Err(FsError::AlreadyExists));
    assert_eq!(fs.move_file("/a", "/z/c"), Err(FsError::NotFound));
    assert_eq!(fs.path_exists("/a"), Ok(true));
    assert_eq!(fs.path_exists("/b"), Ok(true));
}

#[test]
fn exists_is_repeatable() {
    let mut fs = MemoryFs::new();
    fs.create_file("/a").unwrap();
    for _ in 0..5 {
        assert_eq!(fs.path_exists("/a"), Ok(true));
        assert_eq!(fs.path_exists("/b"), Ok(false));
    }
}

#[test]
fn path_validity() {
    assert!(is_valid_path(""));
    assert!(is_valid_path("/a"));
    assert!(is_valid_path("/a/b.c/.d/..e"));
    assert!(!is_valid_path("/"));
    assert!(!is_valid_path("a"));
    assert!(!is_valid_path("/a/"));
    assert!(!is_valid_path("//a"));
    assert!(!is_valid_path("/a/./b"));
    assert!(!is_valid_path("/a/.."));
}

#[test]
fn fuzz_runs_a_session() {
    let actions = vec![
        Action::CreateFile("/a".to_string()),
        Action::Exists("/a".to_string()),
        Action::OpenFile("/a".to_string()),
        Action::CopyFile("/a".to_string(), "/b".to_string()),
        Action::MoveFile("/b".to_string(), "/c".to_string()),
        Action::Exists("/b".to_string()),
        Action::Exists("".to_string()),
        Action::RemoveFile("/a".to_string()),
        Action::RemoveFile("/nothing".to_string()),
        Action::Exists("/a".to_string()),
        Action::OpenFile("/c".to_string()),
    ];
    assert_eq!(fuzz(actions), Ok(()));
}

#[test]
fn fuzz_stops_at_failed_create() {
    let actions = vec![
        Action::CreateFile("/a".to_string()),
        Action::CreateFile("/a".to_string()),
        Action::CreateFile("/b".to_string()),
    ];
    assert_eq!(fuzz(actions), Err(FsError::AlreadyExists));
    let actions = vec![Action::CopyFile("/x".to_string(), "/y".to_string())];
    assert_eq!(fuzz(actions), Err(FsError::NotFound));
    let actions = vec![Action::MoveFile("".to_string(), "/y".to_string())];
    assert_eq!(fuzz(actions), Err(FsError::NotFound));
}

#[test]
fn run_actions_keeps_record() {
    let mut fs = MemoryFs::new();
    let mut files: Vec<Vec<u8>> = Vec::new();
    let actions = vec![
        Action::CreateFile("/a".to_string()),
        Action::CopyFile("/a".to_string(), "/b".to_string()),
        Action::MoveFile("/a".to_string(), "/c".to_string()),
    ];
    assert_eq!(run_actions(&mut fs, &mut files, &actions), Ok(()));
    files.sort();
    assert_eq!(files, vec![b"/b".to_vec(), b"/c".to_vec()]);
    assert_eq!(fs.path_exists("/a"), Ok(false));
}

fn s(p: &str) -> String {
    p.to_string()
}

#[test]
fn fuzz_create_exists_remove() {
    let actions = vec![
        Action::CreateFile(s("/a")),
        Action::Exists(s("/a")),
        Action::Exists(s("/b")),
        Action::RemoveFile(s("/a")),
        Action::Exists(s("/a")),
    ];
    assert_eq!(fuzz(actions), Ok(()));
}

#[test]
fn fuzz_create_then_open() {
    let actions = vec![Action::CreateFile(s("/f")), Action::OpenFile(s("/f"))];
    assert_eq!(fuzz(actions), Ok(()));
}

#[test]
fn fuzz_failed_removes_change_nothing() {
    let actions = vec![
        Action::CreateFile(s("/a")),
        Action::RemoveFile(s("/b")),
        Action::RemoveFile(s("/b")),
        Action::Exists(s("/a")),
        Action::OpenFile(s("/a")),
        Action::Exists(s("/b")),
    ];
    assert_eq!(fuzz(actions), Ok(()));
}

#[test]
fn fuzz_copy_keeps_both() {
    let actions = vec![
        Action::CreateFile(s("/a")),
        Action::CopyFile(s("/a"), s("/b")),
        Action::Exists(s("/a")),
        Action::Exists(s("/b")),
        Action::OpenFile(s("/a")),
        Action::OpenFile(s("/b")),
    ];
    assert_eq!(fuzz(actions), Ok(()));
}

#[test]
fn fuzz_move_leaves_only_target() {
    let mut fs = MemoryFs::new();
    let mut files: Vec<Vec<u8>> = Vec::new();
    let actions = vec![
        Action::CreateFile(s("/a")),
        Action::MoveFile(s("/a"), s("/b")),
        Action::Exists(s("/b")),
        Action::Exists(s("/a")),
        Action::OpenFile(s("/b")),
    ];
    assert_eq!(run_actions(&mut fs, &mut files, &actions), Ok(()));
    assert_eq!(fs.path_exists("/a"), Ok(false));
    assert_eq!(fs.path_exists("/b"), Ok(true));
    assert_eq!(files, vec![b"/b".to_vec()]);
}

#[test]
fn fuzz_stops_and_keeps_state() {
    let mut fs = MemoryFs::new();
    let mut files: Vec<Vec<u8>> = Vec::new();
    let actions = vec![
        Action::CreateFile(s("/a")),
        Action::CreateFile(s("/a")),
        Action::CreateFile(s("/c")),
    ];
    assert_eq!(run_actions(&mut fs, &mut files, &actions), Err(FsError::AlreadyExists));
    assert_eq!(fs.path_exists("/a"), Ok(true));
    assert_eq!(fs.path_exists("/c"), Ok(false));
    assert_eq!(files, vec![b"/a".to_vec()]);
}

#[test]
fn fuzz_repeated_exists() {
    let once = vec![Action::CreateFile(s("/a")), Action::Exists(s("/a"))];
    let many = vec![
        Action::CreateFile(s("/a")),
        Action::Exists(s("/a")),
        Action::Exists(s("/a")),
        Action::Exists(s("/a")),
    ];
    assert_eq!(fuzz(once), fuzz(many));
}
