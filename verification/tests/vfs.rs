use elusive::path::VfsPath;
use elusive::vfs::{major, minor, Entry, Vfs, VfsError};

fn p(s: &str) -> VfsPath {
    VfsPath::from_bytes(s.as_bytes())
}

#[test]
fn vfs_create_dir_all_makes_ancestors() {
    let mut vfs = Vfs::new();
    vfs.create_dir_all(&p("/a/b/c")).unwrap();
    assert!(vfs.contains_dir(&p("/a")));
    assert!(vfs.contains_dir(&p("/a/b")));
    assert!(vfs.contains_dir(&p("/a/b/c")));
    // a second time changes nothing
    vfs.create_dir_all(&p("/a/b/c")).unwrap();
    assert_eq!(vfs.into_entries().len(), 4);
}

#[test]
fn vfs_create_dir_without_parent() {
    let mut vfs = Vfs::new();
    match vfs.create_dir(&p("/a/b")) {
        Err(VfsError::NoSuchFileOrDirectory(q)) => assert_eq!(q.to_bytes(), b"/a".to_vec()),
        other => panic!("unexpected: {:?}", other),
    }
}

#[test]
fn vfs_create_dir_under_file() {
    let mut vfs = Vfs::new();
    vfs.create_entry(&p("/f"), Entry::file(vec![1])).unwrap();
    match vfs.create_dir(&p("/f/x")) {
        Err(VfsError::NotADirectory(q)) => assert_eq!(q.to_bytes(), b"/f".to_vec()),
        other => panic!("unexpected: {:?}", other),
    }
}

#[test]
fn vfs_files_are_never_replaced() {
    let mut vfs = Vfs::new();
    vfs.create_entry(&p("/f"), Entry::file(vec![1])).unwrap();
    match vfs.create_entry(&p("/f"), Entry::file(vec![2])) {
        Err(VfsError::FileExists(q)) => assert_eq!(q.to_bytes(), b"/f".to_vec()),
        other => panic!("unexpected: {:?}", other),
    }
    assert!(matches!(vfs.create_dir(&p("/f")), Err(VfsError::FileExists(_))));
    assert_eq!(vfs.get(&p("/f")).unwrap().data, Some(vec![1]));
}

#[test]
fn vfs_entry_read_back() {
    let mut vfs = Vfs::new();
    vfs.create_entry(&p("/l"), Entry::symlink(&p("usr/lib"))).unwrap();
    let e = vfs.get(&p("/l")).unwrap();
    assert!(e.is_symlink());
    assert_eq!(e.data, Some(b"usr/lib".to_vec()));
}

#[test]
fn vfs_entries_sorted_by_path() {
    let mut vfs = Vfs::new();
    vfs.create_dir(&p("/b")).unwrap();
    vfs.create_dir(&p("/a")).unwrap();
    vfs.create_dir(&p("/a/z")).unwrap();
    let paths: Vec<Vec<u8>> = vfs.into_entries().into_iter().map(|(q, _)| q.to_bytes()).collect();
    assert_eq!(paths, vec![b"/".to_vec(), b"/a".to_vec(), b"/a/z".to_vec(), b"/b".to_vec()]);
}

#[test]
fn vfs_major_minor() {
    // makedev(8, 1)
    assert_eq!(major(0x801), 8);
    assert_eq!(minor(0x801), 1);
    // makedev(259, 65536): large numbers split across both halves
    let dev: u64 = ((259u64 & 0xfffff000) << 32) | ((259u64 & 0xfff) << 8)
        | ((65536u64 & 0xffffff00) << 12) | (65536u64 & 0xff);
    assert_eq!(major(dev), 259);
    assert_eq!(minor(dev), 65536);
}

#[test]
fn vfs_entry_from_host() {
    let e = Entry::from_host(0o100755, 42, 0x801, Some(vec![9]));
    assert_eq!(e.metadata.mode, 0o100755);
    assert_eq!(e.metadata.mtime, 42);
    assert_eq!(e.metadata.rdev_major, 8);
    assert_eq!(e.metadata.rdev_minor, 1);
    assert_eq!(e.data, Some(vec![9]));
}
