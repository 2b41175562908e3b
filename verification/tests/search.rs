use elusive::path::VfsPath;
use elusive::search::search_paths;

#[test]
fn search_first_existing() {
    let dirs = vec![VfsPath::from_bytes(b"/a"), VfsPath::from_bytes(b"/b"), VfsPath::from_bytes(b"/c")];
    let probe = |p: &VfsPath| p.to_bytes() != b"/a/x".to_vec();
    let found = search_paths(&VfsPath::from_bytes(b"x"), &dirs, &probe).unwrap();
    assert_eq!(found.to_bytes(), b"/b/x".to_vec());
    let none = |_: &VfsPath| false;
    assert!(search_paths(&VfsPath::from_bytes(b"x"), &dirs, &none).is_none());
}
