use elusive::order::Cmp;
use elusive::path::{compare, VfsPath};

fn p(s: &str) -> VfsPath {
    VfsPath::from_bytes(s.as_bytes())
}

#[test]
fn path_parse_normalizes() {
    assert_eq!(p("/usr//lib/./x/").to_bytes(), b"/usr/lib/x".to_vec());
    assert_eq!(p("./a/b").to_bytes(), b"./a/b".to_vec());
    assert_eq!(p("a/../b").to_bytes(), b"a/../b".to_vec());
    assert!(p("/a").is_absolute());
    assert!(!p("a").is_absolute());
}

#[test]
fn path_join_and_parent() {
    assert_eq!(p("/usr/lib").join(&p("libc.so.6")).to_bytes(), b"/usr/lib/libc.so.6".to_vec());
    assert_eq!(p("/usr/lib").join(&p("/etc")).to_bytes(), b"/etc".to_vec());
    assert_eq!(p("/usr/lib").parent().unwrap().to_bytes(), b"/usr".to_vec());
    assert!(VfsPath::root().parent().is_none());
}

#[test]
fn path_file_name_and_extension() {
    assert_eq!(p("/a/b.tar.gz").file_name().unwrap(), &b"b.tar.gz".to_vec());
    assert_eq!(p("/a/b.tar.gz").extension(), Some(b"gz".to_vec()));
    assert_eq!(p("/a/.hidden").extension(), None);
    assert_eq!(p("/a/noext").extension(), None);
    assert!(p("/a/..").file_name().is_none());
}

#[test]
fn path_set_extension_and_file_name() {
    let mut q = p("/lib/modules/x/foo.ko.zst");
    q.set_file_name(&p("bar"));
    q.set_extension(b"ko");
    assert_eq!(q.to_bytes(), b"/lib/modules/x/bar.ko".to_vec());
}

#[test]
fn path_order() {
    assert_eq!(compare(&p("/a"), &p("/b")), Cmp::Less);
    assert_eq!(compare(&p("/a/b"), &p("/a")), Cmp::Greater);
    assert_eq!(compare(&p("/a"), &p("/a/")), Cmp::Equal);
    assert_eq!(compare(&p("/a/b"), &p("/a.b")), Cmp::Less);
}
