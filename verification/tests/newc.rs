use elusive::newc::{pad_buf, Archive, NewcSerializer};
use elusive::path::VfsPath;
use elusive::vfs::Entry;

fn header(ino: u32, mode: u32, size: u32, namesize: u32) -> String {
    let fields = [ino, mode, 0, 0, 0, 0, size, 0, 0, 0, 0, namesize, 0];
    let mut s = String::from("070701");
    for f in fields {
        s.push_str(&format!("{:08x}", f));
    }
    s
}

#[test]
fn test_serialize() {
    let mut serializer = NewcSerializer::new();

    let entry = Entry::file(b"data".to_vec());
    serializer.serialize_entry(&VfsPath::from_bytes(b"/test"), entry).unwrap();

    let buf = serializer.into_inner();
    assert!(!buf.is_empty());
}

#[test]
fn newc_entry_bytes_exact() {
    let mut serializer = NewcSerializer::new();
    serializer
        .serialize_entry(&VfsPath::from_bytes(b"/test"), Entry::file(b"data".to_vec()))
        .unwrap();
    let buf = serializer.into_inner();

    let mut expected = header(1337, 0o100644, 4, 5).into_bytes();
    expected.extend_from_slice(b"test\0");
    expected.push(0);
    expected.extend_from_slice(b"data");
    assert_eq!(buf, expected);
    assert_eq!(buf.len() % 4, 0);
}

#[test]
fn newc_root_is_skipped() {
    let mut serializer = NewcSerializer::new();
    serializer.serialize_entry(&VfsPath::root(), Entry::directory()).unwrap();
    assert!(serializer.into_inner().is_empty());
}

#[test]
fn newc_name_with_nul_is_refused() {
    let mut serializer = NewcSerializer::new();
    let path = VfsPath::from_bytes(b"/a\0b");
    assert!(serializer.serialize_entry(&path, Entry::directory()).is_err());
}

#[test]
fn newc_pad_buf() {
    let mut buf = vec![1u8, 2, 3, 4, 5];
    pad_buf(&mut buf);
    assert_eq!(buf, vec![1, 2, 3, 4, 5, 0, 0, 0]);
    let mut aligned = vec![1u8, 2, 3, 4];
    pad_buf(&mut aligned);
    assert_eq!(aligned, vec![1, 2, 3, 4]);
}

#[test]
fn newc_archive_sorted_then_trailer() {
    let archive = Archive::from_entries(vec![
        (VfsPath::from_bytes(b"/b"), Entry::file(b"x".to_vec())),
        (VfsPath::from_bytes(b"/a"), Entry::directory()),
    ]);
    let bytes = archive.serialize().unwrap();
    assert_eq!(bytes.len() % 4, 0);

    let mut expected = header(1337, 0o040755, 0, 2).into_bytes();
    expected.extend_from_slice(b"a\0");
    expected.extend_from_slice(&header(1338, 0o100644, 1, 2).into_bytes());
    expected.extend_from_slice(b"b\0");
    expected.extend_from_slice(b"x\0\0\0");
    expected.extend_from_slice(&header(1339, 0o040755, 0, 11).into_bytes());
    expected.extend_from_slice(b"TRAILER!!!\0");
    expected.extend_from_slice(&[0, 0, 0]);
    assert_eq!(bytes, expected);
}

#[test]
fn newc_header_is_110_hex_bytes() {
    let bytes = Archive::from_entries(vec![(VfsPath::from_bytes(b"/etc"), Entry::directory())])
        .serialize()
        .unwrap();
    assert_eq!(&bytes[0..6], b"070701");
    assert!(bytes[6..110].iter().all(|c| c.is_ascii_digit() || (b'a'..=b'f').contains(c)));
    // the name follows the header right away
    assert_eq!(&bytes[110..114], b"etc\0");
}

#[test]
fn newc_order_of_entries_does_not_matter() {
    let e = |p: &str, d: Option<&[u8]>| {
        (VfsPath::from_bytes(p.as_bytes()), match d { Some(d) => Entry::file(d.to_vec()), None => Entry::directory() })
    };
    let a = vec![e("/b", Some(b"bee")), e("/a", None), e("/a/x", Some(b"ex"))];
    let b = vec![e("/a/x", Some(b"ex")), e("/b", Some(b"bee")), e("/a", None)];
    assert_eq!(Archive::from_entries(a).serialize().unwrap(), Archive::from_entries(b).serialize().unwrap());
}

#[test]
fn newc_nul_free_names_serialize() {
    let ok = Archive::from_entries(vec![(VfsPath::from_bytes(b"/usr/bin/sh"), Entry::file(Vec::new()))]);
    assert!(ok.serialize().is_ok());
}
