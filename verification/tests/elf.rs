use elusive::elf::{scan_dynamic_entries, string_table_get, Elf, ElfError};
use elusive::path::VfsPath;

fn host_exists(p: &VfsPath) -> bool {
    match String::from_utf8(p.to_bytes()) {
        Ok(s) => std::path::Path::new(&s).exists(),
        Err(_) => false,
    }
}

#[test]
fn elf_test_failure() {
    // the contents of /dev/null
    let data: Vec<u8> = Vec::new();
    assert!(Elf::linked_libraries(&data, &host_exists).is_err());
    assert!(matches!(Elf::linked_libraries(&data, &host_exists), Err(ElfError::Parsing(_))));
}

#[test]
fn elf_unrecognised_kind_is_parse_error() {
    let data = vec![b'n'; 64];
    assert!(matches!(Elf::linked_libraries(&data, &host_exists), Err(ElfError::Parsing(_))));
}

#[test]
fn elf_not_64_bit() {
    let mut data = vec![0x7f, b'E', b'L', b'F', 1];
    data.resize(64, 0);
    assert!(matches!(Elf::linked_libraries(&data, &host_exists), Err(ElfError::Not64BitElf)));
}

#[test]
fn elf_find_binary_first_match() {
    let probe = |p: &VfsPath| {
        let b = p.to_bytes();
        b == b"/usr/local/bin/tool".to_vec() || b == b"/bin/tool".to_vec()
    };
    let found = Elf::find_binary(&VfsPath::from_bytes(b"tool"), &probe).unwrap();
    assert_eq!(found.to_bytes(), b"/usr/local/bin/tool".to_vec());
}

#[test]
fn elf_find_library_not_found() {
    let probe = |_: &VfsPath| false;
    match Elf::find_library(&VfsPath::from_bytes(b"libnope.so"), &probe) {
        Err(ElfError::LibraryNotFound(name)) => assert_eq!(name.to_bytes(), b"libnope.so".to_vec()),
        other => panic!("unexpected: {:?}", other),
    }
    match Elf::find_binary(&VfsPath::from_bytes(b"nope"), &probe) {
        Err(ElfError::BinaryNotFound(name)) => assert_eq!(name.to_bytes(), b"nope".to_vec()),
        other => panic!("unexpected: {:?}", other),
    }
}

#[test]
fn elf_table_libraries_in_order() {
    let probe = |p: &VfsPath| p.to_bytes().starts_with(b"/usr/lib64/");
    let table = b"\0libz.so.1\0libc.so.6\0";
    let libs = Elf::table_libraries(table, &vec![1, 11], &probe).unwrap();
    let libs: Vec<Vec<u8>> = libs.iter().map(|l| l.to_bytes()).collect();
    assert_eq!(libs, vec![b"/usr/lib64/libz.so.1".to_vec(), b"/usr/lib64/libc.so.6".to_vec()]);
}

#[test]
fn elf_table_libraries_looks_up_before_reading_on() {
    let none = |_: &VfsPath| false;
    let table = b"\0libnope.so\0";
    // the first library is looked up, and found nowhere, before the bad offset is read
    match Elf::table_libraries(table, &vec![1, 1000], &none) {
        Err(ElfError::LibraryNotFound(q)) => assert_eq!(q.to_bytes(), b"libnope.so".to_vec()),
        other => panic!("unexpected: {:?}", other),
    }
    let all = |_: &VfsPath| true;
    assert!(matches!(Elf::table_libraries(table, &vec![1, 1000], &all), Err(ElfError::InvalidStringTable)));
    assert!(matches!(Elf::table_libraries(table, &vec![1u64 << 32], &all), Err(ElfError::InvalidStringTable)));
}

#[test]
fn elf_dynamic_scan() {
    let entries = vec![(1i64, 10u64), (5, 100), (10, 50), (1, 20), (5, 200), (3, 7)];
    let (strtab, strsz, needed) = scan_dynamic_entries(&entries);
    assert_eq!(strtab, 200);
    assert_eq!(strsz, 50);
    assert_eq!(needed, vec![10, 20]);
}

#[test]
fn elf_string_table() {
    let table = b"\0libc.so.6\0libm.so.6\0tail";
    assert_eq!(string_table_get(table, 1), Some(b"libc.so.6".to_vec()));
    assert_eq!(string_table_get(table, 0), Some(Vec::new()));
    assert_eq!(string_table_get(table, 21), None);
    assert_eq!(string_table_get(table, 100), None);
}

fn push16(v: &mut Vec<u8>, x: u16) {
    v.extend_from_slice(&x.to_le_bytes());
}

fn push32(v: &mut Vec<u8>, x: u32) {
    v.extend_from_slice(&x.to_le_bytes());
}

fn push64(v: &mut Vec<u8>, x: u64) {
    v.extend_from_slice(&x.to_le_bytes());
}

/// A small 64-bit ELF file: one loadable segment over the whole file, one
/// dynamic segment with a needed entry at `needed` and the string table at
/// `strtab_addr`.
fn tiny_elf(needed: u64, strtab_addr: u64) -> Vec<u8> {
    tiny_elf_with(b"\0libfoo.so.1\0", needed, strtab_addr)
}

/// A 64-bit ELF file with one loaded segment over all of it and a dynamic
/// segment naming one needed library at `needed` in the string table `strtab`.
fn tiny_elf_with(strtab: &[u8], needed: u64, strtab_addr: u64) -> Vec<u8> {
    let dyn_off: u64 = 64 + 2 * 56;
    let dyn_size: u64 = 4 * 16;
    let str_off = dyn_off + dyn_size;
    let total = str_off + strtab.len() as u64;

    let mut v = vec![0x7f, b'E', b'L', b'F', 2, 1, 1, 0, 0, 0, 0, 0, 0, 0, 0, 0];
    push16(&mut v, 3);
    push16(&mut v, 62);
    push32(&mut v, 1);
    push64(&mut v, 0);
    push64(&mut v, 64);
    push64(&mut v, 0);
    push32(&mut v, 0);
    push16(&mut v, 64);
    push16(&mut v, 56);
    push16(&mut v, 2);
    push16(&mut v, 64);
    push16(&mut v, 0);
    push16(&mut v, 0);
    assert_eq!(v.len(), 64);
    // PT_LOAD over the whole file, at virtual address 0
    push32(&mut v, 1);
    push32(&mut v, 4);
    for x in [0, 0, 0, total, total, 1] {
        push64(&mut v, x);
    }
    // PT_DYNAMIC
    push32(&mut v, 2);
    push32(&mut v, 6);
    for x in [dyn_off, dyn_off, dyn_off, dyn_size, dyn_size, 8] {
        push64(&mut v, x);
    }
    // DT_NEEDED, DT_STRTAB, DT_STRSZ, DT_NULL
    for (tag, val) in [(1u64, needed), (5, strtab_addr), (10, strtab.len() as u64), (0, 0)] {
        push64(&mut v, tag);
        push64(&mut v, val);
    }
    v.extend_from_slice(strtab);
    assert_eq!(v.len() as u64, total);
    v
}

#[test]
fn elf_linked_libraries_of_tiny_file() {
    let data = tiny_elf(1, 240);
    let probe = |p: &VfsPath| p.to_bytes() == b"/usr/lib64/libfoo.so.1".to_vec();
    let libs = Elf::linked_libraries(&data, &probe).unwrap();
    let libs: Vec<Vec<u8>> = libs.iter().map(|l| l.to_bytes()).collect();
    assert_eq!(libs, vec![b"/usr/lib64/libfoo.so.1".to_vec()]);
}

#[test]
fn elf_linked_libraries_errors() {
    let probe = |_: &VfsPath| true;
    // the needed name lies outside the string table
    assert!(matches!(
        Elf::linked_libraries(&tiny_elf(100, 240), &probe),
        Err(ElfError::InvalidStringTable)
    ));
    // no segment holds the string table: nothing is linked
    assert!(Elf::linked_libraries(&tiny_elf(1, 100_000), &probe).unwrap().is_empty());
    // the library is found nowhere
    let none = |_: &VfsPath| false;
    assert!(matches!(
        Elf::linked_libraries(&tiny_elf(1, 240), &none),
        Err(ElfError::LibraryNotFound(_))
    ));
}

#[test]
fn elf_test_resolver() {
    // a dynamically linked binary that needs the C library, as /bin/ls does
    let data = tiny_elf_with(b"\0libc.so.6\0", 1, 240);
    let probe = |p: &VfsPath| p.to_bytes() == b"/lib/x86_64-linux-gnu/libc.so.6".to_vec()
        || p.to_bytes() == b"/usr/lib/libc.so.6".to_vec();
    let libs = Elf::linked_libraries(&data, &probe).unwrap();
    let found_libc = libs.iter().any(|lib| {
        let bytes = lib.to_bytes();
        let name = bytes.rsplit(|b| *b == b'/').next().unwrap().to_vec();
        name.starts_with(b"libc")
    });
    assert!(found_libc, "libc not found in linked libraries");
}
