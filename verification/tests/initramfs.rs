use elusive::elf::ElfError;
use std::io::Write;
use elusive::initramfs::{uncompress_module, Initramfs, InitramfsError};
use elusive::kmod::ModuleFormat;
use elusive::path::VfsPath;
use elusive::systemd::Unit;
use elusive::vfs::{Entry, VfsError};

fn p(s: &str) -> VfsPath {
    VfsPath::from_bytes(s.as_bytes())
}

fn file_loader(q: &VfsPath) -> Result<Entry, std::io::Error> {
    Ok(Entry::file(q.to_bytes()))
}

#[test]
fn initramfs_new_layout() {
    let init = Initramfs::new().unwrap();
    for d in ["/", "/dev", "/etc", "/proc", "/root", "/run", "/sys", "/tmp", "/usr", "/var"] {
        assert!(init.contains(&p(d)), "{}", d);
    }
    for l in ["/bin", "/lib", "/lib64", "/sbin", "/usr/lib64", "/usr/sbin", "/var/run"] {
        assert!(init.contains(&p(l)), "{}", l);
    }
    assert!(!init.contains(&p("/usr/bin")));
    let bytes = init.into_archive().serialize().unwrap();
    assert_eq!(bytes.len() % 4, 0);
    let link = b"var/run\0";
    assert!(bytes.windows(link.len()).any(|w| w == link));
    assert!(bytes.windows(6).any(|w| w == b"../run"));
}

#[test]
fn initramfs_add_symlink() {
    let mut init = Initramfs::new().unwrap();
    init.add_symlink(&p("/usr/bin/sh"), &p("busybox")).unwrap();
    assert!(init.contains(&p("/usr/bin")));
    assert!(init.contains(&p("/usr/bin/sh")));
    // a link to a target that is held is placed all the same
    init.add_symlink(&p("/x/y"), &p("/usr/bin/sh")).unwrap();
    assert!(init.contains(&p("/x/y")));
    // nothing happens where an entry is at the link's path already
    init.add_symlink(&p("/usr/bin/sh"), &p("/other")).unwrap();
    let bytes = init.into_archive().serialize().unwrap();
    assert!(!bytes.windows(6).any(|w| w == b"/other"));
}

#[test]
fn initramfs_add_init_once() {
    let mut init = Initramfs::new().unwrap();
    let probe = |_: &VfsPath| true;
    init.add_init(&p("/sbin/init"), &probe, &file_loader).unwrap();
    assert!(init.contains(&p("/init")));
    // already there: the host is not asked again
    let failing = |_: &VfsPath| -> Result<Entry, std::io::Error> { panic!("loaded twice") };
    init.add_init(&p("/elsewhere"), &probe, &failing).unwrap();
    let none = |_: &VfsPath| false;
    assert!(matches!(
        init.add_shutdown(&p("/sbin/halt"), &none, &file_loader),
        Err(InitramfsError::InputOutput(_))
    ));
    assert!(!init.contains(&p("/shutdown")));
}

#[test]
fn initramfs_add_files() {
    let mut init = Initramfs::new().unwrap();
    let probe = |_: &VfsPath| true;
    let is_dir = |q: &VfsPath| -> Result<bool, std::io::Error> { Ok(q.to_bytes() == b"/host/rules".to_vec()) };
    let walk = |_: &VfsPath| -> (Vec<VfsPath>, Option<walkdir::Error>) { (vec![p("sub"), p("sub/a.rules")], None) };
    let sources = vec![p("/host/hosts"), p("/host/rules")];
    init.add_files(&sources, &p("/etc/conf"), &probe, &is_dir, &walk, &file_loader).unwrap();
    assert!(init.contains(&p("/etc/conf")));
    assert!(init.contains(&p("/etc/conf/hosts")));
    assert!(init.contains(&p("/etc/conf/sub")));
    assert!(init.contains(&p("/etc/conf/sub/a.rules")));
    let missing = |_: &VfsPath| false;
    assert!(matches!(
        init.add_files(&vec![p("/nope")], &p("/etc"), &missing, &is_dir, &walk, &file_loader),
        Err(InitramfsError::InputOutput(_))
    ));
}

#[test]
fn initramfs_add_single_file() {
    let mut init = Initramfs::new().unwrap();
    init.add_symlink(&p("/etc/f"), &p("x")).unwrap();
    let probe = |_: &VfsPath| true;
    let is_dir = |_: &VfsPath| -> Result<bool, std::io::Error> { Ok(false) };
    let walk = |_: &VfsPath| -> (Vec<VfsPath>, Option<walkdir::Error>) { (Vec::new(), None) };
    init.add_files(&vec![p("/host/f")], &p("/etc/g"), &probe, &is_dir, &walk, &file_loader).unwrap();
    assert!(init.contains(&p("/etc/g/f")));
}

#[test]
fn initramfs_add_elf_not_found() {
    let mut init = Initramfs::new().unwrap();
    let none = |_: &VfsPath| false;
    let read = |_: &VfsPath| -> Result<Vec<u8>, std::io::Error> { Ok(Vec::new()) };
    match init.add_elf(&p("busybox"), &none, &file_loader, &read) {
        Err(InitramfsError::Elf(ElfError::BinaryNotFound(q))) => assert_eq!(q.to_bytes(), b"busybox".to_vec()),
        other => panic!("unexpected: {:?}", other),
    }
}

#[test]
fn initramfs_add_elf_places_file() {
    let mut init = Initramfs::new().unwrap();
    let probe = |_: &VfsPath| true;
    let read = |_: &VfsPath| -> Result<Vec<u8>, std::io::Error> { Ok(b"not an elf at all".to_vec()) };
    let r = init.add_elf(&p("/opt/tool/bin/run"), &probe, &file_loader, &read);
    // the entry is placed before its libraries are read
    assert!(init.contains(&p("/opt/tool/bin/run")));
    assert!(matches!(r, Err(InitramfsError::Elf(_))));
    // held already: nothing more to add
    let deps = init.add_elf(&p("/opt/tool/bin/run"), &probe, &file_loader, &read).unwrap();
    assert!(deps.is_empty());
}

#[test]
fn initramfs_module_file() {
    let mut init = Initramfs::new().unwrap();
    let data = {
        let mut v = vec![0x7f, b'E', b'L', b'F'];
        v.extend_from_slice(&[2, 1, 1, 0]);
        v
    };
    let read = move |_: &VfsPath| -> Result<Vec<u8>, std::io::Error> { Ok(data.clone()) };
    let host = p("/usr/lib/modules/6.1.0/kernel/fs/ext4/ext4.ko");
    init.add_module_file(Some(&host), b"6.1.0", b"ext4", &read).unwrap();
    assert!(init.contains(&p("/usr/lib/modules/6.1.0/kernel/fs/ext4/ext4.ko")));
    init.add_module_file(None, b"6.1.0", b"builtin", &read).unwrap();
}

#[test]
fn initramfs_uncompress() {
    let raw = b"module contents".to_vec();
    assert_eq!(uncompress_module(&raw, &ModuleFormat::Elf).unwrap(), raw);
    let mut enc = flate2::write::GzEncoder::new(Vec::new(), flate2::Compression::default());
    enc.write_all(&raw).unwrap();
    let gz = enc.finish().unwrap();
    assert_eq!(uncompress_module(&gz, &ModuleFormat::Gzip).unwrap(), raw);
    let zs = zstd::encode_all(&raw[..], 3).unwrap();
    assert_eq!(uncompress_module(&zs, &ModuleFormat::Zstd).unwrap(), raw);
    assert!(uncompress_module(b"garbage", &ModuleFormat::Xz).is_err());
}

#[test]
fn initramfs_unit_file_and_install() {
    let mut init = Initramfs::new().unwrap();
    let unit = Unit {
        path: p("/usr/lib/systemd/system/x.service"),
        data: b"[Unit]\n".to_vec(),
        binaries: Vec::new(),
        dependencies: Vec::new(),
        install_path: Some(p("/usr/lib/systemd/system/sysinit.target.wants/x.service")),
    };
    init.add_unit_file(&unit).unwrap();
    assert!(init.contains(&p("/usr/lib/systemd/system/x.service")));
    init.install_unit(&unit, "x.service").unwrap();
    assert!(init.contains(&p("/usr/lib/systemd/system/sysinit.target.wants/x.service")));
    let bytes = init.into_archive().serialize().unwrap();
    assert!(bytes.windows(12).any(|w| w == b"../x.service"));
}

#[test]
fn initramfs_vfs_errors_surface() {
    let mut init = Initramfs::new().unwrap();
    let probe = |_: &VfsPath| true;
    init.add_init(&p("/sbin/init"), &probe, &file_loader).unwrap();
    // /init is a regular file: no directory can be made below it
    match init.add_symlink(&p("/init/x"), &p("y")) {
        Err(InitramfsError::Vfs(VfsError::FileExists(q))) => assert_eq!(q.to_bytes(), b"/init".to_vec()),
        other => panic!("unexpected: {:?}", other),
    }
}

#[test]
fn initramfs_add_files_destination_under_file() {
    let mut init = Initramfs::new().unwrap();
    let probe = |_: &VfsPath| true;
    let is_dir = |_: &VfsPath| -> Result<bool, std::io::Error> { Ok(false) };
    let walk = |_: &VfsPath| -> (Vec<VfsPath>, Option<walkdir::Error>) { (Vec::new(), None) };
    init.add_files(&vec![p("/host/hosts")], &p("/etc"), &probe, &is_dir, &walk, &file_loader).unwrap();
    assert!(matches!(
        init.add_files(&Vec::new(), &p("/etc/hosts/x"), &probe, &is_dir, &walk, &file_loader),
        Err(InitramfsError::Vfs(_))
    ));
    // with nothing to copy and a fresh destination, success is owed
    init.add_files(&Vec::new(), &p("/etc/empty"), &probe, &is_dir, &walk, &file_loader).unwrap();
    assert!(init.contains(&p("/etc/empty")));
}

#[test]
fn initramfs_add_files_contents_and_held_paths() {
    let mut init = Initramfs::new().unwrap();
    let probe = |_: &VfsPath| true;
    let is_dir = |_: &VfsPath| -> Result<bool, std::io::Error> { Ok(false) };
    let walk = |_: &VfsPath| -> (Vec<VfsPath>, Option<walkdir::Error>) { (Vec::new(), None) };
    init.add_symlink(&p("/etc/conf/first"), &p("elsewhere")).unwrap();
    // the first source's place is held; the second is still copied, with its contents
    init.add_files(&vec![p("/host/a/first"), p("/host/b/second")], &p("/etc/conf"), &probe, &is_dir, &walk, &file_loader)
        .unwrap();
    assert!(init.contains(&p("/etc/conf/second")));
    let bytes = init.into_archive().serialize().unwrap();
    assert!(bytes.windows(14).any(|w| w == b"/host/b/second"));
    assert!(!bytes.windows(13).any(|w| w == b"/host/a/first"));
}

#[test]
fn initramfs_add_files_empty_twice() {
    let mut init = Initramfs::new().unwrap();
    let probe = |_: &VfsPath| true;
    let is_dir = |_: &VfsPath| -> Result<bool, std::io::Error> { Ok(false) };
    let walk = |_: &VfsPath| -> (Vec<VfsPath>, Option<walkdir::Error>) { (Vec::new(), None) };
    init.add_files(&Vec::new(), &p("/etc/x"), &probe, &is_dir, &walk, &file_loader).unwrap();
    init.add_files(&Vec::new(), &p("/etc/x"), &probe, &is_dir, &walk, &file_loader).unwrap();
    assert!(init.contains(&p("/etc/x")));
}

#[test]
fn initramfs_add_elf_held_path() {
    let mut init = Initramfs::new().unwrap();
    let probe = |_: &VfsPath| true;
    let read = |_: &VfsPath| -> Result<Vec<u8>, std::io::Error> { Ok(Vec::new()) };
    init.add_symlink(&p("/usr/bin/tool"), &p("busybox")).unwrap();
    // held already: no read happens, nothing to add next
    let deps = init.add_elf(&p("/usr/bin/tool"), &probe, &file_loader, &read).unwrap();
    assert!(deps.is_empty());
}

#[test]
fn initramfs_add_module_file_held_and_bad_format() {
    let mut init = Initramfs::new().unwrap();
    let host = p("/usr/lib/modules/6.1.0/kernel/fs/ext4/ext4.ko");
    let bad = |_: &VfsPath| -> Result<Vec<u8>, std::io::Error> { Ok(b"nothing known".to_vec()) };
    assert!(matches!(
        init.add_module_file(Some(&host), b"6.1.0", b"ext4", &bad),
        Err(InitramfsError::Kmod(_))
    ));
    // the parent directories stay made
    assert!(init.contains(&p("/usr/lib/modules/6.1.0/kernel/fs/ext4")));
    let failing = |_: &VfsPath| -> Result<Vec<u8>, std::io::Error> {
        Err(std::io::Error::new(std::io::ErrorKind::NotFound, "gone"))
    };
    assert!(matches!(
        init.add_module_file(Some(&host), b"6.1.0", b"ext4", &failing),
        Err(InitramfsError::InputOutput(_))
    ));
    init.add_symlink(&p("/usr/lib/modules/6.1.0/kernel/fs/ext4/ext4.ko"), &p("x")).unwrap();
    // held already: succeeds without reading
    init.add_module_file(Some(&host), b"6.1.0", b"ext4", &failing).unwrap();
}

fn walk_error() -> walkdir::Error {
    walkdir::WalkDir::new("/no/such/directory/here").into_iter().next().unwrap().unwrap_err()
}

#[test]
fn initramfs_add_files_walk_fails_midway() {
    let mut init = Initramfs::new().unwrap();
    let probe = |_: &VfsPath| true;
    let is_dir = |_: &VfsPath| -> Result<bool, std::io::Error> { Ok(true) };
    let walk = |_: &VfsPath| -> (Vec<VfsPath>, Option<walkdir::Error>) { (vec![p("a"), p("b")], Some(walk_error())) };
    assert!(matches!(
        init.add_files(&vec![p("/host/tree")], &p("/etc/conf"), &probe, &is_dir, &walk, &file_loader),
        Err(InitramfsError::Walk(_))
    ));
    // what was walked before the error stays copied
    assert!(init.contains(&p("/etc/conf/a")));
    assert!(init.contains(&p("/etc/conf/b")));
}
