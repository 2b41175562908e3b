use elusive::kmod::{module_install_path, KmodError, ModuleFormat, ModuleInfo};
use elusive::path::VfsPath;

#[test]
fn kmod_format_from_magic() {
    let pad = [0u8; 8];
    let with = |m: &[u8]| {
        let mut v = m.to_vec();
        v.extend_from_slice(&pad);
        v
    };
    assert_eq!(ModuleFormat::from_bytes(&with(&[0x7f, b'E', b'L', b'F'])).unwrap(), ModuleFormat::Elf);
    assert_eq!(ModuleFormat::from_bytes(&with(&[0x28, 0xb5, 0x2f, 0xfd])).unwrap(), ModuleFormat::Zstd);
    assert_eq!(
        ModuleFormat::from_bytes(&with(&[0xfd, b'7', b'z', b'X', b'Z', 0])).unwrap(),
        ModuleFormat::Xz
    );
    assert_eq!(ModuleFormat::from_bytes(&with(&[0x1f, 0x8b])).unwrap(), ModuleFormat::Gzip);
    assert!(matches!(ModuleFormat::from_bytes(&[0x7f, b'E']), Err(KmodError::TooSmallForMagic)));
    assert!(matches!(ModuleFormat::from_bytes(&with(&[1, 2, 3])), Err(KmodError::UnknownMagic)));
}

#[test]
fn kmod_install_path() {
    let host = VfsPath::from_bytes(b"/usr/lib/modules/6.1.0/kernel/fs/btrfs/btrfs.ko.zst");
    let p = module_install_path(Some(&host), b"6.1.0", b"btrfs").unwrap();
    assert_eq!(p.to_bytes(), b"/usr/lib/modules/6.1.0/kernel/fs/btrfs/btrfs.ko".to_vec());
    assert!(matches!(module_install_path(None, b"6.1.0", b"btrfs"), Err(KmodError::ModuleBuiltIn)));
}

#[test]
fn kmod_install_path_other_root() {
    let host = VfsPath::from_bytes(b"/tmp/out/kernel/drivers/x.ko.xz");
    let p = module_install_path(Some(&host), b"5.0", b"x").unwrap();
    assert_eq!(p.to_bytes(), b"/usr/lib/modules/5.0/kernel/drivers/x.ko".to_vec());
}

#[test]
fn kmod_module_info() {
    let pairs = vec![
        ("alias".to_string(), Ok("fs-btrfs".to_string())),
        ("depends".to_string(), Ok("xor,raid6_pq".to_string())),
        ("softdep".to_string(), Ok("pre: crc32c".to_string())),
        ("softdep".to_string(), Ok("post: zstd".to_string())),
        ("license".to_string(), Ok("GPL".to_string())),
    ];
    let info = ModuleInfo::from_pairs(pairs).unwrap();
    assert_eq!(info.aliases(), &vec!["fs-btrfs".to_string()]);
    assert_eq!(info.depends(), &vec!["xor".to_string(), "raid6_pq".to_string()]);
    assert_eq!(info.pre_softdeps(), &vec!["crc32c".to_string()]);
    assert_eq!(info.post_softdeps(), &vec!["zstd".to_string()]);
}

#[test]
fn kmod_extension() {
    assert_eq!(ModuleFormat::Zstd.extension(), "ko.zst");
    assert_eq!(ModuleFormat::Elf.extension(), "ko");
}
