use elusive::microcode::{concat_blobs, MicrocodeBundle, MicrocodeError};
use elusive::newc::Archive;

#[test]
fn microcode_test_microcode_bundle() -> Result<(), MicrocodeError> {
    let bundle = MicrocodeBundle::new()?;
    let _ = bundle.into_archive();
    Ok(())
}

#[test]
fn microcode_bundle_holds_blob() {
    let mut bundle = MicrocodeBundle::new().unwrap();
    bundle.add_amd_ucode(b"AMDBLOB".to_vec()).unwrap();
    let bytes = bundle.into_archive().serialize().unwrap();
    let name = b"kernel/x86/microcode/AuthenticAMD.bin\0";
    assert!(bytes.windows(name.len()).any(|w| w == name));
    assert!(bytes.windows(7).any(|w| w == b"AMDBLOB"));
}

#[test]
fn microcode_concat() {
    let blobs = vec![vec![1u8, 2], vec![], vec![3]];
    assert_eq!(concat_blobs(&blobs), vec![1, 2, 3]);
    let empty: Vec<u8> = Archive::from_entries(Vec::new()).serialize().unwrap();
    assert_eq!(empty.len() % 4, 0);
}
