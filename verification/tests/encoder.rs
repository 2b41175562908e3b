use elusive::initramfs::uncompress_module;
use elusive::kmod::ModuleFormat;
use elusive::encoder::{Encoder, EncoderError};
use std::io::Read;
use elusive::newc::Archive;
use elusive::path::VfsPath;
use elusive::vfs::Entry;

fn dummy_archive() -> Archive {
    Archive::from_entries(vec![(VfsPath::from_bytes(b"/test"), Entry::file(b"data".to_vec()))])
}

#[test]
fn encoder_test_fromstr() {
    assert_eq!(Encoder::from_str("none").unwrap(), Encoder::Plain);
    assert_eq!(Encoder::from_str("gzip").unwrap(), Encoder::Gzip);
    assert_eq!(Encoder::from_str("zstd").unwrap(), Encoder::Zstd);

    assert!(Encoder::from_str("someotherencoder").is_err());
}

#[test]
fn encoder_test_encode() {
    let data = dummy_archive().serialize().unwrap();
    Encoder::Plain.encode(&data).unwrap();
}

#[test]
fn encoder_test_encode_ext() {
    let archive = dummy_archive();
    let data = archive.serialize().unwrap();

    let buf_none = Encoder::Plain.encode(&data).unwrap();
    let buf_gzip = Encoder::Gzip.encode(&data).unwrap();
    let buf_zstd = Encoder::Zstd.encode(&data).unwrap();

    // gzip should always compress better
    assert!(buf_none.len() > buf_gzip.len());

    // zstd should always compress better
    assert!(buf_none.len() > buf_zstd.len());
}

#[test]
fn encoder_plain_keeps_data() {
    let data = b"some bytes".to_vec();
    assert_eq!(Encoder::Plain.encode(&data).unwrap(), data);
}

#[test]
fn encoder_gzip_and_zstd_headers() {
    let data = vec![7u8; 1000];
    let gz = Encoder::Gzip.encode(&data).unwrap();
    assert_eq!(&gz[0..3], &[0x1f, 0x8b, 0x08]);
    let zs = Encoder::Zstd.encode(&data).unwrap();
    assert_eq!(&zs[0..4], &[0x28, 0xb5, 0x2f, 0xfd]);
}

#[test]
fn encoder_gzip_round_trip() {
    let data = b"hello hello hello hello".to_vec();
    let gz = Encoder::Gzip.encode(&data).unwrap();
    let mut out = Vec::new();
    flate2::read::GzDecoder::new(&gz[..]).read_to_end(&mut out).unwrap();
    assert_eq!(out, data);
}

#[test]
fn encoder_unknown_name_is_reported() {
    match Encoder::from_str("lz4") {
        Err(EncoderError::UnknownEncoder(name)) => assert_eq!(name, "lz4"),
        other => panic!("unexpected: {:?}", other),
    }
}

#[test]
fn encoder_output_decodes_back() {
    let data = b"a module, or any other data, compressed and read back".repeat(20);
    let gz = Encoder::Gzip.encode(&data).unwrap();
    assert_eq!(uncompress_module(&gz, &ModuleFormat::Gzip).unwrap(), data);
    let zs = Encoder::Zstd.encode(&data).unwrap();
    assert_eq!(uncompress_module(&zs, &ModuleFormat::Zstd).unwrap(), data);
}
