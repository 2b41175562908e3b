//! Compression of cpio archives.

use crate::initramfs::{gzip_decoded, zstd_decoded};
use std::io::Write;
use vstd::prelude::*;

verus! {

/// Custom error type for archive compression handling.
#[derive(Debug)]
pub enum EncoderError {
    InputOutput(std::io::Error),
    UnknownEncoder(String),
}

/// The compression encoder used for an archive.
#[derive(Clone, Copy, PartialEq, Eq, Structural, Debug)]
pub enum Encoder {
    /// No compression.
    Plain,
    Gzip,
    Zstd,
}

/// The name of an encoder, as given on the command line.
pub open spec fn encoder_name(e: Encoder) -> Seq<char> {
    match e {
        Encoder::Plain => seq!['n', 'o', 'n', 'e'],
        Encoder::Gzip => seq!['g', 'z', 'i', 'p'],
        Encoder::Zstd => seq!['z', 's', 't', 'd'],
    }
}

/// The encoder with the given name, if there is one.
pub open spec fn encoder_named(s: Seq<char>) -> Option<Encoder> {
    if s == encoder_name(Encoder::Plain) {
        Some(Encoder::Plain)
    } else if s == encoder_name(Encoder::Gzip) {
        Some(Encoder::Gzip)
    } else if s == encoder_name(Encoder::Zstd) {
        Some(Encoder::Zstd)
    } else {
        None
    }
}

/// Each encoder is found again by its name.
pub proof fn lemma_encoder_name_roundtrip(e: Encoder)
    ensures
        encoder_named(encoder_name(e)) == Some(e),
{
    assert(encoder_name(Encoder::Plain) != encoder_name(Encoder::Gzip));
    assert(encoder_name(Encoder::Plain) != encoder_name(Encoder::Zstd));
    assert(encoder_name(Encoder::Gzip) != encoder_name(Encoder::Zstd));
}

/// The first bytes of a gzip member: its two identification bytes and the
/// deflate method.
pub open spec fn gzip_magic() -> Seq<u8> {
    seq![0x1fu8, 0x8bu8, 0x08u8]
}

/// The magic number that starts a zstd frame, in little-endian order.
pub open spec fn zstd_magic() -> Seq<u8> {
    seq![0x28u8, 0xb5u8, 0x2fu8, 0xfdu8]
}

/// Calls `num_cpus::get`, the number of logical CPUs available. Claimed only
/// what its documentation says: it is at least 1; the number itself depends
/// on the machine.
#[verifier::external_body]
fn available_cpus() -> (n: usize)
    ensures
        n >= 1,
{
    num_cpus::get()
}

/// The gzip member that `flate2` writes for the given data at the default
/// level.
pub uninterp spec fn gzip_compressed(data: Seq<u8>) -> Seq<u8>;

/// The zstd frame that `zstd` writes for the given data, level and number of
/// worker threads.
pub uninterp spec fn zstd_compressed(data: Seq<u8>, level: i32, workers: u32) -> Seq<u8>;

/// Compresses `data` into a gzip member with `flate2::write::GzEncoder` over
/// an empty `Vec`, at `flate2::Compression::default()`: `GzEncoder::new`, then
/// `write_all`, then `finish`. Claimed: it succeeds (the only failures in
/// `flate2` come from the inner writer, which is a `Vec` here, and from
/// deflate parameters, which are the default ones); the bytes begin with the
/// gzip header that `flate2` writes (identification bytes and deflate method),
/// they are the member that `flate2` writes for these bytes (a function of
/// them alone), and `flate2::read::GzDecoder` reads the bytes back from it.
#[verifier::external_body]
fn gzip_compress(data: &[u8]) -> (r: Result<Vec<u8>, std::io::Error>)
    ensures
        r is Ok,
        r matches Ok(v) ==> v@.len() >= 10 && v@.subrange(0, 3) == gzip_magic(),
        r matches Ok(v) ==> v@ == gzip_compressed(data@),
        r matches Ok(v) ==> gzip_decoded(v@) == Some(data@),
{
    let mut enc = flate2::write::GzEncoder::new(Vec::new(), flate2::Compression::default());
    enc.write_all(data)?;
    enc.finish()
}

/// Compresses `data` into a zstd frame with `zstd::Encoder` over an empty
/// `Vec`: `Encoder::new` at `level`, `multithread` with `workers`, then
/// `write_all` and `finish`. Claimed: on success, the bytes begin with the zstd
/// frame magic number, they are the frame that `zstd` writes for these
/// bytes, level and worker count (a function of them alone), and
/// `zstd::Decoder` reads the bytes back from it.
#[verifier::external_body]
fn zstd_compress(data: &[u8], level: i32, workers: u32) -> (r: Result<Vec<u8>, std::io::Error>)
    ensures
        r matches Ok(v) ==> v@.len() >= 4 && v@.subrange(0, 4) == zstd_magic(),
        r matches Ok(v) ==> v@ == zstd_compressed(data@, level, workers),
        r matches Ok(v) ==> zstd_decoded(v@) == Some(data@),
{
    let mut enc = zstd::Encoder::new(Vec::new(), level)?;
    enc.multithread(workers)?;
    enc.write_all(data)?;
    enc.finish()
}

impl Encoder {
    /// The encoder with the given name: `none`, `gzip` or `zstd`.
    pub fn from_str(s: &str) -> (r: Result<Encoder, EncoderError>)
        ensures
            match encoder_named(s@) {
                Some(e) => r == Ok::<Encoder, EncoderError>(e),
                None => r matches Err(EncoderError::UnknownEncoder(t)) && t@ == s@,
            },
    {
        if str_is(s, 'n', 'o', 'n', 'e') {
            Ok(Encoder::Plain)
        } else if str_is(s, 'g', 'z', 'i', 'p') {
            Ok(Encoder::Gzip)
        } else if str_is(s, 'z', 's', 't', 'd') {
            Ok(Encoder::Zstd)
        } else {
            Err(EncoderError::UnknownEncoder(s.to_owned()))
        }
    }

    /// Compress `data` with this encoder: unchanged for `Plain`, a gzip member
    /// at the default level for `Gzip`, and a zstd frame at level 3 with one
    /// worker per available CPU for `Zstd`.
    pub fn encode(&self, data: &[u8]) -> (r: Result<Vec<u8>, EncoderError>)
        ensures
            *self == Encoder::Plain ==> (r matches Ok(v) && v@ == data@),
            *self == Encoder::Gzip ==> (r matches Ok(v) && v@ == gzip_compressed(data@)
                && v@.len() >= 10 && v@.subrange(0, 3) == gzip_magic() && gzip_decoded(v@) == Some(
                data@,
            )),
            *self == Encoder::Zstd ==> (r matches Ok(v) ==> (exists|w: u32|
                v@ == #[trigger] zstd_compressed(data@, 3, w)) && v@.len() >= 4 && v@.subrange(0, 4)
                == zstd_magic() && zstd_decoded(v@) == Some(data@)) && (r matches Err(e) ==> e is InputOutput),
    {
        match self {
            Encoder::Plain => Ok(vstd::slice::slice_to_vec(data)),
            Encoder::Gzip => match gzip_compress(data) {
                Ok(v) => Ok(v),
                Err(e) => Err(EncoderError::InputOutput(e)),
            },
            Encoder::Zstd => {
                let nproc = available_cpus() as u32;
                match zstd_compress(data, 3, nproc) {
                    Ok(v) => Ok(v),
                    Err(e) => Err(EncoderError::InputOutput(e)),
                }
            },
        }
    }
}

/// Whether `s` is exactly the four characters given.
fn str_is(s: &str, a: char, b: char, c: char, d: char) -> (r: bool)
    ensures
        r == (s@ == seq![a, b, c, d]),
{
    if s.unicode_len() != 4 {
        return false;
    }
    let r = s.get_char(0) == a && s.get_char(1) == b && s.get_char(2) == c && s.get_char(3) == d;
    if r {
        assert(s@ =~= seq![a, b, c, d]);
    }
    r
}

} // verus!
