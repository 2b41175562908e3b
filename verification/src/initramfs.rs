//! Initramfs generation: the filesystem of an initramfs, built up from the
//! host's files, binaries, kernel modules and systemd units, then turned
//! into an archive.
//!
//! What is read from the host comes through the closures that the functions
//! take: `probe` tells whether a path exists, `load` reads a file into an
//! entry (its metadata, and its contents unless it is a directory), `read`
//! gives a file's bytes. Adding a binary, a kernel module or a unit with all
//! that it depends on takes steps that are given here, one call per item.

use crate::elf::{linked_result, Elf, ElfError};
use crate::kmod::{format_of, install_path_of, module_install_path, KmodError, ModuleFormat};
use crate::newc::Archive;
use crate::path::{file_name_of, join_of, parent_of, root_path, PathView, VfsPath};
use crate::systemd::{unit_name_path, Unit, UnitError};
use crate::search::{answered, binary_search_paths, found_first, found_nowhere};
use crate::sys::not_found_error;
use crate::vfs::{
    create_dir_all_spec, create_entry_spec, directory_entry, file_entry, holds_file, lemma_files_kept,
    lemma_paths_kept, symlink_entry, Entry, EntryView, Vfs, VfsError, VfsFault, VfsMap,
};
use std::io::Read;
use vstd::prelude::*;

verus! {

/// `walkdir::Error`, the error of walking a directory tree of the host.
#[verifier::external_type_specification]
#[verifier::external_body]
pub struct ExWalkError(walkdir::Error);

/// Custom error type for initramfs generation.
#[derive(Debug)]
pub enum InitramfsError {
    InputOutput(std::io::Error),
    Walk(walkdir::Error),
    Vfs(VfsError),
    Kmod(KmodError),
    System(UnitError),
    Elf(ElfError),
}

/// The root and the top directories of an initramfs.
pub open spec fn top_dirs_tree() -> VfsMap {
    Map::<PathView, EntryView>::empty().insert(root_path(), directory_entry())
        .insert(PathView { absolute: true, components: seq![seq![100u8, 101, 118]] }, directory_entry())
        .insert(PathView { absolute: true, components: seq![seq![101u8, 116, 99]] }, directory_entry())
        .insert(PathView { absolute: true, components: seq![seq![112u8, 114, 111, 99]] }, directory_entry())
        .insert(PathView { absolute: true, components: seq![seq![114u8, 111, 111, 116]] }, directory_entry())
        .insert(PathView { absolute: true, components: seq![seq![114u8, 117, 110]] }, directory_entry())
        .insert(PathView { absolute: true, components: seq![seq![115u8, 121, 115]] }, directory_entry())
        .insert(PathView { absolute: true, components: seq![seq![116u8, 109, 112]] }, directory_entry())
        .insert(PathView { absolute: true, components: seq![seq![117u8, 115, 114]] }, directory_entry())
        .insert(PathView { absolute: true, components: seq![seq![118u8, 97, 114]] }, directory_entry())
}

/// The filesystem that every initramfs starts from: the root, the top
/// directories, and the symlinks that merge `/bin`, `/sbin` and `/lib` into
/// `/usr`.
pub open spec fn initial_tree() -> VfsMap {
    top_dirs_tree()
        .insert(PathView { absolute: true, components: seq![seq![98u8, 105, 110]] }, symlink_entry(PathView { absolute: false, components: seq![seq![117u8, 115, 114], seq![98u8, 105, 110]] }))
        .insert(PathView { absolute: true, components: seq![seq![108u8, 105, 98]] }, symlink_entry(PathView { absolute: false, components: seq![seq![117u8, 115, 114], seq![108u8, 105, 98]] }))
        .insert(PathView { absolute: true, components: seq![seq![108u8, 105, 98, 54, 52]] }, symlink_entry(PathView { absolute: false, components: seq![seq![117u8, 115, 114], seq![108u8, 105, 98]] }))
        .insert(PathView { absolute: true, components: seq![seq![115u8, 98, 105, 110]] }, symlink_entry(PathView { absolute: false, components: seq![seq![117u8, 115, 114], seq![98u8, 105, 110]] }))
        .insert(PathView { absolute: true, components: seq![seq![117u8, 115, 114], seq![108u8, 105, 98, 54, 52]] }, symlink_entry(PathView { absolute: false, components: seq![seq![108u8, 105, 98]] }))
        .insert(PathView { absolute: true, components: seq![seq![117u8, 115, 114], seq![115u8, 98, 105, 110]] }, symlink_entry(PathView { absolute: false, components: seq![seq![98u8, 105, 110]] }))
        .insert(PathView { absolute: true, components: seq![seq![118u8, 97, 114], seq![114u8, 117, 110]] }, symlink_entry(PathView { absolute: false, components: seq![seq![46u8, 46], seq![114u8, 117, 110]] }))
}

#[verifier::spinoff_prover]
#[verifier::rlimit(40)]
fn make_top_dirs(vfs: &mut Vfs) -> (r: Result<(), VfsError>)
    requires
        old(vfs).wf(),
        old(vfs)@ == Map::<PathView, EntryView>::empty().insert(root_path(), directory_entry()),
    ensures
        final(vfs).wf(),
        r is Ok,
        final(vfs)@ == top_dirs_tree(),
{
    let p = VfsPath::root().join_component(&[100u8, 101, 118]);
    assert(p@ =~~= PathView { absolute: true, components: seq![seq![100u8, 101, 118]] });
    assert(parent_of(p@) == Some(root_path()));
    if let Err(e) = vfs.create_dir(&p) {
        return Err(e);
    }
    let p = VfsPath::root().join_component(&[101u8, 116, 99]);
    assert(p@ =~~= PathView { absolute: true, components: seq![seq![101u8, 116, 99]] });
    assert(parent_of(p@) == Some(root_path()));
    if let Err(e) = vfs.create_dir(&p) {
        return Err(e);
    }
    let p = VfsPath::root().join_component(&[112u8, 114, 111, 99]);
    assert(p@ =~~= PathView { absolute: true, components: seq![seq![112u8, 114, 111, 99]] });
    assert(parent_of(p@) == Some(root_path()));
    if let Err(e) = vfs.create_dir(&p) {
        return Err(e);
    }
    let p = VfsPath::root().join_component(&[114u8, 111, 111, 116]);
    assert(p@ =~~= PathView { absolute: true, components: seq![seq![114u8, 111, 111, 116]] });
    assert(parent_of(p@) == Some(root_path()));
    if let Err(e) = vfs.create_dir(&p) {
        return Err(e);
    }
    let p = VfsPath::root().join_component(&[114u8, 117, 110]);
    assert(p@ =~~= PathView { absolute: true, components: seq![seq![114u8, 117, 110]] });
    assert(parent_of(p@) == Some(root_path()));
    if let Err(e) = vfs.create_dir(&p) {
        return Err(e);
    }
    let p = VfsPath::root().join_component(&[115u8, 121, 115]);
    assert(p@ =~~= PathView { absolute: true, components: seq![seq![115u8, 121, 115]] });
    assert(parent_of(p@) == Some(root_path()));
    if let Err(e) = vfs.create_dir(&p) {
        return Err(e);
    }
    let p = VfsPath::root().join_component(&[116u8, 109, 112]);
    assert(p@ =~~= PathView { absolute: true, components: seq![seq![116u8, 109, 112]] });
    assert(parent_of(p@) == Some(root_path()));
    if let Err(e) = vfs.create_dir(&p) {
        return Err(e);
    }
    let p = VfsPath::root().join_component(&[117u8, 115, 114]);
    assert(p@ =~~= PathView { absolute: true, components: seq![seq![117u8, 115, 114]] });
    assert(parent_of(p@) == Some(root_path()));
    if let Err(e) = vfs.create_dir(&p) {
        return Err(e);
    }
    let p = VfsPath::root().join_component(&[118u8, 97, 114]);
    assert(p@ =~~= PathView { absolute: true, components: seq![seq![118u8, 97, 114]] });
    assert(parent_of(p@) == Some(root_path()));
    if let Err(e) = vfs.create_dir(&p) {
        return Err(e);
    }
    assert(vfs@ =~= top_dirs_tree());
    Ok(())
}

fn make_default_links(vfs: &mut Vfs) -> (r: Result<(), VfsError>)
    requires
        old(vfs).wf(),
        old(vfs)@ == top_dirs_tree(),
    ensures
        final(vfs).wf(),
        r is Ok,
        final(vfs)@ == initial_tree(),
{
    let p = VfsPath::root().join_component(&[98u8, 105, 110]);
    assert(p@ =~~= PathView { absolute: true, components: seq![seq![98u8, 105, 110]] });
    let t = VfsPath::new(false, vec![vec![117u8, 115, 114], vec![98u8, 105, 110]]);
    assert(t@ =~~= PathView { absolute: false, components: seq![seq![117u8, 115, 114], seq![98u8, 105, 110]] });
    if let Err(e) = vfs.create_entry(&p, Entry::symlink(&t)) {
        return Err(e);
    }
    let p = VfsPath::root().join_component(&[108u8, 105, 98]);
    assert(p@ =~~= PathView { absolute: true, components: seq![seq![108u8, 105, 98]] });
    let t = VfsPath::new(false, vec![vec![117u8, 115, 114], vec![108u8, 105, 98]]);
    assert(t@ =~~= PathView { absolute: false, components: seq![seq![117u8, 115, 114], seq![108u8, 105, 98]] });
    if let Err(e) = vfs.create_entry(&p, Entry::symlink(&t)) {
        return Err(e);
    }
    let p = VfsPath::root().join_component(&[108u8, 105, 98, 54, 52]);
    assert(p@ =~~= PathView { absolute: true, components: seq![seq![108u8, 105, 98, 54, 52]] });
    let t = VfsPath::new(false, vec![vec![117u8, 115, 114], vec![108u8, 105, 98]]);
    assert(t@ =~~= PathView { absolute: false, components: seq![seq![117u8, 115, 114], seq![108u8, 105, 98]] });
    if let Err(e) = vfs.create_entry(&p, Entry::symlink(&t)) {
        return Err(e);
    }
    let p = VfsPath::root().join_component(&[115u8, 98, 105, 110]);
    assert(p@ =~~= PathView { absolute: true, components: seq![seq![115u8, 98, 105, 110]] });
    let t = VfsPath::new(false, vec![vec![117u8, 115, 114], vec![98u8, 105, 110]]);
    assert(t@ =~~= PathView { absolute: false, components: seq![seq![117u8, 115, 114], seq![98u8, 105, 110]] });
    if let Err(e) = vfs.create_entry(&p, Entry::symlink(&t)) {
        return Err(e);
    }
    let p = VfsPath::root().join_component(&[117u8, 115, 114]).join_component(&[108u8, 105, 98, 54, 52]);
    assert(p@ =~~= PathView { absolute: true, components: seq![seq![117u8, 115, 114], seq![108u8, 105, 98, 54, 52]] });
    let t = VfsPath::new(false, vec![vec![108u8, 105, 98]]);
    assert(t@ =~~= PathView { absolute: false, components: seq![seq![108u8, 105, 98]] });
    if let Err(e) = vfs.create_entry(&p, Entry::symlink(&t)) {
        return Err(e);
    }
    let p = VfsPath::root().join_component(&[117u8, 115, 114]).join_component(&[115u8, 98, 105, 110]);
    assert(p@ =~~= PathView { absolute: true, components: seq![seq![117u8, 115, 114], seq![115u8, 98, 105, 110]] });
    let t = VfsPath::new(false, vec![vec![98u8, 105, 110]]);
    assert(t@ =~~= PathView { absolute: false, components: seq![seq![98u8, 105, 110]] });
    if let Err(e) = vfs.create_entry(&p, Entry::symlink(&t)) {
        return Err(e);
    }
    let p = VfsPath::root().join_component(&[118u8, 97, 114]).join_component(&[114u8, 117, 110]);
    assert(p@ =~~= PathView { absolute: true, components: seq![seq![118u8, 97, 114], seq![114u8, 117, 110]] });
    let t = VfsPath::new(false, vec![vec![46u8, 46], vec![114u8, 117, 110]]);
    assert(t@ =~~= PathView { absolute: false, components: seq![seq![46u8, 46], seq![114u8, 117, 110]] });
    if let Err(e) = vfs.create_entry(&p, Entry::symlink(&t)) {
        return Err(e);
    }
    assert(vfs@ =~= initial_tree());
    Ok(())
}

/// `after` keeps every path of `before`, and every regular file of `before`
/// unchanged.
pub open spec fn grows(before: VfsMap, after: VfsMap) -> bool {
    &&& before.dom().subset_of(after.dom())
    &&& forall|q: PathView|
        #[trigger] holds_file(before, q) ==> after.dom().contains(q) && after[q] == before[q]
}

/// Creating a directory tree or an entry grows the filesystem.
pub proof fn lemma_steps_grow(m: VfsMap, p: PathView, e: EntryView)
    ensures
        grows(m, create_dir_all_spec(m, p).0),
        grows(m, create_entry_spec(m, p, e).0),
{
    lemma_paths_kept(m, p, e);
    assert forall|q: PathView| #[trigger] holds_file(m, q) implies create_dir_all_spec(m, p).0.dom().contains(q)
        && create_dir_all_spec(m, p).0[q] == m[q] by {
        lemma_files_kept(m, p, e, q);
    }
    assert forall|q: PathView| #[trigger] holds_file(m, q) implies create_entry_spec(m, p, e).0.dom().contains(q)
        && create_entry_spec(m, p, e).0[q] == m[q] by {
        lemma_files_kept(m, p, e, q);
    }
}

/// Growing is transitive.
pub proof fn lemma_grows_trans(a: VfsMap, b: VfsMap, c: VfsMap)
    requires
        grows(a, b),
        grows(b, c),
    ensures
        grows(a, c),
{
    assert forall|q: PathView| #[trigger] holds_file(a, q) implies c.dom().contains(q) && c[q] == a[q] by {
        assert(holds_file(b, q));
    }
}

/// The outcome of an initramfs step against the abstract outcome of a step of
/// the filesystem.
pub open spec fn vfs_outcome(r: Result<(), InitramfsError>, o: Result<(), VfsFault>) -> bool {
    match (r, o) {
        (Ok(()), Ok(())) => true,
        (Err(InitramfsError::Vfs(e)), Err(f)) => e@ == f,
        _ => false,
    }
}

/// Creating the parent directories of `p`, if it has a parent.
pub open spec fn parents_made(m: VfsMap, p: PathView) -> (VfsMap, Result<(), VfsFault>) {
    match parent_of(p) {
        Some(q) => create_dir_all_spec(m, q),
        None => (m, Ok(())),
    }
}

/// Placing `e` at `p` after creating its parent directories, stopping at the
/// first failure.
pub open spec fn place_with_parents(m: VfsMap, p: PathView, e: EntryView) -> (
    VfsMap,
    Result<(), VfsFault>,
) {
    let (m1, r1) = parents_made(m, p);
    if r1 is Err {
        (m1, r1)
    } else {
        create_entry_spec(m1, p, e)
    }
}

/// Adding a symlink at `path` to `target`: nothing where an entry is at
/// `path` already; else the parent directories of `path`, then the symlink.
pub open spec fn add_symlink_spec(m: VfsMap, path: PathView, target: PathView) -> (
    VfsMap,
    Result<(), VfsFault>,
) {
    if m.dom().contains(path) {
        (m, Ok(()))
    } else {
        place_with_parents(m, path, symlink_entry(target))
    }
}

/// Where the init script is placed: `/init`.
pub open spec fn init_path() -> PathView {
    entrypoint_path(seq![105u8, 110, 105, 116])
}

/// Where the shutdown script is placed: `/shutdown`.
pub open spec fn shutdown_path() -> PathView {
    entrypoint_path(seq![115u8, 104, 117, 116, 100, 111, 119, 110])
}

/// The path of an entrypoint with the given name, right under the root.
pub open spec fn entrypoint_path(name: Seq<u8>) -> PathView {
    PathView { absolute: true, components: seq![name] }
}

fn lift(r: Result<(), VfsError>) -> (s: Result<(), InitramfsError>)
    ensures
        match r {
            Ok(()) => s is Ok,
            Err(e) => s matches Err(InitramfsError::Vfs(f)) && f@ == e@,
        },
{
    match r {
        Ok(()) => Ok(()),
        Err(e) => Err(InitramfsError::Vfs(e)),
    }
}

/// Where a binary named by `path` is taken from: `path` itself where it is
/// absolute, else where `probe` first finds it in the binary search paths.
pub open spec fn elf_location<F: Fn(&VfsPath) -> bool>(probe: F, path: PathView, p: PathView) -> bool {
    if path.absolute {
        p == path
    } else {
        found_first(probe, binary_search_paths(), path, p)
    }
}

/// `load` failed on a host path with the abstract value `p`.
pub open spec fn load_failed<L: Fn(&VfsPath) -> Result<Entry, std::io::Error>>(load: L, p: PathView) -> bool {
    exists|q: VfsPath, e: std::io::Error|
        q@ == p && #[trigger] load.ensures((&q,), Err::<Entry, std::io::Error>(e))
}

/// What adding the binary found at `p` gives: nothing and no libraries where
/// an entry is at `p`; else its parent directories are made (a failure there
/// is that error), then it must exist and is loaded into a file at `p`
/// (a failure leaves the directories made), then its bytes are read and
/// the libraries that it links are given (a failure leaves the file placed).
pub open spec fn elf_added_at<
    P: Fn(&VfsPath) -> bool,
    L: Fn(&VfsPath) -> Result<Entry, std::io::Error>,
    R: Fn(&VfsPath) -> Result<Vec<u8>, std::io::Error>,
>(
    probe: P,
    load: L,
    read: R,
    p: PathView,
    before: VfsMap,
    after: VfsMap,
    r: Result<Vec<VfsPath>, InitramfsError>,
) -> bool {
    if before.dom().contains(p) {
        r matches Ok(deps) && deps@.len() == 0 && after == before
    } else {
        let m1 = parents_made(before, p).0;
        match parents_made(before, p).1 {
            Err(f) => after == m1 && match r {
                Err(InitramfsError::Vfs(g)) => g@ == f,
                _ => false,
            },
            Ok(()) => match r {
                Err(InitramfsError::InputOutput(_)) => (after == m1 && (answered(probe, p, false)
                    || load_failed(load, p))) || (answered(probe, p, true) && exists|e: EntryView|
                    #[trigger] loaded(load, p, e) && after == m1.insert(p, e) && read_failed(read, p)),
                Err(InitramfsError::Elf(err)) => answered(probe, p, true) && exists|e: EntryView|
                    #[trigger] loaded(load, p, e) && after == m1.insert(p, e) && exists|b: Seq<u8>|
                        #[trigger] read_gives(read, p, b) && linked_result(
                            probe,
                            b,
                            Err::<Vec<VfsPath>, ElfError>(err),
                        ),
                Ok(deps) => answered(probe, p, true) && exists|e: EntryView|
                    #[trigger] loaded(load, p, e) && after == m1.insert(p, e) && exists|b: Seq<u8>|
                        #[trigger] read_gives(read, p, b) && linked_result(
                            probe,
                            b,
                            Ok::<Vec<VfsPath>, ElfError>(deps),
                        ),
                _ => false,
            },
        }
    }
}

/// `load` can give the entry `e` for a host path with the abstract value `p`.
pub open spec fn loaded<L: Fn(&VfsPath) -> Result<Entry, std::io::Error>>(
    load: L,
    p: PathView,
    e: EntryView,
) -> bool {
    exists|q: VfsPath, x: Entry|
        q@ == p && x@ == e && #[trigger] load.ensures((&q,), Ok::<Entry, std::io::Error>(x))
}

/// What `zstd::Decoder` reads from the given bytes: the module data, or
/// `None` where it fails on them.
pub uninterp spec fn zstd_decoded(data: Seq<u8>) -> Option<Seq<u8>>;

/// What `xz2::read::XzDecoder` reads from the given bytes: the module data, or
/// `None` where it fails on them.
pub uninterp spec fn xz_decoded(data: Seq<u8>) -> Option<Seq<u8>>;

/// What `flate2::read::GzDecoder` reads from the given bytes: the module data,
/// or `None` where it fails on them.
pub uninterp spec fn gzip_decoded(data: Seq<u8>) -> Option<Seq<u8>>;

/// Reads all of `data` through `zstd::Decoder` (`Decoder::new`, then
/// `read_to_end` into an empty `Vec`). Claimed: whether it succeeds, and the
/// bytes read, are a function of `data` alone (the decoder reads from a
/// slice and writes into a `Vec`). Which error comes is not said.
#[verifier::external_body]
fn zstd_decode(data: &[u8]) -> (r: Result<Vec<u8>, std::io::Error>)
    ensures
        r is Ok <==> zstd_decoded(data@) is Some,
        r matches Ok(v) ==> zstd_decoded(data@) == Some(v@),
{
    let mut buf = Vec::new();
    zstd::Decoder::new(data)?.read_to_end(&mut buf)?;
    Ok(buf)
}

/// Reads all of `data` through `xz2::read::XzDecoder` (`XzDecoder::new`, then
/// `read_to_end` into an empty `Vec`). Claimed: whether it succeeds, and the
/// bytes read, are a function of `data` alone. Which error comes is not said.
#[verifier::external_body]
fn xz_decode(data: &[u8]) -> (r: Result<Vec<u8>, std::io::Error>)
    ensures
        r is Ok <==> xz_decoded(data@) is Some,
        r matches Ok(v) ==> xz_decoded(data@) == Some(v@),
{
    let mut buf = Vec::new();
    xz2::read::XzDecoder::new(data).read_to_end(&mut buf)?;
    Ok(buf)
}

/// Reads all of `data` through `flate2::read::GzDecoder` (`GzDecoder::new`,
/// then `read_to_end` into an empty `Vec`). Claimed: whether it succeeds, and
/// the bytes read, are a function of `data` alone. Which error comes is not
/// said.
#[verifier::external_body]
fn gzip_decode(data: &[u8]) -> (r: Result<Vec<u8>, std::io::Error>)
    ensures
        r is Ok <==> gzip_decoded(data@) is Some,
        r matches Ok(v) ==> gzip_decoded(data@) == Some(v@),
{
    let mut buf = Vec::new();
    flate2::read::GzDecoder::new(data).read_to_end(&mut buf)?;
    Ok(buf)
}

/// The contents of a kernel module stored in the given format, or `None`
/// where the matching decoder fails on it.
pub open spec fn decoded(format: ModuleFormat, data: Seq<u8>) -> Option<Seq<u8>> {
    match format {
        ModuleFormat::Elf => Some(data),
        ModuleFormat::Zstd => zstd_decoded(data),
        ModuleFormat::Xz => xz_decoded(data),
        ModuleFormat::Gzip => gzip_decoded(data),
    }
}

/// The contents of a kernel module stored in the given format: the data itself
/// for an uncompressed module, else what the matching decoder reads from it.
pub fn uncompress_module(data: &[u8], format: &ModuleFormat) -> (r: Result<Vec<u8>, InitramfsError>)
    ensures
        match decoded(*format, data@) {
            Some(d) => r matches Ok(v) && v@ == d,
            None => r matches Err(InitramfsError::InputOutput(_)),
        },
{
    let decoded = match format {
        ModuleFormat::Elf => Ok(vstd::slice::slice_to_vec(data)),
        ModuleFormat::Zstd => zstd_decode(data),
        ModuleFormat::Xz => xz_decode(data),
        ModuleFormat::Gzip => gzip_decode(data),
    };
    match decoded {
        Ok(v) => Ok(v),
        Err(e) => Err(InitramfsError::InputOutput(e)),
    }
}

/// `read` failed on a host path with the abstract value `p`.
pub open spec fn read_failed<R: Fn(&VfsPath) -> Result<Vec<u8>, std::io::Error>>(read: R, p: PathView) -> bool {
    exists|q: VfsPath, e: std::io::Error|
        q@ == p && #[trigger] read.ensures((&q,), Err::<Vec<u8>, std::io::Error>(e))
}

/// What adding a module read from the host at `host` at its install path
/// `ip` gives: its parent directories are made first (a failure there is that
/// error); where an entry is at `ip` then, nothing more; else the module is
/// read, its format recognised and its contents uncompressed into a file at
/// `ip`, a failure of any of these leaving the directories made.
pub open spec fn module_file_outcome<R: Fn(&VfsPath) -> Result<Vec<u8>, std::io::Error>>(
    read: R,
    before: VfsMap,
    after: VfsMap,
    ip: PathView,
    host: PathView,
    r: Result<(), InitramfsError>,
) -> bool {
    let m1 = parents_made(before, ip).0;
    match parents_made(before, ip).1 {
        Err(f) => after == m1 && match r {
            Err(InitramfsError::Vfs(g)) => g@ == f,
            _ => false,
        },
        Ok(()) => if m1.dom().contains(ip) {
            r is Ok && after == m1
        } else {
            match r {
                Ok(()) => exists|b: Seq<u8>|
                    #[trigger] read_gives(read, host, b) && format_of(b) is Ok && decoded(
                        format_of(b)->Ok_0,
                        b,
                    ) is Some && after == m1.insert(
                        ip,
                        file_entry(decoded(format_of(b)->Ok_0, b)->Some_0),
                    ),
                Err(InitramfsError::Kmod(_)) => after == m1 && exists|b: Seq<u8>|
                    #[trigger] read_gives(read, host, b) && format_of(b) is Err,
                Err(InitramfsError::InputOutput(_)) => after == m1 && (read_failed(read, host)
                    || exists|b: Seq<u8>|
                    #[trigger] read_gives(read, host, b) && format_of(b) is Ok && decoded(
                        format_of(b)->Ok_0,
                        b,
                    ) is None),
                _ => false,
            }
        },
    }
}

/// `read` can give the bytes `b` for a host path with the abstract value `p`.
pub open spec fn read_gives<R: Fn(&VfsPath) -> Result<Vec<u8>, std::io::Error>>(
    read: R,
    p: PathView,
    b: Seq<u8>,
) -> bool {
    exists|q: VfsPath, x: Vec<u8>|
        q@ == p && x@ == b && #[trigger] read.ensures((&q,), Ok::<Vec<u8>, std::io::Error>(x))
}

/// Adding the file of a unit found at `path` with the contents `data`: nothing
/// where an entry is at `path`; else its parent directories, then the file.
pub open spec fn add_unit_file_spec(m: VfsMap, path: PathView, data: Seq<u8>) -> (
    VfsMap,
    Result<(), VfsFault>,
) {
    if m.dom().contains(path) {
        (m, Ok(()))
    } else {
        place_with_parents(m, path, file_entry(data))
    }
}

/// The target of the symlink that installs the unit `name`: `../name`.
pub open spec fn unit_link_target(name: Seq<char>) -> PathView {
    join_of(PathView { absolute: false, components: seq![seq![46u8, 46]] }, unit_name_path(name))
}

/// What copying `source` into `destination` leaves in `m`: for a file (as
/// `is_dir` answered), an entry under its own name in `destination`; for a
/// directory whose walk went through, an entry for each path that `walk`
/// gave below it.
pub open spec fn source_placed<
    D: Fn(&VfsPath) -> Result<bool, std::io::Error>,
    W: Fn(&VfsPath) -> (Vec<VfsPath>, Option<walkdir::Error>),
>(is_dir: D, walk: W, m: VfsMap, destination: PathView, source: VfsPath) -> bool {
    ||| (is_dir.ensures((&source,), Ok::<bool, std::io::Error>(false)) && (file_name_of(source@) matches Some(n)
        && m.dom().contains(join_of(destination, PathView { absolute: false, components: seq![n] }))))
    ||| exists|w: Vec<VfsPath>|
        #[trigger] walk.ensures((&source,), (w, Option::<walkdir::Error>::None)) && is_dir.ensures(
            (&source,),
            Ok::<bool, std::io::Error>(true),
        ) && forall|j: int| 0 <= j < w@.len() ==> m.dom().contains(#[trigger] join_of(destination, w@[j]@))
}

/// The host failed to give what copying `source` needs: the probe did not
/// find it, `is_dir` failed on it, it is a file without a name, or loading
/// it (a file) or a path that `walk` gave below it (a directory) failed.
pub open spec fn source_unreadable<
    P: Fn(&VfsPath) -> bool,
    D: Fn(&VfsPath) -> Result<bool, std::io::Error>,
    W: Fn(&VfsPath) -> (Vec<VfsPath>, Option<walkdir::Error>),
    L: Fn(&VfsPath) -> Result<Entry, std::io::Error>,
>(probe: P, is_dir: D, walk: W, load: L, source: VfsPath) -> bool {
    ||| answered(probe, source@, false)
    ||| exists|e: std::io::Error| #[trigger] is_dir.ensures((&source,), Err::<bool, std::io::Error>(e))
    ||| is_dir.ensures((&source,), Ok::<bool, std::io::Error>(false)) && file_name_of(source@) is None
    ||| is_dir.ensures((&source,), Ok::<bool, std::io::Error>(false)) && exists|e: std::io::Error|
        #[trigger] load.ensures((&source,), Err::<Entry, std::io::Error>(e))
    ||| is_dir.ensures((&source,), Ok::<bool, std::io::Error>(true)) && exists|
        w: Vec<VfsPath>,
        f: Option<walkdir::Error>,
        j: int,
        q: VfsPath,
        e: std::io::Error,
    |
        #![trigger walk.ensures((&source,), (w, f)), w@[j], load.ensures((&q,), Err::<Entry, std::io::Error>(e))]
        walk.ensures((&source,), (w, f)) && 0 <= j < w@.len() && q@ == join_of(source@, w@[j]@)
            && load.ensures((&q,), Err::<Entry, std::io::Error>(e))
}

/// `source` is a directory (as `is_dir` answered) whose walk failed, after
/// giving paths that `m` holds under `destination`, each of them.
pub open spec fn source_walk_failed<
    D: Fn(&VfsPath) -> Result<bool, std::io::Error>,
    W: Fn(&VfsPath) -> (Vec<VfsPath>, Option<walkdir::Error>),
>(is_dir: D, walk: W, m: VfsMap, destination: PathView, source: VfsPath) -> bool {
    is_dir.ensures((&source,), Ok::<bool, std::io::Error>(true)) && exists|w: Vec<VfsPath>, e: walkdir::Error|
        #[trigger] walk.ensures((&source,), (w, Some(e))) && forall|j: int|
            0 <= j < w@.len() ==> m.dom().contains(#[trigger] join_of(destination, w@[j]@))
}

/// The entry `e` at `q` is what copying `source` into `destination` places
/// there: for a file (as `is_dir` answered), `q` is its name under
/// `destination` and `e` what `load` gives for it; for a directory, `q` is a
/// path that `walk` gave, under `destination`, and `e` what `load` gives for
/// that path under `source`.
pub open spec fn placed_from<
    D: Fn(&VfsPath) -> Result<bool, std::io::Error>,
    W: Fn(&VfsPath) -> (Vec<VfsPath>, Option<walkdir::Error>),
    L: Fn(&VfsPath) -> Result<Entry, std::io::Error>,
>(is_dir: D, walk: W, load: L, destination: PathView, source: VfsPath, q: PathView, e: EntryView) -> bool {
    ||| (is_dir.ensures((&source,), Ok::<bool, std::io::Error>(false)) && (file_name_of(source@) matches Some(n)
        && q == join_of(destination, PathView { absolute: false, components: seq![n] }) && loaded(
        load,
        source@,
        e,
    )))
    ||| exists|w: Vec<VfsPath>, f: Option<walkdir::Error>, j: int|
        #![trigger walk.ensures((&source,), (w, f)), w@[j]]
        is_dir.ensures((&source,), Ok::<bool, std::io::Error>(true)) && walk.ensures((&source,), (w, f))
            && 0 <= j < w@.len() && q == join_of(destination, w@[j]@) && loaded(
            load,
            join_of(source@, w@[j]@),
            e,
        )
}

/// `m` holds every path of `base`, with the same entry.
pub open spec fn agrees_on(base: VfsMap, m: VfsMap) -> bool {
    forall|q: PathView| #[trigger] base.dom().contains(q) ==> m.dom().contains(q) && m[q] == base[q]
}

/// `after` keeps every directory, symlink and regular file of `before`.
pub open spec fn keeps_plain(before: VfsMap, after: VfsMap) -> bool {
    forall|q: PathView|
        before.dom().contains(q) && #[trigger] crate::vfs::is_plain_kind(before[q]) ==> after.dom().contains(q)
            && after[q] == before[q]
}

/// Each path of `m` that `base` does not hold holds what copying one of the
/// first `n` sources into `destination` places there.
pub open spec fn new_entries_from<
    D: Fn(&VfsPath) -> Result<bool, std::io::Error>,
    W: Fn(&VfsPath) -> (Vec<VfsPath>, Option<walkdir::Error>),
    L: Fn(&VfsPath) -> Result<Entry, std::io::Error>,
>(
    is_dir: D,
    walk: W,
    load: L,
    destination: PathView,
    sources: Seq<VfsPath>,
    n: int,
    base: VfsMap,
    m: VfsMap,
) -> bool {
    forall|q: PathView|
        #[trigger] m.dom().contains(q) && !base.dom().contains(q) ==> exists|k: int|
            0 <= k < n && #[trigger] placed_from(is_dir, walk, load, destination, sources[k], q, m[q])
}

proof fn lemma_new_entries_more<
    D: Fn(&VfsPath) -> Result<bool, std::io::Error>,
    W: Fn(&VfsPath) -> (Vec<VfsPath>, Option<walkdir::Error>),
    L: Fn(&VfsPath) -> Result<Entry, std::io::Error>,
>(
    is_dir: D,
    walk: W,
    load: L,
    destination: PathView,
    sources: Seq<VfsPath>,
    n1: int,
    n2: int,
    base: VfsMap,
    m: VfsMap,
)
    requires
        n1 <= n2,
        new_entries_from(is_dir, walk, load, destination, sources, n1, base, m),
    ensures
        new_entries_from(is_dir, walk, load, destination, sources, n2, base, m),
{
    assert forall|q: PathView| #[trigger] m.dom().contains(q) && !base.dom().contains(q) implies exists|k: int|
        0 <= k < n2 && #[trigger] placed_from(is_dir, walk, load, destination, sources[k], q, m[q]) by {
        let k = choose|k: int|
            0 <= k < n1 && #[trigger] placed_from(is_dir, walk, load, destination, sources[k], q, m[q]);
        assert(0 <= k < n2);
    }
}

proof fn lemma_insert_new_entry<
    D: Fn(&VfsPath) -> Result<bool, std::io::Error>,
    W: Fn(&VfsPath) -> (Vec<VfsPath>, Option<walkdir::Error>),
    L: Fn(&VfsPath) -> Result<Entry, std::io::Error>,
>(
    is_dir: D,
    walk: W,
    load: L,
    destination: PathView,
    sources: Seq<VfsPath>,
    n: int,
    base: VfsMap,
    m: VfsMap,
    m0: VfsMap,
    p: PathView,
    e: EntryView,
    k: int,
)
    requires
        new_entries_from(is_dir, walk, load, destination, sources, n, base, m),
        agrees_on(base, m),
        keeps_plain(m0, m),
        !m.dom().contains(p),
        0 <= k < n,
        placed_from(is_dir, walk, load, destination, sources[k], p, e),
    ensures
        new_entries_from(is_dir, walk, load, destination, sources, n, base, m.insert(p, e)),
        agrees_on(base, m.insert(p, e)),
        keeps_plain(m0, m.insert(p, e)),
{
    let m2 = m.insert(p, e);
    assert forall|q: PathView| #[trigger] m2.dom().contains(q) && !base.dom().contains(q) implies exists|kk: int|
        0 <= kk < n && #[trigger] placed_from(is_dir, walk, load, destination, sources[kk], q, m2[q]) by {
        if q == p {
            assert(placed_from(is_dir, walk, load, destination, sources[k], q, m2[q]));
        } else {
            assert(m.dom().contains(q));
            let kk = choose|kk: int|
                0 <= kk < n && #[trigger] placed_from(is_dir, walk, load, destination, sources[kk], q, m[q]);
            assert(m2[q] == m[q]);
            assert(placed_from(is_dir, walk, load, destination, sources[kk], q, m2[q]));
        }
    }
    assert forall|q: PathView| #[trigger] base.dom().contains(q) implies m2.dom().contains(q) && m2[q]
        == base[q] by {
        assert(m.dom().contains(q));
    }
    assert forall|q: PathView|
        m0.dom().contains(q) && #[trigger] crate::vfs::is_plain_kind(m0[q]) implies m2.dom().contains(q)
        && m2[q] == m0[q] by {
        assert(m.dom().contains(q));
    }
}

proof fn lemma_placed_grows<
    D: Fn(&VfsPath) -> Result<bool, std::io::Error>,
    W: Fn(&VfsPath) -> (Vec<VfsPath>, Option<walkdir::Error>),
>(is_dir: D, walk: W, m1: VfsMap, m2: VfsMap, destination: PathView, source: VfsPath)
    requires
        source_placed(is_dir, walk, m1, destination, source),
        m1.dom().subset_of(m2.dom()),
    ensures
        source_placed(is_dir, walk, m2, destination, source),
{
    if !(is_dir.ensures((&source,), Ok::<bool, std::io::Error>(false)) && (file_name_of(source@) matches Some(n)
        && m1.dom().contains(join_of(destination, PathView { absolute: false, components: seq![n] })))) {
        let w = choose|w: Vec<VfsPath>|
            #[trigger] walk.ensures((&source,), (w, Option::<walkdir::Error>::None)) && is_dir.ensures(
                (&source,),
                Ok::<bool, std::io::Error>(true),
            ) && forall|j: int| 0 <= j < w@.len() ==> m1.dom().contains(#[trigger] join_of(destination, w@[j]@));
        assert(forall|j: int| 0 <= j < w@.len() ==> m2.dom().contains(#[trigger] join_of(destination, w@[j]@)));
    }
}

/// Builder for initramfs generation.
pub struct Initramfs {
    /// Virtual filesystem built for this initramfs.
    vfs: Vfs,
}

impl View for Initramfs {
    type V = VfsMap;

    closed spec fn view(&self) -> VfsMap {
        self.vfs@
    }
}

impl Initramfs {
    /// The filesystem is well formed.
    pub closed spec fn wf(&self) -> bool {
        self.vfs.wf()
    }

    /// Create a new builder: the root, the top directories and the default
    /// symlinks.
    pub fn new() -> (r: Result<Initramfs, InitramfsError>)
        ensures
            r matches Ok(i) && i.wf() && i@ == initial_tree(),
    {
        let mut vfs = Vfs::new();
        if let Err(e) = make_top_dirs(&mut vfs) {
            return Err(InitramfsError::Vfs(e));
        }
        if let Err(e) = make_default_links(&mut vfs) {
            return Err(InitramfsError::Vfs(e));
        }
        Ok(Initramfs { vfs })
    }

    /// Add a symlink to the initramfs, at `path`, to `target`, unless an entry
    /// is at `path` already: its parent directories, then the link.
    pub fn add_symlink(&mut self, path: &VfsPath, target: &VfsPath) -> (r: Result<(), InitramfsError>)
        requires
            old(self).wf(),
        ensures
            final(self).wf(),
            final(self)@ == add_symlink_spec(old(self)@, path@, target@).0,
            vfs_outcome(r, add_symlink_spec(old(self)@, path@, target@).1),
            grows(old(self)@, final(self)@),
    {
        if self.vfs.contains(path) {
            return Ok(());
        }
        let ghost m0 = self.vfs@;
        if let Some(parent) = path.parent() {
            proof {
                lemma_steps_grow(m0, parent@, symlink_entry(target@));
            }
            let r = self.vfs.create_dir_all(&parent);
            if r.is_err() {
                return lift(r);
            }
        }
        let ghost m1 = self.vfs@;
        proof {
            lemma_steps_grow(m1, path@, symlink_entry(target@));
            if parent_of(path@) is Some {
                lemma_grows_trans(m0, m1, create_entry_spec(m1, path@, symlink_entry(target@)).0);
            }
        }
        lift(self.vfs.create_entry(path, Entry::symlink(target)))
    }

    /// Add the entrypoint `name` right under the root, loaded from `path` on
    /// the host, unless the initramfs already holds one.
    fn add_entrypoint<P: Fn(&VfsPath) -> bool, L: Fn(&VfsPath) -> Result<Entry, std::io::Error>>(
        &mut self,
        name: &[u8],
        path: &VfsPath,
        probe: &P,
        load: &L,
    ) -> (r: Result<(), InitramfsError>)
        requires
            old(self).wf(),
            crate::path::wf_component(name@),
            name@ != crate::path::cur_dir(),
            forall|q: &VfsPath| #[trigger] probe.requires((q,)),
            forall|q: &VfsPath| #[trigger] load.requires((q,)),
        ensures
            final(self).wf(),
            old(self)@.dom().contains(entrypoint_path(name@)) ==> r is Ok && final(self)@ == old(self)@,
            r is Err ==> final(self)@ == old(self)@ && r matches Err(InitramfsError::InputOutput(_)),
            r is Ok && !old(self)@.dom().contains(entrypoint_path(name@)) ==> answered(
                *probe,
                path@,
                true,
            ) && exists|e: Entry|
                #[trigger] load.ensures((path,), Ok::<Entry, std::io::Error>(e)) && final(self)@ == old(self)@.insert(entrypoint_path(name@), e@),
            r matches Err(InitramfsError::InputOutput(_)) ==> answered(*probe, path@, false)
                || exists|err: std::io::Error| #[trigger] load.ensures((path,), Err::<Entry, std::io::Error>(err)),
    {
        let dest = VfsPath::root().join_component(name);
        assert(dest@ =~= entrypoint_path(name@));
        if self.vfs.contains(&dest) {
            return Ok(());
        }
        if !probe(path) {
            return Err(InitramfsError::InputOutput(not_found_error(&path.to_bytes())));
        }
        let entry = match load(path) {
            Ok(e) => e,
            Err(e) => {
                return Err(InitramfsError::InputOutput(e));
            },
        };
        let ghost ev = entry@;
        let r = self.vfs.create_entry(&dest, entry);
        assert(r is Ok);
        Ok(())
    }

    /// Add the init script from the provided path to the initramfs, as `/init`.
    pub fn add_init<P: Fn(&VfsPath) -> bool, L: Fn(&VfsPath) -> Result<Entry, std::io::Error>>(
        &mut self,
        path: &VfsPath,
        probe: &P,
        load: &L,
    ) -> (r: Result<(), InitramfsError>)
        requires
            old(self).wf(),
            forall|q: &VfsPath| #[trigger] probe.requires((q,)),
            forall|q: &VfsPath| #[trigger] load.requires((q,)),
        ensures
            final(self).wf(),
            old(self)@.dom().contains(init_path()) ==> r is Ok && final(self)@ == old(self)@,
            r is Err ==> final(self)@ == old(self)@ && r matches Err(InitramfsError::InputOutput(_)),
            r is Ok && !old(self)@.dom().contains(init_path()) ==> answered(*probe, path@, true)
                && exists|e: Entry|
                #[trigger] load.ensures((path,), Ok::<Entry, std::io::Error>(e)) && final(self)@
                    == old(self)@.insert(init_path(), e@),
    {
        let name = [105u8, 110, 105, 116];
        assert(name@ =~= seq![105u8, 110, 105, 116]);
        self.add_entrypoint(&name, path, probe, load)
    }

    /// Add the shutdown script, similar to init, as `/shutdown`.
    pub fn add_shutdown<P: Fn(&VfsPath) -> bool, L: Fn(&VfsPath) -> Result<Entry, std::io::Error>>(
        &mut self,
        path: &VfsPath,
        probe: &P,
        load: &L,
    ) -> (r: Result<(), InitramfsError>)
        requires
            old(self).wf(),
            forall|q: &VfsPath| #[trigger] probe.requires((q,)),
            forall|q: &VfsPath| #[trigger] load.requires((q,)),
        ensures
            final(self).wf(),
            old(self)@.dom().contains(shutdown_path()) ==> r is Ok && final(self)@ == old(self)@,
            r is Err ==> final(self)@ == old(self)@ && r matches Err(InitramfsError::InputOutput(_)),
            r is Ok && !old(self)@.dom().contains(shutdown_path()) ==> answered(*probe, path@, true)
                && exists|e: Entry|
                #[trigger] load.ensures((path,), Ok::<Entry, std::io::Error>(e)) && final(self)@
                    == old(self)@.insert(shutdown_path(), e@),
    {
        let name = [115u8, 104, 117, 116, 100, 111, 119, 110];
        assert(name@ =~= seq![115u8, 104, 117, 116, 100, 111, 119, 110]);
        self.add_entrypoint(&name, path, probe, load)
    }

    /// Copy the given sources into the directory `destination` of the
    /// initramfs: a directory's tree below it (`walk` gives the paths under a
    /// directory, relative to it, in the order of the walk, up to its first
    /// error, and that error), a file under its own name. Paths that the
    /// initramfs already holds are left as they are; what was copied before a
    /// failure stays.
    pub fn add_files<
        P: Fn(&VfsPath) -> bool,
        D: Fn(&VfsPath) -> Result<bool, std::io::Error>,
        W: Fn(&VfsPath) -> (Vec<VfsPath>, Option<walkdir::Error>),
        L: Fn(&VfsPath) -> Result<Entry, std::io::Error>,
    >(
        &mut self,
        sources: &Vec<VfsPath>,
        destination: &VfsPath,
        probe: &P,
        is_dir: &D,
        walk: &W,
        load: &L,
    ) -> (r: Result<(), InitramfsError>)
        requires
            old(self).wf(),
            forall|q: &VfsPath| #[trigger] probe.requires((q,)),
            forall|q: &VfsPath| #[trigger] is_dir.requires((q,)),
            forall|q: &VfsPath| #[trigger] walk.requires((q,)),
            forall|q: &VfsPath| #[trigger] load.requires((q,)),
        ensures
            final(self).wf(),
            grows(old(self)@, final(self)@),
            r is Ok ==> final(self)@.dom().contains(destination@),
            r is Ok ==> forall|k: int|
                0 <= k < sources@.len() ==> answered(*probe, #[trigger] sources@[k]@, true),
            r is Ok ==> forall|k: int|
                0 <= k < sources@.len() ==> #[trigger] source_placed(
                    *is_dir,
                    *walk,
                    final(self)@,
                    destination@,
                    sources@[k],
                ),
            create_dir_all_spec(old(self)@, destination@).1 is Err ==> final(self)@ == create_dir_all_spec(
                old(self)@,
                destination@,
            ).0 && match r {
                Err(InitramfsError::Vfs(f)) => create_dir_all_spec(old(self)@, destination@).1 == Err::<
                    (),
                    VfsFault,
                >(f@),
                _ => false,
            },
            create_dir_all_spec(old(self)@, destination@).1 is Ok && r is Err ==> exists|k: int|
                #![trigger sources@[k]]
                0 <= k < sources@.len() && (forall|kk: int|
                    0 <= kk < k ==> answered(*probe, #[trigger] sources@[kk]@, true)) && match r {
                    Err(InitramfsError::InputOutput(_)) => source_unreadable(
                        *probe,
                        *is_dir,
                        *walk,
                        *load,
                        sources@[k],
                    ),
                    Err(InitramfsError::Walk(_)) => source_walk_failed(
                        *is_dir,
                        *walk,
                        final(self)@,
                        destination@,
                        sources@[k],
                    ),
                    _ => false,
                } && forall|kk: int|
                    0 <= kk < k ==> #[trigger] source_placed(
                        *is_dir,
                        *walk,
                        final(self)@,
                        destination@,
                        sources@[kk],
                    ),
            keeps_plain(old(self)@, final(self)@),
            agrees_on(create_dir_all_spec(old(self)@, destination@).0, final(self)@),
            new_entries_from(
                *is_dir,
                *walk,
                *load,
                destination@,
                sources@,
                sources@.len() as int,
                create_dir_all_spec(old(self)@, destination@).0,
                final(self)@,
            ),
    {
        let ghost m0 = self.vfs@;
        let ghost md = create_dir_all_spec(m0, destination@).0;
        proof {
            assert forall|q: PathView|
                m0.dom().contains(q) && #[trigger] crate::vfs::is_plain_kind(m0[q]) implies md.dom().contains(q)
                && md[q] == m0[q] by {
                crate::vfs::lemma_create_dir_all_keeps(m0, destination@, q);
            }
        }
        proof {
            lemma_steps_grow(m0, destination@, directory_entry());
        }
        let r0 = self.vfs.create_dir_all(destination);
        if r0.is_err() {
            return lift(r0);
        }
        proof {
            crate::vfs::lemma_create_dir_all_ok(m0, destination@);
        }
        let mut i: usize = 0;
        while i < sources.len()
            invariant
                self.wf(),
                i <= sources@.len(),
                grows(m0, self@),
                m0 == old(self)@,
                create_dir_all_spec(m0, destination@).1 is Ok,
                md == create_dir_all_spec(m0, destination@).0,
                keeps_plain(m0, md),
                keeps_plain(m0, self@),
                agrees_on(md, self@),
                new_entries_from(*is_dir, *walk, *load, destination@, sources@, i as int, md, self@),
                self@.dom().contains(destination@),
                forall|q: &VfsPath| #[trigger] probe.requires((q,)),
                forall|q: &VfsPath| #[trigger] is_dir.requires((q,)),
                forall|q: &VfsPath| #[trigger] walk.requires((q,)),
                forall|q: &VfsPath| #[trigger] load.requires((q,)),
                forall|k: int| 0 <= k < i ==> answered(*probe, #[trigger] sources@[k]@, true),
                forall|k: int|
                    0 <= k < i ==> #[trigger] source_placed(*is_dir, *walk, self@, destination@, sources@[k]),
            decreases sources@.len() - i,
        {
            let ghost mi = self.vfs@;
            proof {
                lemma_new_entries_more(*is_dir, *walk, *load, destination@, sources@, i as int, i + 1, md, self@);
            }
            let source = &sources[i];
            if !probe(source) {
                assert(source_unreadable(*probe, *is_dir, *walk, *load, sources@[i as int]));
                return Err(InitramfsError::InputOutput(not_found_error(&source.to_bytes())));
            }
            assert(answered(*probe, sources@[i as int]@, true));
            let dir = match is_dir(source) {
                Ok(b) => b,
                Err(e) => {
                    assert(source_unreadable(*probe, *is_dir, *walk, *load, sources@[i as int]));
                    return Err(InitramfsError::InputOutput(e));
                },
            };
            if dir {
                let (found, failure) = walk(source);
                let mut j: usize = 0;
                while j < found.len()
                    invariant
                        self.wf(),
                        j <= found@.len(),
                        grows(m0, self@),
                        grows(mi, self@),
                        m0 == old(self)@,
                        create_dir_all_spec(m0, destination@).1 is Ok,
                        md == create_dir_all_spec(m0, destination@).0,
                        keeps_plain(m0, md),
                        keeps_plain(m0, self@),
                        agrees_on(md, self@),
                        new_entries_from(*is_dir, *walk, *load, destination@, sources@, i + 1, md, self@),
                        forall|kk: int|
                            0 <= kk < i ==> #[trigger] source_placed(*is_dir, *walk, self@, destination@, sources@[kk]),
                        self@.dom().contains(destination@),
                        i < sources@.len(),
                        *source == sources@[i as int],
                        is_dir.ensures((source,), Ok::<bool, std::io::Error>(true)),
                        walk.ensures((source,), (found, failure)),
                        forall|kk: int| 0 <= kk < i ==> answered(*probe, #[trigger] sources@[kk]@, true),
                        forall|q: &VfsPath| #[trigger] load.requires((q,)),
                        forall|jj: int|
                            0 <= jj < j ==> self@.dom().contains(#[trigger] join_of(destination@, found@[jj]@)),
                    decreases found@.len() - j,
                {
                    let path = destination.join(&found[j]);
                    if !self.vfs.contains(&path) {
                        let from = source.join(&found[j]);
                        let entry = match load(&from) {
                            Ok(e) => e,
                            Err(e) => {
                                assert(source_unreadable(*probe, *is_dir, *walk, *load, sources@[i as int])) by {
                                    let jw: int = j as int;
                                    assert(found@[jw] == found@[jw]);
                                }
                                return Err(InitramfsError::InputOutput(e));
                            },
                        };
                        let ghost m1 = self.vfs@;
                        let ghost ev = entry@;
                        proof {
                            lemma_steps_grow(m1, path@, entry@);
                            lemma_grows_trans(m0, m1, create_entry_spec(m1, path@, entry@).0);
                            lemma_grows_trans(mi, m1, create_entry_spec(m1, path@, entry@).0);
                            assert(loaded(*load, from@, ev));
                        }
                        let r = self.vfs.create_entry(&path, entry);
                        if r.is_err() {
                            return lift(r);
                        }
                        proof {
                            assert(self@ == m1.insert(path@, ev));
                            assert(placed_from(*is_dir, *walk, *load, destination@, sources@[i as int], path@, ev)) by {
                                let jw: int = j as int;
                                assert(found@[jw] == found@[jw]);
                            }
                            lemma_insert_new_entry(*is_dir, *walk, *load, destination@, sources@, i + 1, md, m1, m0, path@, ev, i as int);
                            assert forall|kk: int| 0 <= kk < i implies #[trigger] source_placed(
                                *is_dir,
                                *walk,
                                self@,
                                destination@,
                                sources@[kk],
                            ) by {
                                lemma_placed_grows(*is_dir, *walk, m1, self@, destination@, sources@[kk]);
                            }
                        }
                    }
                    j = j + 1;
                }
                if let Some(e) = failure {
                    assert(source_walk_failed(*is_dir, *walk, self@, destination@, sources@[i as int]));
                    return Err(InitramfsError::Walk(e));
                }
                assert(source_placed(*is_dir, *walk, self@, destination@, sources@[i as int]));
            } else {
                match source.file_name() {
                    None => {
                        assert(source_unreadable(*probe, *is_dir, *walk, *load, sources@[i as int]));
                        return Err(InitramfsError::InputOutput(not_found_error(&source.to_bytes())));
                    },
                    Some(name) => {
                        let mut names: Vec<Vec<u8>> = Vec::new();
                        names.push(name.clone());
                        assert(names@.map_values(|c: Vec<u8>| c@) =~= seq![name@]);
                        let path = destination.join(&VfsPath::new(false, names));
                        if !self.vfs.contains(&path) {
                            let entry = match load(source) {
                                Ok(e) => e,
                                Err(e) => {
                                    assert(source_unreadable(*probe, *is_dir, *walk, *load, sources@[i as int]));
                                    return Err(InitramfsError::InputOutput(e));
                                },
                            };
                            let ghost m1 = self.vfs@;
                            let ghost ev = entry@;
                            proof {
                                lemma_steps_grow(m1, path@, entry@);
                                lemma_grows_trans(mi, m1, create_entry_spec(m1, path@, entry@).0);
                                lemma_grows_trans(m0, m1, create_entry_spec(m1, path@, entry@).0);
                                assert(loaded(*load, source@, ev));
                            }
                            let r = self.vfs.create_entry(&path, entry);
                            if r.is_err() {
                                return lift(r);
                            }
                            proof {
                                assert(self@ == m1.insert(path@, ev));
                                assert(placed_from(*is_dir, *walk, *load, destination@, sources@[i as int], path@, ev));
                                lemma_insert_new_entry(*is_dir, *walk, *load, destination@, sources@, i + 1, md, m1, m0, path@, ev, i as int);
                            }
                        }
                        assert(source_placed(*is_dir, *walk, self@, destination@, sources@[i as int]));
                    },
                }
            }
            proof {
                assert forall|k: int| 0 <= k < i implies #[trigger] source_placed(
                    *is_dir,
                    *walk,
                    self@,
                    destination@,
                    sources@[k],
                ) by {
                    lemma_placed_grows(*is_dir, *walk, mi, self@, destination@, sources@[k]);
                }
            }
            i = i + 1;
        }
        Ok(())
    }

    /// Add an ELF binary to the initramfs (a relative path is searched in the
    /// binary search paths), unless the initramfs already holds it: its parent
    /// directories, then the file loaded from the host. Gives the libraries
    /// that it links, which are to be added the same way next (none where it
    /// was there already).
    pub fn add_elf<
        P: Fn(&VfsPath) -> bool,
        L: Fn(&VfsPath) -> Result<Entry, std::io::Error>,
        R: Fn(&VfsPath) -> Result<Vec<u8>, std::io::Error>,
    >(&mut self, path: &VfsPath, probe: &P, load: &L, read: &R) -> (r: Result<
        Vec<VfsPath>,
        InitramfsError,
    >)
        requires
            old(self).wf(),
            forall|q: &VfsPath| #[trigger] probe.requires((q,)),
            forall|q: &VfsPath| #[trigger] load.requires((q,)),
            forall|q: &VfsPath| #[trigger] read.requires((q,)),
        ensures
            final(self).wf(),
            grows(old(self)@, final(self)@),
            r matches Err(InitramfsError::Elf(ElfError::BinaryNotFound(q))) ==> q@ == path@
                && !path@.absolute && found_nowhere(*probe, binary_search_paths(), path@)
                && final(self)@ == old(self)@,
            !(r matches Err(InitramfsError::Elf(ElfError::BinaryNotFound(_)))) ==> exists|
                p: PathView,
            |
                #[trigger] elf_location(*probe, path@, p) && elf_added_at(
                    *probe,
                    *load,
                    *read,
                    p,
                    old(self)@,
                    final(self)@,
                    r,
                ),
    {
        let resolved = if !path.is_absolute() {
            match Elf::find_binary(path, probe) {
                Ok(p) => p,
                Err(e) => {
                    return Err(InitramfsError::Elf(e));
                },
            }
        } else {
            path.duplicate()
        };
        assert(elf_location(*probe, path@, resolved@));
        if self.vfs.contains(&resolved) {
            return Ok(Vec::new());
        }
        let ghost m0 = self.vfs@;
        if let Some(parent) = resolved.parent() {
            proof {
                lemma_steps_grow(m0, parent@, directory_entry());
                crate::vfs::lemma_create_dir_all_shorter(m0, parent@, resolved@);
            }
            let r = self.vfs.create_dir_all(&parent);
            if r.is_err() {
                return Err(lift(r).unwrap_err());
            }
        }
        let ghost m1 = self.vfs@;
        if !probe(&resolved) {
            return Err(InitramfsError::InputOutput(not_found_error(&resolved.to_bytes())));
        }
        let entry = match load(&resolved) {
            Ok(e) => e,
            Err(e) => {
                return Err(InitramfsError::InputOutput(e));
            },
        };
        assert(loaded(*load, resolved@, entry@));
        proof {
            lemma_steps_grow(m1, resolved@, entry@);
            lemma_grows_trans(m0, m1, create_entry_spec(m1, resolved@, entry@).0);
        }
        let r = self.vfs.create_entry(&resolved, entry);
        if r.is_err() {
            return Err(lift(r).unwrap_err());
        }
        let data = match read(&resolved) {
            Ok(d) => d,
            Err(e) => {
                return Err(InitramfsError::InputOutput(e));
            },
        };
        assert(read_gives(*read, resolved@, data@));
        match Elf::linked_libraries(data.as_slice(), probe) {
            Ok(deps) => Ok(deps),
            Err(e) => Err(InitramfsError::Elf(e)),
        }
    }

    /// Add the file of a kernel module, found on the host at `host_path`
    /// (`None` for a module built into the kernel, which needs nothing), at
    /// its install path for the given kernel release, unless the initramfs
    /// already holds it: its parent directories, then its contents read from
    /// the host and uncompressed. The modules it depends on are added before
    /// it, the same way.
    pub fn add_module_file<R: Fn(&VfsPath) -> Result<Vec<u8>, std::io::Error>>(
        &mut self,
        host_path: Option<&VfsPath>,
        kernel_release: &[u8],
        name: &[u8],
        read: &R,
    ) -> (r: Result<(), InitramfsError>)
        requires
            old(self).wf(),
            forall|q: &VfsPath| #[trigger] read.requires((q,)),
        ensures
            final(self).wf(),
            grows(old(self)@, final(self)@),
            host_path is None ==> r is Ok && final(self)@ == old(self)@,
            host_path matches Some(h) ==> module_file_outcome(
                *read,
                old(self)@,
                final(self)@,
                install_path_of(h@, kernel_release@, name@),
                h@,
                r,
            ),
    {
        let host = match host_path {
            None => {
                return Ok(());
            },
            Some(h) => h,
        };
        let path = match module_install_path(Some(host), kernel_release, name) {
            Ok(p) => p,
            Err(e) => {
                return Err(InitramfsError::Kmod(e));
            },
        };
        let ghost ip = path@;
        let ghost m0 = self.vfs@;
        if let Some(parent) = path.parent() {
            proof {
                lemma_steps_grow(m0, parent@, directory_entry());
                if !m0.dom().contains(ip) {
                    crate::vfs::lemma_create_dir_all_shorter(m0, parent@, ip);
                }
            }
            let r = self.vfs.create_dir_all(&parent);
            if r.is_err() {
                return Err(lift(r).unwrap_err());
            }
        }
        if self.vfs.contains(&path) {
            return Ok(());
        }
        let ghost m1 = self.vfs@;
        let compressed = match read(host) {
            Ok(d) => d,
            Err(e) => {
                assert(read_failed(*read, host@));
                return Err(InitramfsError::InputOutput(e));
            },
        };
        assert(read_gives(*read, host@, compressed@));
        let format = match ModuleFormat::from_bytes(compressed.as_slice()) {
            Ok(f) => f,
            Err(e) => {
                return Err(InitramfsError::Kmod(e));
            },
        };
        let data = match uncompress_module(compressed.as_slice(), &format) {
            Ok(d) => d,
            Err(e) => {
                return Err(e);
            },
        };
        let entry = Entry::file(data);
        proof {
            lemma_steps_grow(m1, ip, entry@);
            lemma_grows_trans(m0, m1, create_entry_spec(m1, ip, entry@).0);
        }
        let r = self.vfs.create_entry(&path, entry);
        if r.is_err() {
            return Err(lift(r).unwrap_err());
        }
        Ok(())
    }

    /// Add the file of a systemd unit, unless the initramfs already holds it:
    /// its parent directories, then the file. The binaries that the unit runs
    /// are added next, then it is installed, then the units it requires are
    /// added the same way.
    pub fn add_unit_file(&mut self, unit: &Unit) -> (r: Result<(), InitramfsError>)
        requires
            old(self).wf(),
        ensures
            final(self).wf(),
            final(self)@ == add_unit_file_spec(old(self)@, unit.path@, unit.data@).0,
            vfs_outcome(r, add_unit_file_spec(old(self)@, unit.path@, unit.data@).1),
            grows(old(self)@, final(self)@),
    {
        if self.vfs.contains(&unit.path) {
            return Ok(());
        }
        let ghost m0 = self.vfs@;
        let entry = Entry::file(unit.data.clone());
        assert(entry@ == file_entry(unit.data@));
        if let Some(parent) = unit.path.parent() {
            proof {
                lemma_steps_grow(m0, parent@, entry@);
            }
            let r = self.vfs.create_dir_all(&parent);
            if r.is_err() {
                return lift(r);
            }
        }
        let ghost m1 = self.vfs@;
        proof {
            lemma_steps_grow(m1, unit.path@, entry@);
            if parent_of(unit.path@) is Some {
                lemma_grows_trans(m0, m1, create_entry_spec(m1, unit.path@, entry@).0);
            }
        }
        lift(self.vfs.create_entry(&unit.path, entry))
    }

    /// Install the systemd unit `name`: where it has an install path, a
    /// symlink there to `../name`.
    pub fn install_unit(&mut self, unit: &Unit, name: &str) -> (r: Result<(), InitramfsError>)
        requires
            old(self).wf(),
        ensures
            final(self).wf(),
            grows(old(self)@, final(self)@),
            match unit.install_path {
                None => r is Ok && final(self)@ == old(self)@,
                Some(p) => final(self)@ == add_symlink_spec(old(self)@, p@, unit_link_target(name@)).0
                    && vfs_outcome(r, add_symlink_spec(old(self)@, p@, unit_link_target(name@)).1),
            },
    {
        match &unit.install_path {
            None => Ok(()),
            Some(p) => {
                let mut up: Vec<Vec<u8>> = Vec::new();
                up.push(vec![46u8, 46]);
                let parent = VfsPath::new(false, up);
                assert(parent@ =~~= PathView { absolute: false, components: seq![seq![46u8, 46]] });
                let target = parent.join(&VfsPath::from_bytes(name.as_bytes()));
                self.add_symlink(p, &target)
            },
        }
    }

    /// Whether the initramfs holds an entry at `path`.
    pub fn contains(&self, path: &VfsPath) -> (b: bool)
        requires
            self.wf(),
        ensures
            b == self@.dom().contains(path@),
    {
        self.vfs.contains(path)
    }

    /// Return an archive from this initramfs: its entries in the order of their
    /// paths.
    pub fn into_archive(self) -> (a: Archive)
        requires
            self.wf(),
        ensures
            crate::vfs::seq_to_map(a@) == self@,
            crate::vfs::sorted_strict(a@),
    {
        Archive::from_vfs(self.vfs)
    }
}

} // verus!
