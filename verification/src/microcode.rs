//! Microcode bundles for early loading by the Linux kernel.
//!
//! The kernel looks for one blob per vendor under `/kernel/x86/microcode` in
//! an uncompressed cpio archive placed before the initramfs.

use crate::newc::Archive;
use crate::path::{root_path, PathView, VfsPath};
use crate::vfs::{
    directory_entry, dirs_along, file_entry, holds_dir,
    lemma_create_dir_chain_fresh, seq_to_map, sorted_strict, Entry, Vfs, VfsError, VfsMap,
};
use vstd::prelude::*;

verus! {

pub open spec fn kernel_name() -> Seq<u8> {
    seq![107u8, 101, 114, 110, 101, 108]
}

pub open spec fn x86_name() -> Seq<u8> {
    seq![120u8, 56, 54]
}

pub open spec fn microcode_name() -> Seq<u8> {
    seq![109u8, 105, 99, 114, 111, 99, 111, 100, 101]
}

/// `AuthenticAMD.bin`, the name of the AMD blob.
pub open spec fn amd_name() -> Seq<u8> {
    seq![65u8, 117, 116, 104, 101, 110, 116, 105, 99, 65, 77, 68, 46, 98, 105, 110]
}

/// `GenuineIntel.bin`, the name of the Intel blob.
pub open spec fn intel_name() -> Seq<u8> {
    seq![71u8, 101, 110, 117, 105, 110, 101, 73, 110, 116, 101, 108, 46, 98, 105, 110]
}

/// `/kernel/x86/microcode`, where the kernel looks for the blobs.
pub open spec fn ucode_tree() -> PathView {
    PathView { absolute: true, components: seq![kernel_name(), x86_name(), microcode_name()] }
}

/// `/kernel/x86/microcode/AuthenticAMD.bin`.
pub open spec fn amd_path() -> PathView {
    PathView { absolute: true, components: ucode_tree().components.push(amd_name()) }
}

/// `/kernel/x86/microcode/GenuineIntel.bin`.
pub open spec fn intel_path() -> PathView {
    PathView { absolute: true, components: ucode_tree().components.push(intel_name()) }
}

/// The filesystem of a new bundle: the root and the directories down to
/// `/kernel/x86/microcode`.
pub open spec fn empty_bundle_files() -> VfsMap {
    Map::<PathView, crate::vfs::EntryView>::empty().insert(
        root_path(),
        directory_entry(),
    ).union_prefer_right(dirs_along(ucode_tree(), 1))
}

fn ucode_tree_path() -> (p: VfsPath)
    ensures
        p@ == ucode_tree(),
{
    let p = VfsPath::root().join_component(&[107u8, 101, 114, 110, 101, 108]).join_component(
        &[120u8, 56, 54],
    ).join_component(&[109u8, 105, 99, 114, 111, 99, 111, 100, 101]);
    assert(p@.components =~= ucode_tree().components);
    p
}

/// Custom error type for microcode archive generation.
#[derive(Debug)]
pub enum MicrocodeError {
    InputOutput(std::io::Error),
    Vfs(VfsError),
}

/// The abstract value of a bundle.
pub struct MicrocodeView {
    /// Whether the AMD blob was added.
    pub amd: bool,
    /// Whether the Intel blob was added.
    pub intel: bool,
    /// The filesystem of the bundle.
    pub files: VfsMap,
}

/// Builder for a microcode bundle.
pub struct MicrocodeBundle {
    amd: bool,
    intel: bool,
    vfs: Vfs,
}

impl View for MicrocodeBundle {
    type V = MicrocodeView;

    closed spec fn view(&self) -> MicrocodeView {
        MicrocodeView { amd: self.amd, intel: self.intel, files: self.vfs@ }
    }
}

impl MicrocodeBundle {
    /// The filesystem is well formed, and a blob that was not added yet has no
    /// entry.
    pub closed spec fn wf(&self) -> bool {
        &&& self.vfs.wf()
        &&& !self.amd ==> !self.vfs@.dom().contains(amd_path())
        &&& !self.intel ==> !self.vfs@.dom().contains(intel_path())
    }

    /// A new bundle with the directories down to `/kernel/x86/microcode`.
    pub fn new() -> (r: Result<MicrocodeBundle, MicrocodeError>)
        ensures
            r matches Ok(b) && b.wf() && !b@.amd && !b@.intel && b@.files == empty_bundle_files(),
    {
        let mut vfs = Vfs::new();
        let tree = ucode_tree_path();
        proof {
            let m = vfs@;
            assert(crate::path::prefix_of(ucode_tree(), 0) =~= root_path());
            assert forall|j: int| 1 <= j <= 3 implies !m.dom().contains(
                #[trigger] crate::path::prefix_of(ucode_tree(), j),
            ) by {
                assert(crate::path::prefix_of(ucode_tree(), j).components.len() == j);
            }
            lemma_create_dir_chain_fresh(m, ucode_tree(), 0);
            assert(!holds_dir(m, ucode_tree()));
        }
        match vfs.create_dir_all(&tree) {
            Ok(()) => {},
            Err(e) => {
                return Err(MicrocodeError::Vfs(e));
            },
        }
        proof {
            assert(!vfs@.dom().contains(amd_path())) by {
                if vfs@.dom().contains(amd_path()) {
                    let j = choose|j: int|
                        1 <= j <= 3 && amd_path() == crate::path::prefix_of(ucode_tree(), j);
                    assert(amd_path().components.len() == 4);
                }
            }
            assert(!vfs@.dom().contains(intel_path())) by {
                if vfs@.dom().contains(intel_path()) {
                    let j = choose|j: int|
                        1 <= j <= 3 && intel_path() == crate::path::prefix_of(ucode_tree(), j);
                    assert(intel_path().components.len() == 4);
                }
            }
        }
        Ok(MicrocodeBundle { amd: false, intel: false, vfs })
    }

    /// Bundle the AMD blob, unless it was already added.
    pub fn add_amd_ucode(&mut self, data: Vec<u8>) -> (r: Result<(), MicrocodeError>)
        requires
            old(self).wf(),
        ensures
            r is Ok,
            final(self).wf(),
            old(self)@.amd ==> final(self)@ == old(self)@,
            !old(self)@.amd ==> final(self)@ == (MicrocodeView {
                amd: true,
                intel: old(self)@.intel,
                files: old(self)@.files.insert(amd_path(), file_entry(data@)),
            }),
    {
        if self.amd {
            return Ok(());
        }
        let path = ucode_tree_path().join_component(
            &[65u8, 117, 116, 104, 101, 110, 116, 105, 99, 65, 77, 68, 46, 98, 105, 110],
        );
        assert(path@ =~= amd_path());
        let entry = Entry::file(data);
        match self.vfs.create_entry(&path, entry) {
            Ok(()) => {},
            Err(e) => {
                return Err(MicrocodeError::Vfs(e));
            },
        }
        self.amd = true;
        assert(amd_path() != intel_path()) by {
            assert(amd_path().components[3] != intel_path().components[3]);
        }
        Ok(())
    }

    /// Bundle the Intel blob, unless it was already added.
    pub fn add_intel_ucode(&mut self, data: Vec<u8>) -> (r: Result<(), MicrocodeError>)
        requires
            old(self).wf(),
        ensures
            r is Ok,
            final(self).wf(),
            old(self)@.intel ==> final(self)@ == old(self)@,
            !old(self)@.intel ==> final(self)@ == (MicrocodeView {
                amd: old(self)@.amd,
                intel: true,
                files: old(self)@.files.insert(intel_path(), file_entry(data@)),
            }),
    {
        if self.intel {
            return Ok(());
        }
        let path = ucode_tree_path().join_component(
            &[71u8, 101, 110, 117, 105, 110, 101, 73, 110, 116, 101, 108, 46, 98, 105, 110],
        );
        assert(path@ =~= intel_path());
        let entry = Entry::file(data);
        match self.vfs.create_entry(&path, entry) {
            Ok(()) => {},
            Err(e) => {
                return Err(MicrocodeError::Vfs(e));
            },
        }
        self.intel = true;
        assert(amd_path() != intel_path()) by {
            assert(amd_path().components[3] != intel_path().components[3]);
        }
        Ok(())
    }

    /// The archive of this bundle: its entries in the order of their paths.
    pub fn into_archive(self) -> (a: Archive)
        requires
            self.wf(),
        ensures
            sorted_strict(a@),
            seq_to_map(a@) == self@.files,
    {
        Archive::from_vfs(self.vfs)
    }
}

/// The blobs of one vendor, one after another, as a single blob.
pub fn concat_blobs(blobs: &Vec<Vec<u8>>) -> (r: Vec<u8>)
    ensures
        r@ == blobs@.map_values(|b: Vec<u8>| b@).flatten(),
{
    let mut r: Vec<u8> = Vec::new();
    let mut i: usize = 0;
    while i < blobs.len()
        invariant
            i <= blobs@.len(),
            r@ == blobs@.map_values(|b: Vec<u8>| b@).take(i as int).flatten(),
        decreases blobs@.len() - i,
    {
        let ghost s = blobs@.map_values(|b: Vec<u8>| b@);
        proof {
            assert(s.take(i + 1) =~= s.take(i as int).push(s[i as int]));
            s.take(i as int).lemma_flatten_push(s[i as int]);
        }
        r.extend_from_slice(blobs[i].as_slice());
        i = i + 1;
    }
    assert(blobs@.map_values(|b: Vec<u8>| b@).take(i as int) =~= blobs@.map_values(
        |b: Vec<u8>| b@,
    ));
    r
}

} // verus!
