//! A simple virtual filesystem that backs archive generation, so that nothing
//! is copied on disk.

use crate::order::Cmp;
use crate::path::{
    lemma_path_order, parent_of, path_lt, prefix_of, render, root_path, PathView, VfsPath,
};
use vstd::prelude::*;

verus! {

/// Mode of the directories that the filesystem creates.
pub const DIRECTORY_MODE: u32 = 0o040_755;

/// Mode of the regular files that the filesystem creates.
pub const FILE_MODE: u32 = 0o100_644;

/// Mode of the symbolic links that the filesystem creates.
pub const SYMLINK_MODE: u32 = 0o120_000;

/// Metadata of a filesystem entry.
#[derive(Clone, Copy, PartialEq, Eq, Structural, Debug)]
pub struct Metadata {
    /// Mode of the entry.
    pub mode: u32,
    /// User id of the entry.
    pub uid: u64,
    /// Group id of the entry.
    pub gid: u64,
    /// Number of links to the entry.
    pub nlink: u64,
    /// Modification time of the entry.
    pub mtime: u64,
    /// Device major number of the entry.
    pub dev_major: u64,
    /// Device minor number of the entry.
    pub dev_minor: u64,
    /// Rdev major number of the entry.
    pub rdev_major: u64,
    /// Rdev minor number of the entry.
    pub rdev_minor: u64,
}

/// Metadata with the given mode and every other field zero.
pub open spec fn metadata_with_mode(mode: u32) -> Metadata {
    Metadata {
        mode,
        uid: 0,
        gid: 0,
        nlink: 0,
        mtime: 0,
        dev_major: 0,
        dev_minor: 0,
        rdev_major: 0,
        rdev_minor: 0,
    }
}

fn metadata_of_mode(mode: u32) -> (m: Metadata)
    ensures
        m == metadata_with_mode(mode),
{
    Metadata {
        mode,
        uid: 0,
        gid: 0,
        nlink: 0,
        mtime: 0,
        dev_major: 0,
        dev_minor: 0,
        rdev_major: 0,
        rdev_minor: 0,
    }
}

impl Default for Metadata {
    fn default() -> (m: Metadata)
        ensures
            m == metadata_with_mode(0),
    {
        metadata_of_mode(0)
    }
}

/// An entry of the filesystem.
#[derive(Clone, PartialEq, Default, Debug)]
pub struct Entry {
    /// Metadata for the entry.
    pub metadata: Metadata,
    /// Data if the entry is a regular file or a symlink.
    pub data: Option<Vec<u8>>,
}

/// The abstract value of an entry.
pub struct EntryView {
    pub metadata: Metadata,
    pub data: Option<Seq<u8>>,
}

impl View for Entry {
    type V = EntryView;

    open spec fn view(&self) -> EntryView {
        EntryView {
            metadata: self.metadata,
            data: match self.data {
                Some(d) => Some(d@),
                None => None,
            },
        }
    }
}

pub open spec fn directory_entry() -> EntryView {
    EntryView { metadata: metadata_with_mode(DIRECTORY_MODE), data: None }
}

pub open spec fn file_entry(data: Seq<u8>) -> EntryView {
    EntryView { metadata: metadata_with_mode(FILE_MODE), data: Some(data) }
}

pub open spec fn symlink_entry(target: PathView) -> EntryView {
    EntryView { metadata: metadata_with_mode(SYMLINK_MODE), data: Some(render(target)) }
}

pub open spec fn is_dir_entry(e: EntryView) -> bool {
    e.metadata.mode == DIRECTORY_MODE
}

pub open spec fn is_file_entry(e: EntryView) -> bool {
    e.metadata.mode == FILE_MODE
}

pub open spec fn is_symlink_entry(e: EntryView) -> bool {
    e.metadata.mode == SYMLINK_MODE
}

/// The device major number of a device id, as glibc splits it.
pub open spec fn spec_major(dev: u64) -> u64 {
    ((dev >> 32u64) & 0xffff_f000u64) | ((dev >> 8u64) & 0x0000_0fffu64)
}

/// The device minor number of a device id, as glibc splits it.
pub open spec fn spec_minor(dev: u64) -> u64 {
    ((dev >> 12u64) & 0xffff_ff00u64) | (dev & 0x0000_00ffu64)
}

/// The device major number of a device id.
pub fn major(dev: u64) -> (r: u64)
    ensures
        r == spec_major(dev),
        r < 0x1_0000_0000,
{
    let r = ((dev >> 32u64) & 0xffff_f000u64) | ((dev >> 8u64) & 0x0000_0fffu64);
    assert(r < 0x1_0000_0000) by (bit_vector)
        requires
            r == ((dev >> 32u64) & 0xffff_f000u64) | ((dev >> 8u64) & 0x0000_0fffu64),
    ;
    r
}

/// The device minor number of a device id.
pub fn minor(dev: u64) -> (r: u64)
    ensures
        r == spec_minor(dev),
        r < 0x1_0000_0000,
{
    let r = ((dev >> 12u64) & 0xffff_ff00u64) | (dev & 0x0000_00ffu64);
    assert(r < 0x1_0000_0000) by (bit_vector)
        requires
            r == ((dev >> 12u64) & 0xffff_ff00u64) | (dev & 0x0000_00ffu64),
    ;
    r
}

impl Entry {
    /// An entry representing a directory.
    pub fn directory() -> (e: Entry)
        ensures
            e@ == directory_entry(),
    {
        Entry { metadata: metadata_of_mode(DIRECTORY_MODE), data: None }
    }

    /// An entry representing a regular file with the given contents.
    pub fn file(data: Vec<u8>) -> (e: Entry)
        ensures
            e@ == file_entry(data@),
    {
        Entry { metadata: metadata_of_mode(FILE_MODE), data: Some(data) }
    }

    /// An entry representing a symlink to `target`.
    pub fn symlink(target: &VfsPath) -> (e: Entry)
        ensures
            e@ == symlink_entry(target@),
    {
        Entry { metadata: metadata_of_mode(SYMLINK_MODE), data: Some(target.to_bytes()) }
    }

    /// An entry for a file of the host, from its raw metadata: its mode, its
    /// modification time, its `rdev` device id and, unless it is a directory,
    /// its contents.
    pub fn from_host(mode: u32, mtime: i64, rdev: u64, data: Option<Vec<u8>>) -> (e: Entry)
        requires
            mtime >= 0,
        ensures
            e.metadata == (Metadata {
                mode,
                mtime: mtime as u64,
                rdev_major: spec_major(rdev),
                rdev_minor: spec_minor(rdev),
                ..metadata_with_mode(mode)
            }),
            e@.data == (match data {
                Some(d) => Some(d@),
                None => None,
            }),
    {
        let mut metadata = metadata_of_mode(mode);
        metadata.mtime = mtime as u64;
        metadata.rdev_major = major(rdev);
        metadata.rdev_minor = minor(rdev);
        Entry { metadata, data }
    }

    /// Whether the entry is a directory.
    pub fn is_dir(&self) -> (b: bool)
        ensures
            b == is_dir_entry(self@),
    {
        self.metadata.mode == DIRECTORY_MODE
    }

    /// Whether the entry is a regular file.
    pub fn is_file(&self) -> (b: bool)
        ensures
            b == is_file_entry(self@),
    {
        self.metadata.mode == FILE_MODE
    }

    /// Whether the entry is a symlink.
    pub fn is_symlink(&self) -> (b: bool)
        ensures
            b == is_symlink_entry(self@),
    {
        self.metadata.mode == SYMLINK_MODE
    }
}

/// The map that a sequence of (path, entry) pairs describes.
pub open spec fn seq_to_map(s: Seq<(PathView, EntryView)>) -> Map<PathView, EntryView> {
    Map::new(
        |k: PathView| exists|i: int| 0 <= i < s.len() && #[trigger] s[i].0 == k,
        |k: PathView| s[choose|i: int| 0 <= i < s.len() && #[trigger] s[i].0 == k].1,
    )
}

/// The paths of the pairs strictly increase.
pub open spec fn sorted_strict(s: Seq<(PathView, EntryView)>) -> bool {
    forall|i: int, j: int| 0 <= i < j < s.len() ==> path_lt(#[trigger] s[i].0, #[trigger] s[j].0)
}

pub open spec fn keys_unique(s: Seq<(PathView, EntryView)>) -> bool {
    forall|i: int, j: int| 0 <= i < j < s.len() ==> #[trigger] s[i].0 != #[trigger] s[j].0
}

pub proof fn lemma_sorted_unique(s: Seq<(PathView, EntryView)>)
    requires
        sorted_strict(s),
    ensures
        keys_unique(s),
{
    lemma_path_order();
    assert forall|i: int, j: int| 0 <= i < j < s.len() implies #[trigger] s[i].0
        != #[trigger] s[j].0 by {
        assert(path_lt(s[i].0, s[j].0));
    }
}

pub proof fn lemma_seq_to_map_index(s: Seq<(PathView, EntryView)>, i: int)
    requires
        keys_unique(s),
        0 <= i < s.len(),
    ensures
        seq_to_map(s).dom().contains(s[i].0),
        seq_to_map(s)[s[i].0] == s[i].1,
{
    let k = s[i].0;
    assert(exists|j: int| 0 <= j < s.len() && #[trigger] s[j].0 == k);
    let j = choose|j: int| 0 <= j < s.len() && #[trigger] s[j].0 == k;
    if j != i {
        if j < i {
            assert(s[j].0 != s[i].0);
        } else {
            assert(s[i].0 != s[j].0);
        }
    }
}

pub proof fn lemma_seq_to_map_insert(
    s: Seq<(PathView, EntryView)>,
    idx: int,
    x: (PathView, EntryView),
)
    requires
        keys_unique(s),
        keys_unique(s.insert(idx, x)),
        0 <= idx <= s.len(),
    ensures
        seq_to_map(s.insert(idx, x)) =~= seq_to_map(s).insert(x.0, x.1),
{
    let s2 = s.insert(idx, x);
    assert forall|k: PathView| #[trigger] seq_to_map(s2).dom().contains(k) <==> seq_to_map(
        s,
    ).insert(x.0, x.1).dom().contains(k) by {
        if seq_to_map(s2).dom().contains(k) {
            let j = choose|j: int| 0 <= j < s2.len() && #[trigger] s2[j].0 == k;
            if j < idx {
                assert(s[j].0 == k);
            } else if j > idx {
                assert(s[j - 1].0 == k);
            }
        }
        if seq_to_map(s).dom().contains(k) {
            let j = choose|j: int| 0 <= j < s.len() && #[trigger] s[j].0 == k;
            if j < idx {
                assert(s2[j].0 == k);
            } else {
                assert(s2[j + 1].0 == k);
            }
        }
        if k == x.0 {
            assert(s2[idx].0 == k);
        }
    }
    assert forall|k: PathView| #[trigger] seq_to_map(s2).dom().contains(k) implies seq_to_map(
        s2,
    )[k] == seq_to_map(s).insert(x.0, x.1)[k] by {
        if k == x.0 {
            lemma_seq_to_map_index(s2, idx);
        } else {
            let j = choose|j: int| 0 <= j < s2.len() && #[trigger] s2[j].0 == k;
            lemma_seq_to_map_index(s2, j);
            if j < idx {
                lemma_seq_to_map_index(s, j);
            } else {
                assert(j != idx);
                lemma_seq_to_map_index(s, j - 1);
            }
        }
    }
}

pub proof fn lemma_seq_to_map_update(
    s: Seq<(PathView, EntryView)>,
    idx: int,
    x: (PathView, EntryView),
)
    requires
        keys_unique(s),
        0 <= idx < s.len(),
        s[idx].0 == x.0,
    ensures
        keys_unique(s.update(idx, x)),
        seq_to_map(s.update(idx, x)) =~= seq_to_map(s).insert(x.0, x.1),
{
    let s2 = s.update(idx, x);
    assert(keys_unique(s2)) by {
        assert forall|i: int, j: int| 0 <= i < j < s2.len() implies #[trigger] s2[i].0
            != #[trigger] s2[j].0 by {
            assert(s[i].0 != s[j].0);
        }
    }
    assert forall|k: PathView| #[trigger] seq_to_map(s2).dom().contains(k) <==> seq_to_map(
        s,
    ).insert(x.0, x.1).dom().contains(k) by {
        if seq_to_map(s2).dom().contains(k) {
            let j = choose|j: int| 0 <= j < s2.len() && #[trigger] s2[j].0 == k;
            assert(s[j].0 == k);
        }
        if seq_to_map(s).dom().contains(k) {
            let j = choose|j: int| 0 <= j < s.len() && #[trigger] s[j].0 == k;
            assert(s2[j].0 == k);
        }
        if k == x.0 {
            assert(s2[idx].0 == k);
        }
    }
    assert forall|k: PathView| #[trigger] seq_to_map(s2).dom().contains(k) implies seq_to_map(
        s2,
    )[k] == seq_to_map(s).insert(x.0, x.1)[k] by {
        let j = choose|j: int| 0 <= j < s2.len() && #[trigger] s2[j].0 == k;
        lemma_seq_to_map_index(s2, j);
        if j != idx {
            lemma_seq_to_map_index(s, j);
        }
    }
}

/// Why an operation on the filesystem failed.
pub enum VfsFault {
    NoSuchFileOrDirectory(PathView),
    NotADirectory(PathView),
    FileExists(PathView),
}

/// Error returned by the filesystem.
#[derive(Debug)]
pub enum VfsError {
    NoSuchFileOrDirectory(VfsPath),
    NotADirectory(VfsPath),
    FileExists(VfsPath),
}

impl View for VfsError {
    type V = VfsFault;

    open spec fn view(&self) -> VfsFault {
        match self {
            VfsError::NoSuchFileOrDirectory(p) => VfsFault::NoSuchFileOrDirectory(p@),
            VfsError::NotADirectory(p) => VfsFault::NotADirectory(p@),
            VfsError::FileExists(p) => VfsFault::FileExists(p@),
        }
    }
}

/// The contents of a filesystem: each path and its entry.
pub type VfsMap = Map<PathView, EntryView>;

pub open spec fn holds_dir(m: VfsMap, p: PathView) -> bool {
    m.dom().contains(p) && is_dir_entry(m[p])
}

pub open spec fn holds_file(m: VfsMap, p: PathView) -> bool {
    m.dom().contains(p) && is_file_entry(m[p])
}

/// The outcome of a result against the abstract outcome of an operation.
pub open spec fn outcome_matches(r: Result<(), VfsError>, o: Result<(), VfsFault>) -> bool {
    match (r, o) {
        (Ok(()), Ok(())) => true,
        (Err(e), Err(f)) => e@ == f,
        _ => false,
    }
}

/// Creating the directory `p`: its parent, if it has one, must exist and must
/// not be a regular file; an existing directory or symlink at `p` is kept,
/// an existing regular file is an error, and anything else is replaced by a
/// directory.
pub open spec fn create_dir_spec(m: VfsMap, p: PathView) -> (VfsMap, Result<(), VfsFault>) {
    let parent_fault = match parent_of(p) {
        Some(q) => if !m.dom().contains(q) {
            Some(VfsFault::NoSuchFileOrDirectory(q))
        } else if holds_file(m, q) {
            Some(VfsFault::NotADirectory(q))
        } else {
            None
        },
        None => None,
    };
    if let Some(f) = parent_fault {
        (m, Err(f))
    } else if m.dom().contains(p) && (is_dir_entry(m[p]) || is_symlink_entry(m[p])) {
        (m, Ok(()))
    } else if holds_file(m, p) {
        (m, Err(VfsFault::FileExists(p)))
    } else {
        (m.insert(p, directory_entry()), Ok(()))
    }
}

/// Creating the ancestors of `p` that have `k` components or more, top down,
/// up to `p` itself, stopping at the first failure.
pub open spec fn create_dir_chain(m: VfsMap, p: PathView, k: nat) -> (
    VfsMap,
    Result<(), VfsFault>,
)
    decreases p.components.len() + 1 - k,
{
    if k > p.components.len() {
        (m, Ok(()))
    } else {
        let (m1, r) = create_dir_spec(m, prefix_of(p, k as int));
        if r is Err {
            (m1, r)
        } else {
            create_dir_chain(m1, p, k + 1)
        }
    }
}

/// Creating `p` and all of its ancestors, unless `p` is already a directory.
pub open spec fn create_dir_all_spec(m: VfsMap, p: PathView) -> (VfsMap, Result<(), VfsFault>) {
    if holds_dir(m, p) {
        (m, Ok(()))
    } else {
        create_dir_chain(m, p, 0)
    }
}

/// Placing `e` at `p`, unless a regular file is there.
pub open spec fn create_entry_spec(m: VfsMap, p: PathView, e: EntryView) -> (
    VfsMap,
    Result<(), VfsFault>,
) {
    if holds_file(m, p) {
        (m, Err(VfsFault::FileExists(p)))
    } else {
        (m.insert(p, e), Ok(()))
    }
}

/// Virtual filesystem: entries held in the order of their paths.
pub struct Vfs {
    entries: Vec<(VfsPath, Entry)>,
}

pub open spec fn pair_view(e: (VfsPath, Entry)) -> (PathView, EntryView) {
    (e.0@, e.1@)
}

/// The abstract values of (path, entry) pairs.
pub open spec fn views(v: Seq<(VfsPath, Entry)>) -> Seq<(PathView, EntryView)> {
    v.map_values(|e: (VfsPath, Entry)| pair_view(e))
}

impl Vfs {
    /// The entries in the order of their paths.
    pub closed spec fn sorted_entries(&self) -> Seq<(PathView, EntryView)> {
        views(self.entries@)
    }

    /// The entries are held in the strict order of their paths.
    pub closed spec fn wf(&self) -> bool {
        sorted_strict(self.sorted_entries())
    }
}

impl View for Vfs {
    type V = VfsMap;

    open spec fn view(&self) -> VfsMap {
        seq_to_map(self.sorted_entries())
    }
}

impl Vfs {
    /// A filesystem with a single root directory `/`.
    pub fn new() -> (v: Vfs)
        ensures
            v.wf(),
            v@ == Map::<PathView, EntryView>::empty().insert(root_path(), directory_entry()),
    {
        let mut entries: Vec<(VfsPath, Entry)> = Vec::new();
        let root = VfsPath::root();
        let ghost rv = root@;
        entries.push((root, Entry::directory()));
        let v = Vfs { entries };
        assert(v.sorted_entries() =~= seq![(rv, directory_entry())]);
        proof {
            lemma_seq_to_map_index(v.sorted_entries(), 0);
            assert(v@ =~= Map::<PathView, EntryView>::empty().insert(rv, directory_entry()));
        }
        v
    }

    /// Where `path` is, or would be placed, among the entries.
    fn locate(&self, path: &VfsPath) -> (r: (usize, bool))
        requires
            self.wf(),
        ensures
            r.0 <= self.sorted_entries().len(),
            forall|i: int| 0 <= i < r.0 ==> path_lt(#[trigger] self.sorted_entries()[i].0, path@),
            r.1 ==> r.0 < self.sorted_entries().len() && self.sorted_entries()[r.0 as int].0
                == path@,
            !r.1 ==> r.0 == self.sorted_entries().len() || path_lt(
                path@,
                self.sorted_entries()[r.0 as int].0,
            ),
    {
        let mut i: usize = 0;
        while i < self.entries.len()
            invariant
                i <= self.entries@.len(),
                forall|j: int| 0 <= j < i ==> path_lt(#[trigger] self.sorted_entries()[j].0, path@),
            decreases self.entries@.len() - i,
        {
            assert(self.sorted_entries()[i as int].0 == self.entries@[i as int].0@);
            let c = crate::path::compare(&self.entries[i].0, path);
            if c == Cmp::Equal {
                return (i, true);
            } else if c == Cmp::Greater {
                return (i, false);
            }
            i = i + 1;
        }
        (i, false)
    }

    /// The entry at `path`, if there is one.
    pub fn get(&self, path: &VfsPath) -> (r: Option<&Entry>)
        requires
            self.wf(),
        ensures
            r matches Some(e) ==> self@.dom().contains(path@) && self@[path@] == e@,
            r is None ==> !self@.dom().contains(path@),
    {
        let (i, found) = self.locate(path);
        proof {
            lemma_sorted_unique(self.sorted_entries());
        }
        if found {
            proof {
                lemma_seq_to_map_index(self.sorted_entries(), i as int);
            }
            Some(&self.entries[i].1)
        } else {
            proof {
                lemma_path_order();
                if self@.dom().contains(path@) {
                    let s = self.sorted_entries();
                    let j = choose|j: int| 0 <= j < s.len() && #[trigger] s[j].0 == path@;
                    if j < i {
                        assert(path_lt(s[j].0, path@));
                    } else {
                        assert(path_lt(path@, s[i as int].0));
                        if j > i {
                            assert(path_lt(s[i as int].0, s[j].0));
                        }
                    }
                }
            }
            None
        }
    }

    /// Whether there is an entry at `path`.
    pub fn contains(&self, path: &VfsPath) -> (b: bool)
        requires
            self.wf(),
        ensures
            b == self@.dom().contains(path@),
    {
        self.get(path).is_some()
    }

    /// Whether there is a directory at `path`.
    pub fn contains_dir(&self, path: &VfsPath) -> (b: bool)
        requires
            self.wf(),
        ensures
            b == holds_dir(self@, path@),
    {
        match self.get(path) {
            Some(e) => e.is_dir(),
            None => false,
        }
    }

    /// Whether there is a regular file at `path`.
    pub fn contains_file(&self, path: &VfsPath) -> (b: bool)
        requires
            self.wf(),
        ensures
            b == holds_file(self@, path@),
    {
        match self.get(path) {
            Some(e) => e.is_file(),
            None => false,
        }
    }

    /// Place `entry` at `path`, replacing what was there.
    fn put(&mut self, path: VfsPath, entry: Entry)
        requires
            old(self).wf(),
        ensures
            final(self).wf(),
            final(self)@ == old(self)@.insert(path@, entry@),
    {
        let (i, found) = self.locate(&path);
        let ghost s = self.sorted_entries();
        let ghost x = (path@, entry@);
        proof {
            lemma_sorted_unique(s);
            lemma_path_order();
        }
        if found {
            self.entries.set(i, (path, entry));
            proof {
                assert(self.sorted_entries() =~= s.update(i as int, x));
                lemma_seq_to_map_update(s, i as int, x);
                assert forall|a: int, b: int|
                    0 <= a < b < self.sorted_entries().len() implies path_lt(
                    #[trigger] self.sorted_entries()[a].0,
                    #[trigger] self.sorted_entries()[b].0,
                ) by {
                    assert(path_lt(s[a].0, s[b].0));
                }
            }
        } else {
            self.entries.insert(i, (path, entry));
            proof {
                let s2 = s.insert(i as int, x);
                assert(self.sorted_entries() =~= s2);
                assert forall|a: int, b: int| 0 <= a < b < s2.len() implies path_lt(
                    #[trigger] s2[a].0,
                    #[trigger] s2[b].0,
                ) by {
                    if b < i {
                        assert(path_lt(s[a].0, s[b].0));
                    } else if b == i {
                        assert(path_lt(s[a].0, x.0));
                    } else if a < i {
                        assert(path_lt(s[a].0, x.0));
                        assert(path_lt(x.0, s[i as int].0));
                        if b - 1 > i {
                            assert(path_lt(s[i as int].0, s[b - 1].0));
                        }
                    } else if a == i {
                        assert(path_lt(x.0, s[i as int].0));
                        if b - 1 > i {
                            assert(path_lt(s[i as int].0, s[b - 1].0));
                        }
                    } else {
                        assert(path_lt(s[a - 1].0, s[b - 1].0));
                    }
                }
                lemma_sorted_unique(s2);
                lemma_seq_to_map_insert(s, i as int, x);
            }
        }
    }

    /// Create a directory at `path`.
    pub fn create_dir(&mut self, path: &VfsPath) -> (r: Result<(), VfsError>)
        requires
            old(self).wf(),
        ensures
            final(self).wf(),
            final(self)@ == create_dir_spec(old(self)@, path@).0,
            outcome_matches(r, create_dir_spec(old(self)@, path@).1),
    {
        if let Some(parent) = path.parent() {
            if !self.contains(&parent) {
                return Err(VfsError::NoSuchFileOrDirectory(parent));
            }
            if self.contains_file(&parent) {
                return Err(VfsError::NotADirectory(parent));
            }
        }
        if let Some(entry) = self.get(path) {
            if entry.is_dir() || entry.is_symlink() {
                return Ok(());
            }
            if entry.is_file() {
                return Err(VfsError::FileExists(path.duplicate()));
            }
        }
        self.put(path.duplicate(), Entry::directory());
        Ok(())
    }

    /// Create a directory at `path` and at each of its ancestors, top down.
    pub fn create_dir_all(&mut self, path: &VfsPath) -> (r: Result<(), VfsError>)
        requires
            old(self).wf(),
        ensures
            final(self).wf(),
            final(self)@ == create_dir_all_spec(old(self)@, path@).0,
            outcome_matches(r, create_dir_all_spec(old(self)@, path@).1),
    {
        if self.contains_dir(path) {
            return Ok(());
        }
        let n = path.num_components();
        let mut k: usize = 0;
        while k < n
            invariant
                n == path@.components.len(),
                k <= n,
                self.wf(),
                !holds_dir(old(self)@, path@),
                create_dir_chain(self@, path@, k as nat) == create_dir_chain(
                    old(self)@,
                    path@,
                    0,
                ),
            decreases n - k,
        {
            let dir = path.prefix(k);
            let ghost before = self@;
            let r = self.create_dir(&dir);
            assert(create_dir_chain(before, path@, k as nat) == (if r.is_err() {
                create_dir_spec(before, dir@)
            } else {
                create_dir_chain(self@, path@, (k + 1) as nat)
            }));
            if r.is_err() {
                return r;
            }
            k = k + 1;
        }
        let ghost before = self@;
        assert(prefix_of(path@, n as int) =~= path@);
        let r = self.create_dir(path);
        assert(create_dir_chain(self@, path@, (n + 1) as nat) == (self@, Ok::<(), VfsFault>(())));
        assert(create_dir_chain(before, path@, n as nat) == (if r.is_err() {
            create_dir_spec(before, path@)
        } else {
            create_dir_chain(self@, path@, (n + 1) as nat)
        }));
        r
    }

    /// Place `entry` at `path`, unless a regular file is there.
    pub fn create_entry(&mut self, path: &VfsPath, entry: Entry) -> (r: Result<(), VfsError>)
        requires
            old(self).wf(),
        ensures
            final(self).wf(),
            final(self)@ == create_entry_spec(old(self)@, path@, entry@).0,
            outcome_matches(r, create_entry_spec(old(self)@, path@, entry@).1),
    {
        if self.contains_file(path) {
            return Err(VfsError::FileExists(path.duplicate()));
        }
        self.put(path.duplicate(), entry);
        Ok(())
    }

    /// The entries, in the order of their paths.
    pub fn into_entries(self) -> (r: Vec<(VfsPath, Entry)>)
        requires
            self.wf(),
        ensures
            views(r@) == self.sorted_entries(),
            sorted_strict(self.sorted_entries()),
            seq_to_map(self.sorted_entries()) == self@,
    {
        self.entries
    }
}

/// Directories at the ancestors of `p` that have `from` components or more, up
/// to `p` itself.
pub open spec fn dirs_along(p: PathView, from: int) -> VfsMap {
    Map::new(
        |q: PathView| exists|j: int| from <= j <= p.components.len() && q == prefix_of(p, j),
        |q: PathView| directory_entry(),
    )
}

proof fn lemma_prefix_parent(p: PathView, k: int)
    requires
        1 <= k <= p.components.len(),
    ensures
        parent_of(prefix_of(p, k)) == Some(prefix_of(p, k - 1)),
{
    assert(p.components.take(k).drop_last() =~= p.components.take(k - 1));
}

/// Creating the directories along a path whose ancestors from the `k`-th on
/// are all missing, below an existing directory, succeeds and adds exactly
/// those directories.
pub proof fn lemma_create_dir_chain_fresh(m: VfsMap, p: PathView, k: nat)
    requires
        k <= p.components.len() + 1,
        k == 0 ==> holds_dir(m, prefix_of(p, 0)),
        k > 0 ==> holds_dir(m, prefix_of(p, k - 1)),
        forall|j: int| k <= j <= p.components.len() && j >= 1 ==> !m.dom().contains(
            #[trigger] prefix_of(p, j),
        ),
    ensures
        create_dir_chain(m, p, k).1 is Ok,
        create_dir_chain(m, p, k).0 == m.union_prefer_right(
            dirs_along(p, if k == 0 { 1 } else { k as int }),
        ),
    decreases p.components.len() + 1 - k,
{
    let n = p.components.len();
    if k > n {
        assert(m.union_prefer_right(dirs_along(p, k as int)) =~= m);
    } else if k == 0 {
        lemma_create_dir_chain_fresh(m, p, 1);
    } else {
        let q = prefix_of(p, k as int);
        lemma_prefix_parent(p, k as int);
        let m1 = m.insert(q, directory_entry());
        assert(create_dir_spec(m, q) == (m1, Ok::<(), VfsFault>(())));
        assert forall|j: int| k + 1 <= j <= n && j >= 1 implies !m1.dom().contains(
            #[trigger] prefix_of(p, j),
        ) by {
            assert(prefix_of(p, j).components.len() != q.components.len());
        }
        lemma_create_dir_chain_fresh(m1, p, k + 1);
        assert(m1.union_prefer_right(dirs_along(p, (k + 1) as int)) =~= m.union_prefer_right(
            dirs_along(p, k as int),
        )) by {
            assert forall|r: PathView| #[trigger] dirs_along(p, k as int).dom().contains(r)
                <==> r == q || dirs_along(p, (k + 1) as int).dom().contains(r) by {
                if dirs_along(p, k as int).dom().contains(r) {
                    let j = choose|j: int| k <= j <= n && r == prefix_of(p, j);
                    if j != k {
                        assert(k + 1 <= j <= n && r == prefix_of(p, j));
                    }
                }
                if r == q {
                    assert(k <= k <= n && r == prefix_of(p, k as int));
                }
                if dirs_along(p, (k + 1) as int).dom().contains(r) {
                    let j = choose|j: int| k + 1 <= j <= n && r == prefix_of(p, j);
                    assert(k <= j <= n && r == prefix_of(p, j));
                }
            }
        }
    }
}

/// A regular file in the filesystem is never replaced by creating a
/// directory, a tree of directories, or an entry.
pub proof fn lemma_files_kept(m: VfsMap, p: PathView, e: EntryView, q: PathView)
    requires
        holds_file(m, q),
    ensures
        create_dir_spec(m, p).0.dom().contains(q) && create_dir_spec(m, p).0[q] == m[q],
        create_dir_all_spec(m, p).0.dom().contains(q) && create_dir_all_spec(m, p).0[q] == m[q],
        create_entry_spec(m, p, e).0.dom().contains(q) && create_entry_spec(m, p, e).0[q] == m[q],
{
    lemma_files_kept_chain(m, p, 0, q);
}

proof fn lemma_files_kept_chain(m: VfsMap, p: PathView, k: nat, q: PathView)
    requires
        holds_file(m, q),
    ensures
        create_dir_chain(m, p, k).0.dom().contains(q),
        create_dir_chain(m, p, k).0[q] == m[q],
    decreases p.components.len() + 1 - k,
{
    if k <= p.components.len() {
        let (m1, r) = create_dir_spec(m, prefix_of(p, k as int));
        if r is Ok {
            lemma_files_kept_chain(m1, p, k + 1, q);
        }
    }
}

/// Creating directories or entries never removes a path from the filesystem.
pub proof fn lemma_paths_kept(m: VfsMap, p: PathView, e: EntryView)
    ensures
        m.dom().subset_of(create_dir_spec(m, p).0.dom()),
        m.dom().subset_of(create_dir_all_spec(m, p).0.dom()),
        m.dom().subset_of(create_entry_spec(m, p, e).0.dom()),
{
    lemma_paths_kept_chain(m, p, 0);
}

proof fn lemma_paths_kept_chain(m: VfsMap, p: PathView, k: nat)
    ensures
        m.dom().subset_of(create_dir_chain(m, p, k).0.dom()),
    decreases p.components.len() + 1 - k,
{
    if k <= p.components.len() {
        let (m1, r) = create_dir_spec(m, prefix_of(p, k as int));
        if r is Ok {
            lemma_paths_kept_chain(m1, p, k + 1);
        }
    }
}

/// After a successful `create_dir_all`, there is a directory or a symlink at
/// the path.
pub proof fn lemma_create_dir_all_ok(m: VfsMap, p: PathView)
    requires
        create_dir_all_spec(m, p).1 is Ok,
    ensures
        create_dir_all_spec(m, p).0.dom().contains(p),
        is_dir_entry(create_dir_all_spec(m, p).0[p]) || is_symlink_entry(
            create_dir_all_spec(m, p).0[p],
        ),
{
    if !holds_dir(m, p) {
        lemma_chain_ok_ends_at_path(m, p, 0);
    }
}

proof fn lemma_chain_ok_ends_at_path(m: VfsMap, p: PathView, k: nat)
    requires
        k <= p.components.len(),
        create_dir_chain(m, p, k).1 is Ok,
    ensures
        create_dir_chain(m, p, k).0.dom().contains(p),
        is_dir_entry(create_dir_chain(m, p, k).0[p]) || is_symlink_entry(
            create_dir_chain(m, p, k).0[p],
        ),
    decreases p.components.len() - k,
{
    let n = p.components.len();
    let (m1, r) = create_dir_spec(m, prefix_of(p, k as int));
    if k == n {
        assert(prefix_of(p, n as int) =~= p);
    } else {
        lemma_chain_ok_ends_at_path(m1, p, k + 1);
    }
}

/// Creating the directories along `p` adds no path with more components than
/// `p`.
pub proof fn lemma_create_dir_all_shorter(m: VfsMap, p: PathView, q: PathView)
    requires
        !m.dom().contains(q),
        q.components.len() > p.components.len(),
    ensures
        !create_dir_all_spec(m, p).0.dom().contains(q),
{
    lemma_chain_shorter(m, p, 0, q);
}

proof fn lemma_chain_shorter(m: VfsMap, p: PathView, k: nat, q: PathView)
    requires
        !m.dom().contains(q),
        q.components.len() > p.components.len(),
    ensures
        !create_dir_chain(m, p, k).0.dom().contains(q),
    decreases p.components.len() + 1 - k,
{
    if k <= p.components.len() {
        let d = prefix_of(p, k as int);
        assert(d.components.len() == k);
        let (m1, r) = create_dir_spec(m, d);
        assert(!m1.dom().contains(q));
        if r is Ok {
            lemma_chain_shorter(m1, p, k + 1, q);
        }
    }
}

/// Reading back what was placed: after a successful `create_entry`, the entry
/// at the path is the one given.
pub proof fn lemma_create_entry_reads_back(m: VfsMap, p: PathView, e: EntryView)
    requires
        create_entry_spec(m, p, e).1 is Ok,
    ensures
        create_entry_spec(m, p, e).0.dom().contains(p),
        create_entry_spec(m, p, e).0[p] == e,
{
}

/// There is a directory or a symlink at `q`.
pub open spec fn dir_like(m: VfsMap, q: PathView) -> bool {
    m.dom().contains(q) && (is_dir_entry(m[q]) || is_symlink_entry(m[q]))
}

proof fn lemma_chain_dir_like(m: VfsMap, p: PathView, k: nat)
    requires
        k <= p.components.len() + 1,
        create_dir_chain(m, p, k).1 is Ok,
    ensures
        forall|j: int|
            k <= j <= p.components.len() ==> dir_like(
                create_dir_chain(m, p, k).0,
                #[trigger] prefix_of(p, j),
            ),
        forall|q: PathView| #[trigger] dir_like(m, q) ==> dir_like(create_dir_chain(m, p, k).0, q),
    decreases p.components.len() + 1 - k,
{
    if k <= p.components.len() {
        let d = prefix_of(p, k as int);
        let (m1, r) = create_dir_spec(m, d);
        assert(dir_like(m1, d));
        assert forall|q: PathView| #[trigger] dir_like(m, q) implies dir_like(m1, q) by {
            if q == d {
            }
        }
        lemma_chain_dir_like(m1, p, k + 1);
    }
}

proof fn lemma_chain_again(m: VfsMap, p: PathView, k: nat)
    requires
        k <= p.components.len() + 1,
        forall|j: int|
            (if k == 0 { 0 } else { k - 1 }) <= j <= p.components.len() ==> dir_like(
                m,
                #[trigger] prefix_of(p, j),
            ),
    ensures
        create_dir_chain(m, p, k) == (m, Ok::<(), VfsFault>(())),
    decreases p.components.len() + 1 - k,
{
    if k <= p.components.len() {
        let d = prefix_of(p, k as int);
        if k > 0 {
            lemma_prefix_parent(p, k as int);
            assert(dir_like(m, prefix_of(p, k - 1)));
        } else {
            assert(d.components.len() == 0);
        }
        assert(dir_like(m, d));
        assert(create_dir_spec(m, d) == (m, Ok::<(), VfsFault>(())));
        lemma_chain_again(m, p, k + 1);
    }
}

/// The entry is a directory, a symlink or a regular file.
pub open spec fn is_plain_kind(e: EntryView) -> bool {
    is_dir_entry(e) || is_symlink_entry(e) || is_file_entry(e)
}

/// Creating a directory tree keeps every directory, symlink and regular file
/// that was there.
pub proof fn lemma_create_dir_all_keeps(m: VfsMap, p: PathView, q: PathView)
    requires
        m.dom().contains(q),
        is_plain_kind(m[q]),
    ensures
        create_dir_all_spec(m, p).0.dom().contains(q),
        create_dir_all_spec(m, p).0[q] == m[q],
{
    lemma_keeps_chain(m, p, 0, q);
}

proof fn lemma_keeps_chain(m: VfsMap, p: PathView, k: nat, q: PathView)
    requires
        m.dom().contains(q),
        is_plain_kind(m[q]),
    ensures
        create_dir_chain(m, p, k).0.dom().contains(q),
        create_dir_chain(m, p, k).0[q] == m[q],
    decreases p.components.len() + 1 - k,
{
    if k <= p.components.len() {
        let (m1, r) = create_dir_spec(m, prefix_of(p, k as int));
        if r is Ok {
            lemma_keeps_chain(m1, p, k + 1, q);
        }
    }
}

proof fn lemma_chain_every_ancestor(m: VfsMap, p: PathView, k: nat)
    requires
        k <= p.components.len(),
        create_dir_chain(m, p, k).1 is Ok,
    ensures
        forall|j: int|
            k <= j <= p.components.len() ==> #[trigger] create_dir_chain(m, p, k).0.dom().contains(
                prefix_of(p, j),
            ) && (is_dir_entry(create_dir_chain(m, p, k).0[prefix_of(p, j)]) || is_symlink_entry(
                create_dir_chain(m, p, k).0[prefix_of(p, j)],
            )),
    decreases p.components.len() - k,
{
    let d = prefix_of(p, k as int);
    let (m1, r) = create_dir_spec(m, d);
    assert(m1.dom().contains(d) && (is_dir_entry(m1[d]) || is_symlink_entry(m1[d])));
    if k < p.components.len() {
        lemma_chain_every_ancestor(m1, p, k + 1);
        lemma_keeps_chain(m1, p, k + 1, d);
    }
}

/// Where `p` is not a directory yet, a successful `create_dir_all` leaves a
/// directory or a symlink at every ancestor of `p`, from the root down, and
/// at `p` itself.
pub proof fn lemma_create_dir_all_ancestors(m: VfsMap, p: PathView)
    requires
        !holds_dir(m, p),
        create_dir_all_spec(m, p).1 is Ok,
    ensures
        forall|j: int|
            0 <= j <= p.components.len() ==> #[trigger] create_dir_all_spec(m, p).0.dom().contains(
                prefix_of(p, j),
            ) && (is_dir_entry(create_dir_all_spec(m, p).0[prefix_of(p, j)]) || is_symlink_entry(
                create_dir_all_spec(m, p).0[prefix_of(p, j)],
            )),
{
    assert(create_dir_all_spec(m, p) == create_dir_chain(m, p, 0));
    lemma_chain_every_ancestor(m, p, 0);
    assert forall|j: int| 0 <= j <= p.components.len() implies #[trigger] create_dir_all_spec(
        m,
        p,
    ).0.dom().contains(prefix_of(p, j)) && (is_dir_entry(create_dir_all_spec(m, p).0[prefix_of(p, j)])
        || is_symlink_entry(create_dir_all_spec(m, p).0[prefix_of(p, j)])) by {
        assert(create_dir_chain(m, p, 0).0.dom().contains(prefix_of(p, j)));
    }
}

proof fn lemma_chain_failure(m: VfsMap, p: PathView, k: nat)
    requires
        create_dir_chain(m, p, k).1 is Err,
    ensures
        exists|f: int|
            #![trigger prefix_of(p, f)]
            k <= f <= p.components.len() && (forall|j: int|
                k <= j < f ==> #[trigger] create_dir_chain(m, p, k).0.dom().contains(prefix_of(p, j)) && (
                is_dir_entry(create_dir_chain(m, p, k).0[prefix_of(p, j)]) || is_symlink_entry(
                    create_dir_chain(m, p, k).0[prefix_of(p, j)],
                ))) && create_dir_spec(create_dir_chain(m, p, k).0, prefix_of(p, f)) == create_dir_chain(
                m,
                p,
                k,
            ),
    decreases p.components.len() + 1 - k,
{
    let d = prefix_of(p, k as int);
    let (m1, r) = create_dir_spec(m, d);
    if r is Err {
        assert(create_dir_chain(m, p, k) == (m1, r));
        assert(m1 == m);
        let f = k as int;
        assert(create_dir_spec(create_dir_chain(m, p, k).0, prefix_of(p, f)) == create_dir_chain(m, p, k));
    } else {
        lemma_chain_failure(m1, p, k + 1);
        let f = choose|f: int|
            #![trigger prefix_of(p, f)]
            k + 1 <= f <= p.components.len() && (forall|j: int|
                k + 1 <= j < f ==> #[trigger] create_dir_chain(m1, p, k + 1).0.dom().contains(prefix_of(p, j)) && (
                is_dir_entry(create_dir_chain(m1, p, k + 1).0[prefix_of(p, j)]) || is_symlink_entry(
                    create_dir_chain(m1, p, k + 1).0[prefix_of(p, j)],
                ))) && create_dir_spec(create_dir_chain(m1, p, k + 1).0, prefix_of(p, f)) == create_dir_chain(
                m1,
                p,
                k + 1,
            );
        assert(m1.dom().contains(d) && (is_dir_entry(m1[d]) || is_symlink_entry(m1[d])));
        lemma_keeps_chain(m1, p, k + 1, d);
        assert(prefix_of(p, f) == prefix_of(p, f));
    }
}

/// When `create_dir_all` fails, it failed at the shallowest ancestor `p_f` of
/// `p` (from the root down) where creating a directory fails: every ancestor
/// above it is a directory or a symlink in what is left, nothing made before
/// the failure is undone, and the error is what creating `p_f` in what is
/// left gives.
pub proof fn lemma_create_dir_all_failure(m: VfsMap, p: PathView)
    requires
        create_dir_all_spec(m, p).1 is Err,
    ensures
        exists|f: int|
            #![trigger prefix_of(p, f)]
            0 <= f <= p.components.len() && (forall|j: int|
                0 <= j < f ==> #[trigger] create_dir_all_spec(m, p).0.dom().contains(prefix_of(p, j)) && (
                is_dir_entry(create_dir_all_spec(m, p).0[prefix_of(p, j)]) || is_symlink_entry(
                    create_dir_all_spec(m, p).0[prefix_of(p, j)],
                ))) && create_dir_spec(create_dir_all_spec(m, p).0, prefix_of(p, f)) == create_dir_all_spec(m, p),
{
    assert(create_dir_all_spec(m, p) == create_dir_chain(m, p, 0));
    lemma_chain_failure(m, p, 0);
}

/// Creating a directory tree a second time changes nothing and succeeds.
pub proof fn lemma_create_dir_all_idempotent(m: VfsMap, p: PathView)
    requires
        create_dir_all_spec(m, p).1 is Ok,
    ensures
        create_dir_all_spec(create_dir_all_spec(m, p).0, p) == (
            create_dir_all_spec(m, p).0,
            Ok::<(), VfsFault>(()),
        ),
{
    let m1 = create_dir_all_spec(m, p).0;
    if !holds_dir(m, p) && !holds_dir(m1, p) {
        lemma_chain_dir_like(m, p, 0);
        lemma_chain_again(m1, p, 0);
    }
}

} // verus!
