//! The newc cpio format, as loaded by the Linux kernel for an initramfs.
//!
//! Each entry is a header of the magic number and thirteen fields written as
//! at least eight lowercase hexadecimal digits, followed by the nul-terminated
//! file name, padding to a multiple of four bytes, the data, and padding again.
//! The archive ends with a `TRAILER!!!` entry.

use crate::order::Cmp;
use crate::path::{
    join_components, lemma_path_order, path_le, path_lt, root_path, PathView, VfsPath,
};
use crate::vfs::{directory_entry, pair_view, views, seq_to_map, sorted_strict, Entry, EntryView, Metadata, Vfs};
use vstd::prelude::*;

verus! {

/// The smallest multiple of four that is at least `n`.
pub open spec fn align4(n: nat) -> nat {
    if n % 4 == 0 {
        n
    } else {
        (n + (4 - n % 4)) as nat
    }
}

/// `b` followed by the zero bytes that bring its length to a multiple of four.
pub open spec fn padded(b: Seq<u8>) -> Seq<u8> {
    b + Seq::new((align4(b.len()) - b.len()) as nat, |i: int| 0u8)
}

/// Pad the buffer with zero bytes so that its length is a multiple of four.
pub fn pad_buf(buf: &mut Vec<u8>)
    ensures
        final(buf)@ == padded(old(buf)@),
        final(buf)@.len() % 4 == 0,
{
    let rem = buf.len() % 4;
    if rem != 0 {
        let mut k = 4 - rem;
        while k > 0
            invariant
                0 <= k <= 3,
                old(buf)@.len() <= buf@.len(),
                buf@.len() + k == align4(old(buf)@.len()),
                buf@.subrange(0, old(buf)@.len() as int) == old(buf)@,
                forall|i: int| old(buf)@.len() <= i < buf@.len() ==> buf@[i] == 0u8,
            decreases k,
        {
            buf.push(0);
            k = k - 1;
        }
    }
    assert(buf@ =~= padded(old(buf)@));
}

/// The digit for a value below sixteen, lowercase.
pub open spec fn hex_digit(d: nat) -> u8 {
    if d < 10 {
        (48 + d) as u8
    } else {
        (87 + d) as u8
    }
}

/// The hexadecimal digits of `v`, most significant first, without leading zeros.
pub open spec fn hex_digits(v: nat) -> Seq<u8>
    decreases v,
{
    if v < 16 {
        seq![hex_digit(v)]
    } else {
        hex_digits(v / 16).push(hex_digit(v % 16))
    }
}

/// `v` in lowercase hexadecimal, zero-padded to at least eight digits.
pub open spec fn hex_field(v: nat) -> Seq<u8> {
    let d = hex_digits(v);
    if d.len() < 8 {
        Seq::new((8 - d.len()) as nat, |i: int| 48u8) + d
    } else {
        d
    }
}

/// The magic number of newc entries, `070701`.
pub open spec fn magic() -> Seq<u8> {
    seq![48u8, 55u8, 48u8, 55u8, 48u8, 49u8]
}

/// The numeric fields of an entry's header, in order.
pub open spec fn header_fields(ino: nat, md: Metadata, file_size: nat, name_len: nat) -> Seq<nat> {
    seq![
        ino,
        md.mode as nat,
        md.uid as nat,
        md.gid as nat,
        md.nlink as nat,
        md.mtime as nat,
        file_size,
        md.dev_major as nat,
        md.dev_minor as nat,
        md.rdev_major as nat,
        md.rdev_minor as nat,
        name_len,
        0,
    ]
}

/// The fields one after another, each in the form of `hex_field`.
pub open spec fn hex_fields(vs: Seq<nat>) -> Seq<u8>
    decreases vs.len(),
{
    if vs.len() == 0 {
        Seq::empty()
    } else {
        hex_fields(vs.drop_last()) + hex_field(vs.last())
    }
}

/// The header of an entry: the magic number, then its fields.
pub open spec fn newc_header(ino: nat, md: Metadata, file_size: nat, name_len: nat) -> Seq<u8> {
    magic() + hex_fields(header_fields(ino, md, file_size, name_len))
}

/// The bytes of `TRAILER!!!`.
pub open spec fn trailer_name() -> Seq<u8> {
    seq![84u8, 82u8, 65u8, 73u8, 76u8, 69u8, 82u8, 33u8, 33u8, 33u8]
}

/// The relative path `TRAILER!!!` that names the last entry of an archive.
pub open spec fn trailer_path() -> PathView {
    PathView { absolute: false, components: seq![trailer_name()] }
}

/// Inode numbers start here, to stay clear of reserved ones.
pub const INO_OFFSET: u64 = 1337;

/// The name under which a path is stored: relative to the root, except for
/// the trailer.
pub open spec fn entry_name(p: PathView) -> Seq<u8> {
    if p == trailer_path() {
        trailer_name()
    } else {
        join_components(p.components)
    }
}

/// A path that an archive can store: absolute, or the trailer.
pub open spec fn storable(p: PathView) -> bool {
    p.absolute || p == trailer_path()
}

/// The size that the header records for an entry.
pub open spec fn data_size(e: EntryView) -> nat {
    match e.data {
        Some(d) => d.len(),
        None => 0,
    }
}

/// `buf` after the entry with inode `ino`, nul-terminated name `name` and
/// contents `e` is appended.
pub open spec fn append_entry(buf: Seq<u8>, ino: nat, name: Seq<u8>, e: EntryView) -> Seq<u8> {
    let b = padded(buf + newc_header(ino, e.metadata, data_size(e), name.len()) + name);
    match e.data {
        Some(d) => padded(b + d),
        None => b,
    }
}

/// Serializing one entry into a serializer that has numbered `count` entries
/// and holds `buf`: the root is skipped, and a name with a nul byte fails.
pub open spec fn serialize_step(count: nat, buf: Seq<u8>, p: PathView, e: EntryView) -> Option<
    (nat, Seq<u8>),
> {
    if p == root_path() {
        Some((count, buf))
    } else if entry_name(p).contains(0u8) {
        None
    } else {
        Some(
            (count + 1, append_entry(buf, count + INO_OFFSET as nat, entry_name(p).push(0u8), e)),
        )
    }
}

/// Serializing the entries of `s` in order, stopping at the first failure.
pub open spec fn serialize_all(count: nat, buf: Seq<u8>, s: Seq<(PathView, EntryView)>) -> Option<
    (nat, Seq<u8>),
>
    decreases s.len(),
{
    if s.len() == 0 {
        Some((count, buf))
    } else {
        match serialize_step(count, buf, s[0].0, s[0].1) {
            Some((c, b)) => serialize_all(c, b, s.drop_first()),
            None => None,
        }
    }
}

/// The bytes of an archive whose entries, in order, are `s`: each entry, then
/// the trailer.
pub open spec fn archive_bytes(s: Seq<(PathView, EntryView)>) -> Option<Seq<u8>> {
    match serialize_all(0, Seq::empty(), s.push((trailer_path(), directory_entry()))) {
        Some((_, b)) => Some(b),
        None => None,
    }
}

proof fn lemma_padded_aligned(b: Seq<u8>)
    ensures
        padded(b).len() == align4(b.len()),
        padded(b).len() % 4 == 0,
        padded(b).subrange(0, b.len() as int) == b,
{
    assert(padded(b).subrange(0, b.len() as int) =~= b);
}

proof fn lemma_serialize_all_aligned(count: nat, buf: Seq<u8>, s: Seq<(PathView, EntryView)>)
    requires
        buf.len() % 4 == 0,
    ensures
        serialize_all(count, buf, s) matches Some((_, b)) ==> b.len() % 4 == 0 && b.len() >= buf.len()
            && b.subrange(0, buf.len() as int) == buf,
    decreases s.len(),
{
    if s.len() > 0 {
        if let Some((c, b1)) = serialize_step(count, buf, s[0].0, s[0].1) {
            if s[0].0 != root_path() {
                let e = s[0].1;
                let h = buf + newc_header(
                    count + INO_OFFSET as nat,
                    e.metadata,
                    data_size(e),
                    entry_name(s[0].0).push(0u8).len(),
                ) + entry_name(s[0].0).push(0u8);
                lemma_padded_aligned(h);
                assert(h.subrange(0, buf.len() as int) =~= buf);
                if let Some(d) = e.data {
                    lemma_padded_aligned(padded(h) + d);
                    assert((padded(h) + d).subrange(0, padded(h).len() as int) =~= padded(h));
                    assert(padded(padded(h) + d).subrange(0, buf.len() as int) =~= buf);
                } else {
                    assert(padded(h).subrange(0, buf.len() as int) =~= buf);
                }
            }
            lemma_serialize_all_aligned(c, b1, s.drop_first());
            if let Some((_, b)) = serialize_all(c, b1, s.drop_first()) {
                assert(b.subrange(0, buf.len() as int) =~= b.subrange(0, b1.len() as int).subrange(
                    0,
                    buf.len() as int,
                ));
            }
        }
    }
}

proof fn lemma_serialize_all_some(count: nat, buf: Seq<u8>, s: Seq<(PathView, EntryView)>)
    requires
        forall|i: int| 0 <= i < s.len() ==> !entry_name(#[trigger] s[i].0).contains(0u8),
    ensures
        serialize_all(count, buf, s) is Some,
    decreases s.len(),
{
    if s.len() > 0 {
        assert(!entry_name(s[0].0).contains(0u8));
        let (c, b) = serialize_step(count, buf, s[0].0, s[0].1)->Some_0;
        let rest = s.drop_first();
        assert forall|i: int| 0 <= i < rest.len() implies !entry_name(#[trigger] rest[i].0).contains(0u8) by {
            assert(rest[i] == s[i + 1]);
        }
        lemma_serialize_all_some(c, b, rest);
    }
}

/// An archive whose names hold no nul byte can always be written.
pub proof fn lemma_archive_bytes_some(s: Seq<(PathView, EntryView)>)
    requires
        forall|i: int| 0 <= i < s.len() ==> !entry_name(#[trigger] s[i].0).contains(0u8),
    ensures
        archive_bytes(s) is Some,
{
    let t = s.push((trailer_path(), directory_entry()));
    assert(entry_name(trailer_path()) == trailer_name());
    assert(!trailer_name().contains(0u8)) by {
        assert forall|i: int| 0 <= i < trailer_name().len() implies trailer_name()[i] != 0u8 by {}
    }
    assert forall|i: int| 0 <= i < t.len() implies !entry_name(#[trigger] t[i].0).contains(0u8) by {
        if i < s.len() {
            assert(t[i] == s[i]);
        }
    }
    lemma_serialize_all_some(0, Seq::empty(), t);
}

/// Every archive is a whole number of four-byte words: each header, name and
/// contents is padded.
pub proof fn lemma_archive_aligned(s: Seq<(PathView, EntryView)>)
    ensures
        archive_bytes(s) matches Some(b) ==> b.len() % 4 == 0,
{
    lemma_serialize_all_aligned(0, Seq::empty(), s.push((trailer_path(), directory_entry())));
}

/// The entries of `s` whose path is `k`, in their order.
pub open spec fn with_path(s: Seq<(PathView, EntryView)>, k: PathView) -> Seq<(PathView, EntryView)> {
    s.filter(path_is(k))
}

/// The predicate that an entry's path is `k`.
pub open spec fn path_is(k: PathView) -> spec_fn((PathView, EntryView)) -> bool {
    |x: (PathView, EntryView)| x.0 == k
}

/// The paths of `s` do not decrease.
pub open spec fn sorted_by_path(s: Seq<(PathView, EntryView)>) -> bool {
    forall|i: int, j: int| 0 <= i < j < s.len() ==> path_le(#[trigger] s[i].0, #[trigger] s[j].0)
}

/// `r` is `s` sorted by path, entries with equal paths keeping their order.
pub open spec fn stable_sort_of(r: Seq<(PathView, EntryView)>, s: Seq<(PathView, EntryView)>) -> bool {
    &&& sorted_by_path(r)
    &&& forall|k: PathView| #[trigger] with_path(r, k) == with_path(s, k)
}

/// No two entries of `s` have the same path.
pub open spec fn distinct_paths(s: Seq<(PathView, EntryView)>) -> bool {
    forall|i: int, j: int| 0 <= i < j < s.len() ==> #[trigger] s[i].0 != #[trigger] s[j].0
}

proof fn lemma_with_path_first(s: Seq<(PathView, EntryView)>, k: PathView)
    requires
        s.len() > 0,
    ensures
        with_path(s, k) == (if s[0].0 == k {
            seq![s[0]] + with_path(s.drop_first(), k)
        } else {
            with_path(s.drop_first(), k)
        }),
{
    s.lemma_filter_eq_filter_alt(path_is(k));
}

proof fn lemma_with_path_empty(k: PathView)
    ensures
        with_path(Seq::<(PathView, EntryView)>::empty(), k) == Seq::<(PathView, EntryView)>::empty(),
{
    Seq::<(PathView, EntryView)>::empty().lemma_filter_eq_filter_alt(path_is(k));
}

/// Where `with_path(s, k)` is not empty, `s` holds an entry with path `k`.
proof fn lemma_with_path_witness(s: Seq<(PathView, EntryView)>, k: PathView)
    requires
        with_path(s, k).len() > 0,
    ensures
        exists|i: int| 0 <= i < s.len() && #[trigger] s[i].0 == k && s[i] == with_path(s, k)[0],
    decreases s.len(),
{
    if s.len() == 0 {
        lemma_with_path_empty(k);
    } else {
        lemma_with_path_first(s, k);
        if s[0].0 != k {
            lemma_with_path_witness(s.drop_first(), k);
            let i = choose|i: int|
                0 <= i < s.drop_first().len() && #[trigger] s.drop_first()[i].0 == k && s.drop_first()[i]
                    == with_path(s.drop_first(), k)[0];
            assert(s[i + 1] == s.drop_first()[i]);
        }
    }
}

/// With no path twice, the entries with path `k` are the one entry with that
/// path, if there is one.
proof fn lemma_with_path_distinct(a: Seq<(PathView, EntryView)>, k: PathView)
    requires
        distinct_paths(a),
    ensures
        forall|i: int| 0 <= i < a.len() && #[trigger] a[i].0 == k ==> with_path(a, k) == seq![a[i]],
        (forall|i: int| 0 <= i < a.len() ==> #[trigger] a[i].0 != k) ==> with_path(a, k) == Seq::<
            (PathView, EntryView),
        >::empty(),
    decreases a.len(),
{
    if a.len() == 0 {
        lemma_with_path_empty(k);
    } else {
        let t = a.drop_first();
        assert(distinct_paths(t)) by {
            assert forall|i: int, j: int| 0 <= i < j < t.len() implies #[trigger] t[i].0 != #[trigger] t[j].0 by {
                assert(t[i] == a[i + 1] && t[j] == a[j + 1]);
            }
        }
        lemma_with_path_distinct(t, k);
        lemma_with_path_first(a, k);
        if a[0].0 == k {
            assert forall|i: int| 0 <= i < t.len() implies #[trigger] t[i].0 != k by {
                assert(t[i] == a[i + 1]);
            }
            assert forall|i: int| 0 <= i < a.len() && #[trigger] a[i].0 == k implies with_path(a, k) == seq![
                a[i],
            ] by {
                if i > 0 {
                    assert(a[0].0 != a[i].0);
                }
                assert(seq![a[0]] + Seq::<(PathView, EntryView)>::empty() =~= seq![a[0]]);
            }
        } else {
            assert forall|i: int| 0 <= i < a.len() && #[trigger] a[i].0 == k implies with_path(a, k) == seq![
                a[i],
            ] by {
                assert(i > 0);
                assert(t[i - 1] == a[i]);
            }
            if forall|i: int| 0 <= i < a.len() ==> #[trigger] a[i].0 != k {
                assert forall|i: int| 0 <= i < t.len() implies #[trigger] t[i].0 != k by {
                    assert(t[i] == a[i + 1]);
                }
            }
        }
    }
}

/// Two sequences sorted by path with the same entries for every path are
/// the same.
proof fn lemma_sorted_same_groups(r1: Seq<(PathView, EntryView)>, r2: Seq<(PathView, EntryView)>)
    requires
        sorted_by_path(r1),
        sorted_by_path(r2),
        forall|k: PathView| #[trigger] with_path(r1, k) == with_path(r2, k),
    ensures
        r1 == r2,
    decreases r1.len() + r2.len(),
{
    lemma_path_order();
    if r1.len() == 0 && r2.len() == 0 {
        assert(r1 =~= r2);
    } else if r1.len() == 0 {
        let k = r2[0].0;
        lemma_with_path_first(r2, k);
        lemma_with_path_empty(k);
        assert(r1 =~= Seq::<(PathView, EntryView)>::empty());
        assert(with_path(r1, k) == with_path(r2, k));
    } else if r2.len() == 0 {
        let k = r1[0].0;
        lemma_with_path_first(r1, k);
        lemma_with_path_empty(k);
        assert(r2 =~= Seq::<(PathView, EntryView)>::empty());
        assert(with_path(r1, k) == with_path(r2, k));
    } else {
        let k1 = r1[0].0;
        let k2 = r2[0].0;
        lemma_with_path_first(r1, k1);
        lemma_with_path_first(r2, k2);
        assert(with_path(r1, k2) == with_path(r2, k2));
        assert(with_path(r2, k1) == with_path(r1, k1));
        lemma_with_path_witness(r1, k2);
        lemma_with_path_witness(r2, k1);
        let i1 = choose|i: int| 0 <= i < r1.len() && #[trigger] r1[i].0 == k2 && r1[i] == with_path(r1, k2)[0];
        let i2 = choose|i: int| 0 <= i < r2.len() && #[trigger] r2[i].0 == k1 && r2[i] == with_path(r2, k1)[0];
        if i1 > 0 {
            assert(path_le(r1[0].0, r1[i1].0));
        }
        if i2 > 0 {
            assert(path_le(r2[0].0, r2[i2].0));
        }
        assert(path_le(k1, k2) && path_le(k2, k1));
        if k1 != k2 {
            assert(path_lt(k1, k2) && path_lt(k2, k1));
            assert(path_lt(k1, k1));
        }
        assert(k1 == k2);
        assert(r1[0] == with_path(r1, k1)[0]);
        assert(r2[0] == with_path(r2, k1)[0]);
        let t1 = r1.drop_first();
        let t2 = r2.drop_first();
        assert forall|k: PathView| #[trigger] with_path(t1, k) == with_path(t2, k) by {
            lemma_with_path_first(r1, k);
            lemma_with_path_first(r2, k);
            assert(with_path(r1, k) == with_path(r2, k));
            if k == k1 {
                assert(with_path(t1, k) =~= with_path(r1, k).drop_first());
                assert(with_path(t2, k) =~= with_path(r2, k).drop_first());
            }
        }
        assert(sorted_by_path(t1)) by {
            assert forall|i: int, j: int| 0 <= i < j < t1.len() implies path_le(#[trigger] t1[i].0, #[trigger] t1[j].0) by {
                assert(t1[i] == r1[i + 1] && t1[j] == r1[j + 1]);
            }
        }
        assert(sorted_by_path(t2)) by {
            assert forall|i: int, j: int| 0 <= i < j < t2.len() implies path_le(#[trigger] t2[i].0, #[trigger] t2[j].0) by {
                assert(t2[i] == r2[i + 1] && t2[j] == r2[j + 1]);
            }
        }
        lemma_sorted_same_groups(t1, t2);
        assert(r1 =~= seq![r1[0]] + t1);
        assert(r2 =~= seq![r2[0]] + t2);
    }
}

/// The bytes of an archive do not depend on the order in which its entries
/// are given, where no two entries share a path: two lists with the same
/// entries sort into the same sequence, so they give the same bytes.
pub proof fn lemma_sort_order_free(
    a: Seq<(PathView, EntryView)>,
    b: Seq<(PathView, EntryView)>,
    s1: Seq<(PathView, EntryView)>,
    s2: Seq<(PathView, EntryView)>,
)
    requires
        distinct_paths(a),
        distinct_paths(b),
        forall|x: (PathView, EntryView)| a.contains(x) <==> b.contains(x),
        stable_sort_of(s1, a),
        stable_sort_of(s2, b),
    ensures
        s1 == s2,
        archive_bytes(s1) == archive_bytes(s2),
{
    assert forall|k: PathView| #[trigger] with_path(s1, k) == with_path(s2, k) by {
        lemma_with_path_distinct(a, k);
        lemma_with_path_distinct(b, k);
        assert(with_path(s1, k) == with_path(a, k));
        assert(with_path(s2, k) == with_path(b, k));
        if exists|i: int| 0 <= i < a.len() && #[trigger] a[i].0 == k {
            let i = choose|i: int| 0 <= i < a.len() && #[trigger] a[i].0 == k;
            assert(a.contains(a[i]));
            let j = choose|j: int| 0 <= j < b.len() && b[j] == a[i];
            assert(b[j].0 == k);
        } else {
            assert forall|j: int| 0 <= j < b.len() implies #[trigger] b[j].0 != k by {
                assert(b.contains(b[j]));
                if b[j].0 == k {
                    let i = choose|i: int| 0 <= i < a.len() && a[i] == b[j];
                    assert(a[i].0 == k);
                }
            }
        }
    }
    lemma_sorted_same_groups(s1, s2);
}

/// Serializer state for the newc format.
pub struct NewcSerializer {
    count: u64,
    buf: Vec<u8>,
}

impl NewcSerializer {
    /// The number of entries numbered so far.
    pub closed spec fn count(&self) -> nat {
        self.count as nat
    }

    /// The bytes written so far.
    pub closed spec fn bytes(&self) -> Seq<u8> {
        self.buf@
    }

    /// An empty serializer.
    pub fn new() -> (s: NewcSerializer)
        ensures
            s.count() == 0,
            s.bytes() == Seq::<u8>::empty(),
    {
        NewcSerializer { count: 0, buf: Vec::new() }
    }

    /// Append one entry in newc format.
    pub fn serialize_entry(&mut self, path: &VfsPath, entry: Entry) -> (r: Result<(), std::io::Error>)
        requires
            storable(path@),
            path@ == root_path() || old(self).count() + INO_OFFSET < u64::MAX,
        ensures
            match serialize_step(old(self).count(), old(self).bytes(), path@, entry@) {
                Some((c, b)) => r is Ok && final(self).count() == c && final(self).bytes() == b,
                None => r is Err && final(self).count() == old(self).count() && final(self).bytes()
                    == old(self).bytes(),
            },
    {
        if path.same_as(&VfsPath::root()) {
            return Ok(());
        }
        let name = if path.same_as(&trailer()) {
            trailer_bytes()
        } else {
            path.components_bytes()
        };
        assert(name@ == entry_name(path@));
        if contains_nul(&name) {
            return Err(crate::sys::nul_byte_error());
        }
        let mut filename = name;
        filename.push(0);
        let ino = self.count + INO_OFFSET;
        self.count = self.count + 1;
        let file_size: usize = match &entry.data {
            Some(data) => data.len(),
            None => 0,
        };
        let md = entry.metadata;
        write_header(&mut self.buf, ino, md, file_size as u64, filename.len() as u64);
        self.buf.extend_from_slice(filename.as_slice());
        pad_buf(&mut self.buf);
        if let Some(data) = entry.data {
            self.buf.extend_from_slice(data.as_slice());
            pad_buf(&mut self.buf);
        }
        Ok(())
    }

    /// The bytes written.
    pub fn into_inner(self) -> (b: Vec<u8>)
        ensures
            b@ == self.bytes(),
    {
        self.buf
    }
}

/// Append the header of an entry.
fn write_header(buf: &mut Vec<u8>, ino: u64, md: Metadata, file_size: u64, name_len: u64)
    ensures
        final(buf)@ == old(buf)@ + newc_header(ino as nat, md, file_size as nat, name_len as nat),
{
    let mut h: Vec<u8> = Vec::new();
    h.extend_from_slice(&[48u8, 55u8, 48u8, 55u8, 48u8, 49u8]);
    assert(h@ =~= magic());
    let fields: [u64; 13] = [
        ino,
        md.mode as u64,
        md.uid,
        md.gid,
        md.nlink,
        md.mtime,
        file_size,
        md.dev_major,
        md.dev_minor,
        md.rdev_major,
        md.rdev_minor,
        name_len,
        0,
    ];
    let ghost nats = header_fields(ino as nat, md, file_size as nat, name_len as nat);
    assert(fields@.map_values(|v: u64| v as nat) =~= nats);
    let mut i: usize = 0;
    while i < 13
        invariant
            i <= 13,
            nats == fields@.map_values(|v: u64| v as nat),
            h@ == magic() + hex_fields(nats.take(i as int)),
        decreases 13 - i,
    {
        write_hex(&mut h, fields[i]);
        assert(nats.take(i + 1).drop_last() =~= nats.take(i as int));
        assert(nats[i as int] == fields@[i as int] as nat);
        assert(h@ =~= magic() + hex_fields(nats.take(i + 1)));
        i = i + 1;
    }
    assert(nats.take(13) =~= nats);
    let ghost before = buf@;
    buf.append(&mut h);
    assert(buf@ =~= before + newc_header(ino as nat, md, file_size as nat, name_len as nat));
}

/// A lowercase hexadecimal digit: `0`-`9` or `a`-`f`.
pub open spec fn is_lower_hex(c: u8) -> bool {
    (48 <= c <= 57) || (97 <= c <= 102)
}

proof fn lemma_hex_digits_lower(v: nat)
    ensures
        forall|i: int| 0 <= i < hex_digits(v).len() ==> is_lower_hex(#[trigger] hex_digits(v)[i]),
    decreases v,
{
    let d: nat = v % 16;
    assert(is_lower_hex(hex_digit(d))) by {
        if d < 10 {
            assert(((48 + d) as u8) == 48 + d);
        } else {
            assert(((87 + d) as u8) == 87 + d);
        }
    }
    if v >= 16 {
        lemma_hex_digits_lower(v / 16);
        let h = hex_digits(v / 16);
        assert forall|i: int| 0 <= i < hex_digits(v).len() implies is_lower_hex(#[trigger] hex_digits(v)[i]) by {
            if i < h.len() {
                assert(hex_digits(v)[i] == h[i]);
            }
        }
    } else {
        assert(v % 16 == v);
    }
}

proof fn lemma_hex_field_eight(v: nat)
    requires
        v < 0x1_0000_0000,
    ensures
        hex_field(v).len() == 8,
        forall|i: int| 0 <= i < 8 ==> is_lower_hex(#[trigger] hex_field(v)[i]),
{
    reveal_with_fuel(pow16, 9);
    assert(pow16(8) == 0x1_0000_0000);
    lemma_hex_digits_len(v, 8);
    lemma_hex_digits_lower(v);
    let d = hex_digits(v);
    if d.len() < 8 {
        let z = Seq::new((8 - d.len()) as nat, |i: int| 48u8);
        assert forall|i: int| 0 <= i < 8 implies is_lower_hex(#[trigger] hex_field(v)[i]) by {
            if i < z.len() {
                assert(hex_field(v)[i] == z[i]);
            } else {
                assert(hex_field(v)[i] == d[i - z.len()]);
            }
        }
    }
}

proof fn lemma_hex_fields_layout(vs: Seq<nat>)
    requires
        forall|k: int| 0 <= k < vs.len() ==> #[trigger] vs[k] < 0x1_0000_0000,
    ensures
        hex_fields(vs).len() == 8 * vs.len(),
        forall|k: int|
            0 <= k < vs.len() ==> hex_fields(vs).subrange(8 * k, 8 * k + 8) == hex_field(#[trigger] vs[k]),
        forall|i: int| 0 <= i < hex_fields(vs).len() ==> is_lower_hex(#[trigger] hex_fields(vs)[i]),
    decreases vs.len(),
{
    if vs.len() > 0 {
        let init = vs.drop_last();
        lemma_hex_fields_layout(init);
        lemma_hex_field_eight(vs.last());
        let a = hex_fields(init);
        let b = hex_field(vs.last());
        assert(hex_fields(vs) == a + b);
        assert forall|k: int| 0 <= k < vs.len() implies hex_fields(vs).subrange(8 * k, 8 * k + 8)
            == hex_field(#[trigger] vs[k]) by {
            if k < init.len() {
                assert(init[k] == vs[k]);
                assert(hex_fields(vs).subrange(8 * k, 8 * k + 8) =~= a.subrange(8 * k, 8 * k + 8));
            } else {
                assert(hex_fields(vs).subrange(8 * k, 8 * k + 8) =~= b);
            }
        }
        assert forall|i: int| 0 <= i < hex_fields(vs).len() implies is_lower_hex(
            #[trigger] hex_fields(vs)[i],
        ) by {
            if i < a.len() {
                assert(hex_fields(vs)[i] == a[i]);
            } else {
                assert(hex_fields(vs)[i] == b[i - a.len()]);
            }
        }
    }
}

/// The layout of an entry's header: where every field fits in 32 bits, the
/// header is 110 bytes, the magic number `070701` followed by each of the
/// thirteen fields as exactly eight lowercase hexadecimal digits.
pub proof fn lemma_header_layout(ino: nat, md: Metadata, file_size: nat, name_len: nat)
    requires
        forall|k: int|
            0 <= k < 13 ==> #[trigger] header_fields(ino, md, file_size, name_len)[k] < 0x1_0000_0000,
    ensures
        newc_header(ino, md, file_size, name_len).len() == 110,
        newc_header(ino, md, file_size, name_len).subrange(0, 6) == magic(),
        forall|k: int|
            0 <= k < 13 ==> newc_header(ino, md, file_size, name_len).subrange(6 + 8 * k, 14 + 8 * k)
                == hex_field(#[trigger] header_fields(ino, md, file_size, name_len)[k])
                && hex_field(header_fields(ino, md, file_size, name_len)[k]).len() == 8,
        forall|i: int|
            6 <= i < 110 ==> is_lower_hex(#[trigger] newc_header(ino, md, file_size, name_len)[i]),
{
    let vs = header_fields(ino, md, file_size, name_len);
    lemma_hex_fields_layout(vs);
    let h = newc_header(ino, md, file_size, name_len);
    let f = hex_fields(vs);
    assert(h == magic() + f);
    assert(h.subrange(0, 6) =~= magic());
    assert forall|k: int| 0 <= k < 13 implies h.subrange(6 + 8 * k, 14 + 8 * k) == hex_field(
        #[trigger] vs[k],
    ) && hex_field(vs[k]).len() == 8 by {
        lemma_hex_field_eight(vs[k]);
        assert(h.subrange(6 + 8 * k, 14 + 8 * k) =~= f.subrange(8 * k, 8 * k + 8));
    }
    assert forall|i: int| 6 <= i < 110 implies is_lower_hex(#[trigger] h[i]) by {
        assert(h[i] == f[i - 6]);
    }
}

/// Append `v` in lowercase hexadecimal, zero-padded to at least eight digits.
fn write_hex(buf: &mut Vec<u8>, v: u64)
    ensures
        final(buf)@ == old(buf)@ + hex_field(v as nat),
{
    let n = hex_len(v);
    let mut k = n;
    while k < 8
        invariant
            n <= k,
            k <= 8 || k == n,
            n == hex_digits(v as nat).len(),
            buf@ == old(buf)@ + Seq::new((k - n) as nat, |i: int| 48u8),
        decreases 8 - k,
    {
        buf.push(48);
        k = k + 1;
        assert(buf@ =~= old(buf)@ + Seq::new((k - n) as nat, |i: int| 48u8));
    }
    let ghost mid = buf@;
    push_hex_digits(buf, v);
    assert(buf@ =~= old(buf)@ + hex_field(v as nat)) by {
        if n < 8 {
            assert(mid =~= old(buf)@ + Seq::new((8 - n) as nat, |i: int| 48u8));
        } else {
            assert(mid =~= old(buf)@);
        }
    }
}

/// The number of hexadecimal digits of `v`.
fn hex_len(v: u64) -> (n: usize)
    ensures
        n == hex_digits(v as nat).len(),
        1 <= n <= 16,
    decreases v,
{
    proof {
        reveal_with_fuel(pow16, 17);
        assert(pow16(16) == 0x1_0000_0000_0000_0000);
        lemma_hex_digits_len(v as nat, 16);
    }
    if v < 16 {
        1
    } else {
        hex_len(v / 16) + 1
    }
}

/// Sixteen to the power `k`.
pub open spec fn pow16(k: nat) -> nat
    decreases k,
{
    if k == 0 {
        1
    } else {
        16 * pow16((k - 1) as nat)
    }
}

proof fn lemma_hex_digits_len(v: nat, k: nat)
    requires
        k >= 1,
        v < pow16(k),
    ensures
        1 <= hex_digits(v).len() <= k,
    decreases k,
{
    if v >= 16 {
        let p = pow16((k - 1) as nat);
        assert(v / 16 < p) by (nonlinear_arith)
            requires
                v < 16 * p,
        ;
        if k == 1 {
            assert(pow16(0) == 1);
        } else {
            lemma_hex_digits_len(v / 16, (k - 1) as nat);
        }
    }
}

/// Append the hexadecimal digits of `v`, most significant first.
fn push_hex_digits(buf: &mut Vec<u8>, v: u64)
    ensures
        final(buf)@ == old(buf)@ + hex_digits(v as nat),
    decreases v,
{
    if v >= 16 {
        push_hex_digits(buf, v / 16);
    }
    let d = (v % 16) as u8;
    let c = if d < 10 {
        48 + d
    } else {
        87 + d
    };
    buf.push(c);
    assert(buf@ =~= old(buf)@ + hex_digits(v as nat));
}

fn trailer_bytes() -> (b: Vec<u8>)
    ensures
        b@ == trailer_name(),
{
    let b = vec![84u8, 82u8, 65u8, 73u8, 76u8, 69u8, 82u8, 33u8, 33u8, 33u8];
    assert(b@ =~= trailer_name());
    b
}

/// The path of the trailer entry.
pub fn trailer() -> (p: VfsPath)
    ensures
        p@ == trailer_path(),
{
    let mut cs: Vec<Vec<u8>> = Vec::new();
    cs.push(trailer_bytes());
    let p = VfsPath::new(false, cs);
    assert(p@.components =~= seq![trailer_name()]);
    p
}

fn contains_nul(b: &Vec<u8>) -> (r: bool)
    ensures
        r == b@.contains(0u8),
{
    let mut i: usize = 0;
    while i < b.len()
        invariant
            i <= b@.len(),
            forall|j: int| 0 <= j < i ==> b@[j] != 0u8,
        decreases b@.len() - i,
    {
        if b[i] == 0 {
            assert(b@[i as int] == 0u8);
            return true;
        }
        i = i + 1;
    }
    false
}

proof fn lemma_with_path_none(s: Seq<(PathView, EntryView)>, k: PathView)
    requires
        forall|j: int| 0 <= j < s.len() ==> #[trigger] s[j].0 != k,
    ensures
        with_path(s, k) == Seq::<(PathView, EntryView)>::empty(),
{
    broadcast use vstd::seq_lib::group_filter_ensures;

    let f = with_path(s, k);
    if f.len() > 0 {
        s.lemma_filter_pred(path_is(k), 0);
        assert(f.contains(f[0]));
        s.lemma_filter_contains_rev(path_is(k), f[0]);
        assert(f.contains(f[0]));
    }
    assert(f =~= Seq::<(PathView, EntryView)>::empty());
}

/// Inserting `x` after every entry whose path is not greater keeps a sorted
/// sequence sorted, and keeps the entries of each path in order.
proof fn lemma_insert_sorted(
    out: Seq<(PathView, EntryView)>,
    pos: int,
    x: (PathView, EntryView),
    done: Seq<(PathView, EntryView)>,
)
    requires
        0 <= pos <= out.len(),
        sorted_by_path(out),
        forall|j: int| 0 <= j < pos ==> !path_lt(x.0, #[trigger] out[j].0),
        pos < out.len() ==> path_lt(x.0, out[pos].0),
        forall|k: PathView| #[trigger] with_path(out, k) == with_path(done, k),
    ensures
        sorted_by_path(out.insert(pos, x)),
        forall|k: PathView| #[trigger] with_path(out.insert(pos, x), k) == with_path(done.push(x), k),
{
    lemma_path_order();
    let o2 = out.insert(pos, x);
    assert forall|a: int, b: int| 0 <= a < b < o2.len() implies path_le(
        #[trigger] o2[a].0,
        #[trigger] o2[b].0,
    ) by {
        if b < pos {
            assert(path_le(out[a].0, out[b].0));
        } else if b == pos {
            assert(!path_lt(x.0, out[a].0));
        } else if a < pos {
            assert(!path_lt(x.0, out[a].0));
            assert(path_lt(x.0, out[pos].0));
            assert(path_le(out[pos].0, out[b - 1].0));
        } else if a == pos {
            assert(path_lt(x.0, out[pos].0));
            assert(path_le(out[pos].0, out[b - 1].0));
        } else {
            assert(path_le(out[a - 1].0, out[b - 1].0));
        }
    }
    let pre = out.take(pos);
    let post = out.skip(pos);
    assert(out =~= pre + post);
    assert(o2 =~= pre + seq![x] + post);
    assert forall|k: PathView| #[trigger] with_path(o2, k) == with_path(done.push(x), k) by {
        let pred = path_is(k);
        Seq::filter_distributes_over_add(pre + seq![x], post, pred);
        Seq::filter_distributes_over_add(pre, seq![x], pred);
        Seq::filter_distributes_over_add(pre, post, pred);
        done.lemma_filter_push(x, pred);
        seq![x].lemma_filter_prepend(x, pred);
        Seq::<(PathView, EntryView)>::empty().lemma_filter_prepend(x, pred);
        assert(seq![x] =~= seq![x] + Seq::<(PathView, EntryView)>::empty());
        assert(Seq::<(PathView, EntryView)>::empty().filter(pred) =~= Seq::<
            (PathView, EntryView),
        >::empty()) by {
            reveal(Seq::filter);
        }
        if k == x.0 {
            assert forall|j: int| 0 <= j < post.len() implies #[trigger] post[j].0 != k by {
                assert(path_lt(x.0, out[pos].0));
                assert(path_le(out[pos].0, out[pos + j].0));
            }
            lemma_with_path_none(post, k);
            assert(with_path(seq![x], k) =~= seq![x]);
            assert(with_path(o2, k) =~= with_path(out, k).push(x));
        } else {
            assert(with_path(seq![x], k) =~= Seq::<(PathView, EntryView)>::empty());
            assert(with_path(o2, k) =~= with_path(out, k));
        }
    }
}

/// Sort entries by path; entries with equal paths keep their order.
pub fn sort_entries(entries: Vec<(VfsPath, Entry)>) -> (r: Vec<(VfsPath, Entry)>)
    ensures
        r@.len() == entries@.len(),
        stable_sort_of(
            views(r@),
            views(entries@),
        ),
{
    let ghost orig = views(entries@);
    let mut rest = entries;
    let mut out: Vec<(VfsPath, Entry)> = Vec::new();
    let ghost mut i: int = 0;
    proof {
        assert(views(rest@) =~= orig.skip(0));
        assert forall|k: PathView| #[trigger] with_path(
            views(out@),
            k,
        ) == with_path(orig.take(0), k) by {
            assert(views(out@) =~= orig.take(0));
        }
    }
    while rest.len() > 0
        invariant
            0 <= i <= orig.len(),
            out@.len() == i,
            orig.len() == entries@.len(),
            views(rest@) == orig.skip(i),
            sorted_by_path(views(out@)),
            forall|k: PathView| #[trigger] with_path(
                views(out@),
                k,
            ) == with_path(orig.take(i), k),
        decreases rest@.len(),
    {
        let ghost o = views(out@);
        let ghost old_rest = rest@;
        assert(views(old_rest)[0] == pair_view(old_rest[0]));
        assert(views(old_rest).len() == old_rest.len());
        assert(i < orig.len());
        assert(orig.skip(i)[0] == orig[i]);
        let x = rest.remove(0);
        let ghost xv = pair_view(x);
        assert(xv == orig[i]);
        let mut pos: usize = 0;
        while pos < out.len() && crate::path::compare(&x.0, &out[pos].0) != Cmp::Less
            invariant
                pos <= out@.len(),
                o == views(out@),
                xv.0 == x.0@,
                forall|j: int| 0 <= j < pos ==> !path_lt(xv.0, #[trigger] o[j].0),
            decreases out@.len() - pos,
        {
            assert(o[pos as int].0 == out@[pos as int].0@);
            pos = pos + 1;
        }
        proof {
            if pos < out.len() {
                assert(o[pos as int].0 == out@[pos as int].0@);
            }
            lemma_insert_sorted(o, pos as int, xv, orig.take(i));
            assert(orig.take(i + 1) =~= orig.take(i).push(xv));
        }
        out.insert(pos, x);
        proof {
            assert(views(out@) =~= o.insert(pos as int, xv));
            assert(rest@ =~= old_rest.drop_first());
            assert(views(rest@) =~= views(old_rest).drop_first());
            assert(views(rest@) =~= orig.skip(i + 1));
            i = i + 1;
        }
    }
    proof {
        assert(orig.skip(i).len() == 0);
        assert(orig.take(i) =~= orig);
    }
    out
}

/// A cpio archive: its entries, in the order they were given.
pub struct Archive {
    entries: Vec<(VfsPath, Entry)>,
}

impl View for Archive {
    type V = Seq<(PathView, EntryView)>;

    closed spec fn view(&self) -> Seq<(PathView, EntryView)> {
        views(self.entries@)
    }
}

impl Archive {
    /// An archive with the given entries.
    pub fn from_entries(entries: Vec<(VfsPath, Entry)>) -> (a: Archive)
        ensures
            a@ == views(entries@),
    {
        Archive { entries }
    }

    /// An archive with the entries of a filesystem, in the order of their paths.
    pub fn from_vfs(vfs: Vfs) -> (a: Archive)
        requires
            vfs.wf(),
        ensures
            a@ == vfs.sorted_entries(),
            sorted_strict(a@),
            seq_to_map(a@) == vfs@,
    {
        Archive { entries: vfs.into_entries() }
    }

    /// Whether the archive can be serialized: every path is absolute (or the
    /// trailer), and the inode numbers of its entries fit.
    pub fn serializable(&self) -> (b: bool)
        ensures
            b == ((forall|i: int| 0 <= i < self@.len() ==> storable(#[trigger] self@[i].0))
                && self@.len() + INO_OFFSET + 1 < u64::MAX),
    {
        if self.entries.len() as u64 >= 0xffff_ffff_ffff_fac5u64 {
            return false;
        }
        let mut i: usize = 0;
        while i < self.entries.len()
            invariant
                i <= self@.len(),
                self@ == views(self.entries@),
                forall|j: int| 0 <= j < i ==> storable(#[trigger] self@[j].0),
            decreases self@.len() - i,
        {
            let p = &self.entries[i].0;
            assert(self@[i as int].0 == p@);
            if !p.is_absolute() && !p.same_as(&trailer()) {
                return false;
            }
            i = i + 1;
        }
        true
    }

    /// Serialize the archive into newc format: its entries sorted by path,
    /// entries with equal paths in their given order, then the trailer.
    pub fn serialize(self) -> (r: Result<Vec<u8>, std::io::Error>)
        requires
            forall|i: int| 0 <= i < self@.len() ==> storable(#[trigger] self@[i].0),
            self@.len() + INO_OFFSET + 1 < u64::MAX,
        ensures
            exists|s: Seq<(PathView, EntryView)>|
                {
                    &&& stable_sort_of(s, self@)
                    &&& match (r, archive_bytes(s)) {
                        (Ok(b), Some(x)) => b@ == x,
                        (Err(_), None) => true,
                        _ => false,
                    }
                },
            (forall|i: int| 0 <= i < self@.len() ==> !entry_name(#[trigger] self@[i].0).contains(0u8))
                ==> r is Ok,
    {
        let ghost orig = self@;
        let sorted = sort_entries(self.entries);
        let ghost s = views(sorted@);
        proof {
            assert forall|i: int| 0 <= i < s.len() implies storable(#[trigger] s[i].0) by {
                let k = s[i].0;
                let pred = path_is(k);
                s.lemma_filter_contains(pred, i);
                assert(with_path(s, k).contains(s[i]));
                orig.lemma_filter_contains_rev(pred, s[i]);
                let j = choose|j: int| 0 <= j < orig.len() && orig[j] == s[i];
                assert(storable(orig[j].0));
            }
            if forall|i: int| 0 <= i < orig.len() ==> !entry_name(#[trigger] orig[i].0).contains(0u8) {
                assert forall|i: int| 0 <= i < s.len() implies !entry_name(#[trigger] s[i].0).contains(0u8) by {
                    let k = s[i].0;
                    let pred = path_is(k);
                    s.lemma_filter_contains(pred, i);
                    assert(with_path(s, k).contains(s[i]));
                    orig.lemma_filter_contains_rev(pred, s[i]);
                    let j = choose|j: int| 0 <= j < orig.len() && orig[j] == s[i];
                    assert(!entry_name(orig[j].0).contains(0u8));
                }
                lemma_archive_bytes_some(s);
            }
        }
        let mut newc = NewcSerializer::new();
        let r = serialize_entries(&mut newc, sorted);
        proof {
            lemma_serialize_all_push(0, Seq::empty(), s, (trailer_path(), directory_entry()));
        }
        if r.is_err() {
            assert(archive_bytes(s) is None);
            assert(stable_sort_of(s, orig));
            return Err(r.unwrap_err());
        }
        let tr = trailer();
        let ghost c0 = newc.count();
        assert(s.push((trailer_path(), directory_entry())).skip(s.len() as int) =~= seq![
            (trailer_path(), directory_entry()),
        ]);
        let ghost b0 = newc.bytes();
        let r = newc.serialize_entry(&tr, Entry::directory());
        proof {
            let last = seq![(trailer_path(), directory_entry())];
            assert(last.drop_first() =~= Seq::<(PathView, EntryView)>::empty());
            assert(serialize_all(c0, b0, last) == (match serialize_step(
                c0,
                b0,
                trailer_path(),
                directory_entry(),
            ) {
                Some((c, b)) => serialize_all(c, b, last.drop_first()),
                None => None,
            }));
            assert(stable_sort_of(s, orig));
        }
        match r {
            Ok(()) => Ok(newc.into_inner()),
            Err(e) => Err(e),
        }
    }
}

/// Serializing `s` and then `x` is serializing `s.push(x)`.
proof fn lemma_serialize_all_push(
    count: nat,
    buf: Seq<u8>,
    s: Seq<(PathView, EntryView)>,
    x: (PathView, EntryView),
)
    ensures
        serialize_all(count, buf, s.push(x)) == (match serialize_all(count, buf, s) {
            Some((c, b)) => serialize_all(c, b, seq![x]),
            None => None,
        }),
    decreases s.len(),
{
    if s.len() == 0 {
        assert(s.push(x) =~= seq![x]);
    } else {
        assert(s.push(x).drop_first() =~= s.drop_first().push(x));
        match serialize_step(count, buf, s[0].0, s[0].1) {
            Some((c, b)) => {
                lemma_serialize_all_push(c, b, s.drop_first(), x);
            },
            None => {},
        }
    }
}

/// Serialize the entries in order, stopping at the first failure.
fn serialize_entries(newc: &mut NewcSerializer, entries: Vec<(VfsPath, Entry)>) -> (r: Result<
    (),
    std::io::Error,
>)
    requires
        forall|j: int| 0 <= j < entries@.len() ==> storable(#[trigger] views(entries@)[j].0),
        old(newc).count() + entries@.len() + INO_OFFSET + 1 < u64::MAX,
    ensures
        match serialize_all(old(newc).count(), old(newc).bytes(), views(entries@)) {
            Some((c, b)) => r is Ok && final(newc).count() == c && final(newc).bytes() == b
                && c <= old(newc).count() + entries@.len(),
            None => r is Err,
        },
{
    let ghost s = views(entries@);
    let ghost oc = newc.count();
    let ghost ob = newc.bytes();
    let mut rest = entries;
    let ghost mut i: int = 0;
    assert(s.skip(0) =~= s);
    while rest.len() > 0
        invariant
            0 <= i <= s.len(),
            views(rest@) == s.skip(i),
            forall|j: int| 0 <= j < s.len() ==> storable(#[trigger] s[j].0),
            newc.count() <= oc + i,
            oc == old(newc).count(),
            ob == old(newc).bytes(),
            s == views(entries@),
            oc + s.len() + INO_OFFSET + 1 < u64::MAX,
            serialize_all(oc, ob, s) == serialize_all(newc.count(), newc.bytes(), s.skip(i)),
        decreases rest@.len(),
    {
        let ghost old_rest = rest@;
        assert(views(old_rest).len() == old_rest.len());
        assert(views(old_rest)[0] == pair_view(old_rest[0]));
        assert(i < s.len());
        assert(s.skip(i)[0] == s[i]);
        let (path, entry) = rest.remove(0);
        assert(s.skip(i).drop_first() =~= s.skip(i + 1));
        let ghost c0 = newc.count();
        let ghost b0 = newc.bytes();
        let ghost i0 = i;
        let r = newc.serialize_entry(&path, entry);
        proof {
            assert(serialize_all(c0, b0, s.skip(i0)) == (match serialize_step(
                c0,
                b0,
                s[i0].0,
                s[i0].1,
            ) {
                Some((c, b)) => serialize_all(c, b, s.skip(i0 + 1)),
                None => None,
            }));
            assert(rest@ =~= old_rest.drop_first());
            assert(views(rest@) =~= views(old_rest).drop_first());
            i = i + 1;
        }
        if r.is_err() {
            assert(serialize_step(c0, b0, s[i0].0, s[i0].1) is None);
            assert(serialize_all(oc, ob, s) is None);
            assert(oc == old(newc).count());
            assert(ob == old(newc).bytes());
            assert(s == views(entries@));
            return r;
        }
    }
    proof {
        assert(s.skip(i) =~= Seq::<(PathView, EntryView)>::empty());
    }
    Ok(())
}

} // verus!
