//! Paths as the virtual filesystem sees them: a root flag and a list of components.
//!
//! A path is held as its components, the way `components()` splits it on a Unix
//! system: repeated separators and `.` components in the middle of a path are
//! dropped, a leading `.` of a relative path is kept, and `..` is kept as is.
//! Paths are ordered and compared component by component.

use crate::order::{
    bytes_lt, bytes_seq_lt, byte_lt, compare_bytes, lemma_byte_lt_strict_total,
    lemma_bytes_seq_lt_strict_total, lemma_lex_common_prefix, lemma_lex_irreflexive,
    lemma_lex_skip, lemma_lex_total, lemma_lex_transitive, lex_lt, Cmp,
};
use vstd::prelude::*;

verus! {

/// The abstract value of a path.
#[verifier::ext_equal]
pub struct PathView {
    /// Whether the path starts at the root directory.
    pub absolute: bool,
    /// The components that follow the root, in order.
    pub components: Seq<Seq<u8>>,
}

/// A path of the virtual filesystem.
#[derive(Debug)]
pub struct VfsPath {
    absolute: bool,
    components: Vec<Vec<u8>>,
}

impl View for VfsPath {
    type V = PathView;

    closed spec fn view(&self) -> PathView {
        PathView { absolute: self.absolute, components: self.components@.map_values(|c: Vec<u8>| c@) }
    }
}

pub open spec fn slash() -> u8 {
    47u8
}

pub open spec fn dot() -> u8 {
    46u8
}

pub open spec fn cur_dir() -> Seq<u8> {
    seq![dot()]
}

pub open spec fn parent_dir() -> Seq<u8> {
    seq![dot(), dot()]
}

/// The key by which a component is ordered: `.` comes first, then `..`, then
/// every other component in byte order.
pub open spec fn comp_key(c: Seq<u8>) -> Seq<u8> {
    if c == cur_dir() {
        seq![1u8]
    } else if c == parent_dir() {
        seq![2u8]
    } else {
        seq![3u8] + c
    }
}

pub open spec fn comp_keys(cs: Seq<Seq<u8>>) -> Seq<Seq<u8>> {
    cs.map_values(|c: Seq<u8>| comp_key(c))
}

/// The key by which a path is ordered: the root directory comes before any
/// other component.
pub open spec fn path_key(p: PathView) -> Seq<Seq<u8>> {
    (if p.absolute {
        seq![seq![0u8]]
    } else {
        Seq::<Seq<u8>>::empty()
    }) + comp_keys(p.components)
}

/// The order of paths: lexicographic on their components.
pub open spec fn path_lt(a: PathView, b: PathView) -> bool {
    lex_lt(path_key(a), path_key(b), bytes_seq_lt())
}

/// `a` is ordered before `b` or equal to it.
pub open spec fn path_le(a: PathView, b: PathView) -> bool {
    path_lt(a, b) || a == b
}

/// A component as `components()` yields it: not empty, without a separator.
pub open spec fn wf_component(c: Seq<u8>) -> bool {
    &&& c.len() > 0
    &&& forall|i: int| 0 <= i < c.len() ==> c[i] != slash()
}

/// A path in the form that splitting a byte string into components produces.
pub open spec fn wf_path(p: PathView) -> bool {
    &&& forall|i: int| 0 <= i < p.components.len() ==> wf_component(#[trigger] p.components[i])
    &&& forall|i: int|
        0 <= i < p.components.len() && #[trigger] p.components[i] == cur_dir() ==> i == 0
            && !p.absolute
}

/// The root directory `/`.
pub open spec fn root_path() -> PathView {
    PathView { absolute: true, components: Seq::empty() }
}

/// The parent of a path: the path without its last component, if it has one.
pub open spec fn parent_of(p: PathView) -> Option<PathView> {
    if p.components.len() == 0 {
        None
    } else {
        Some(PathView { absolute: p.absolute, components: p.components.drop_last() })
    }
}

/// The root flag of `p` and its first `k` components: the ancestor of `p`
/// that is `components().len() - k` steps up.
pub open spec fn prefix_of(p: PathView, k: int) -> PathView {
    PathView { absolute: p.absolute, components: p.components.take(k) }
}

/// `p` with `other` appended; an absolute `other` replaces `p`.
pub open spec fn join_of(p: PathView, other: PathView) -> PathView {
    if other.absolute {
        other
    } else if other.components.len() > 0 && other.components[0] == cur_dir() && (p.absolute
        || p.components.len() > 0) {
        PathView { absolute: p.absolute, components: p.components + other.components.drop_first() }
    } else {
        PathView { absolute: p.absolute, components: p.components + other.components }
    }
}

/// The final component of a path, unless it is `.` or `..`.
pub open spec fn file_name_of(p: PathView) -> Option<Seq<u8>> {
    if p.components.len() == 0 || p.components.last() == cur_dir() || p.components.last()
        == parent_dir() {
        None
    } else {
        Some(p.components.last())
    }
}

/// The relative path of the components of `p` from position `k` on.
pub open spec fn suffix_of(p: PathView, k: int) -> PathView {
    PathView { absolute: false, components: p.components.skip(k) }
}

/// `p` with its final component replaced by `name`, as `set_file_name` does:
/// the final component is removed if it is a file name, then `name` is
/// appended.
pub open spec fn with_file_name_of(p: PathView, name: PathView) -> PathView {
    let base = if file_name_of(p) is Some {
        PathView { absolute: p.absolute, components: p.components.drop_last() }
    } else {
        p
    };
    join_of(base, name)
}

/// The position of the last `.` in `c`, if there is one.
pub open spec fn last_dot(c: Seq<u8>) -> Option<int>
    decreases c.len(),
{
    if c.len() == 0 {
        None
    } else if c.last() == dot() {
        Some(c.len() - 1)
    } else {
        last_dot(c.drop_last())
    }
}

/// The stem of a file name: the part before its last `.`, unless that `.` is
/// its first byte or there is none.
pub open spec fn stem_of(c: Seq<u8>) -> Seq<u8> {
    match last_dot(c) {
        Some(i) => if i > 0 {
            c.take(i)
        } else {
            c
        },
        None => c,
    }
}

/// The extension of the file name of `p`: what follows its last `.`, unless
/// that `.` is its first byte or there is none.
pub open spec fn extension_of(p: PathView) -> Option<Seq<u8>> {
    match file_name_of(p) {
        Some(f) => match last_dot(f) {
            Some(i) => if i > 0 {
                Some(f.skip(i + 1))
            } else {
                None
            },
            None => None,
        },
        None => None,
    }
}

/// `p` with the extension of its file name replaced by `ext`, as
/// `set_extension` does; unchanged if it has no file name.
pub open spec fn with_extension_of(p: PathView, ext: Seq<u8>) -> PathView {
    match file_name_of(p) {
        None => p,
        Some(f) => PathView {
            absolute: p.absolute,
            components: p.components.drop_last().push(
                if ext.len() == 0 {
                    stem_of(f)
                } else {
                    stem_of(f) + seq![dot()] + ext
                },
            ),
        },
    }
}

/// The components joined by single separators.
pub open spec fn join_components(cs: Seq<Seq<u8>>) -> Seq<u8>
    decreases cs.len(),
{
    if cs.len() == 0 {
        Seq::empty()
    } else if cs.len() == 1 {
        cs[0]
    } else {
        join_components(cs.drop_last()) + seq![slash()] + cs.last()
    }
}

/// The bytes of a path: a separator for the root, then the components
/// separated by single separators.
pub open spec fn render(p: PathView) -> Seq<u8> {
    if p.absolute {
        seq![slash()] + join_components(p.components)
    } else {
        join_components(p.components)
    }
}

/// A run of bytes between separators becomes a component unless it is empty or `.`.
pub open spec fn keep_segment(done: Seq<Seq<u8>>, seg: Seq<u8>) -> Seq<Seq<u8>> {
    if seg.len() == 0 || seg == cur_dir() {
        done
    } else {
        done.push(seg)
    }
}

/// Scanning `b` from the left: the components completed so far and the bytes
/// of the current run.
pub open spec fn scan_segments(b: Seq<u8>) -> (Seq<Seq<u8>>, Seq<u8>)
    decreases b.len(),
{
    if b.len() == 0 {
        (Seq::empty(), Seq::empty())
    } else {
        let (done, seg) = scan_segments(b.drop_last());
        if b.last() == slash() {
            (keep_segment(done, seg), Seq::empty())
        } else {
            (done, seg.push(b.last()))
        }
    }
}

/// A relative path keeps a leading `.` as a component.
pub open spec fn has_leading_cur_dir(b: Seq<u8>) -> bool {
    ||| b =~= cur_dir()
    ||| (b.len() >= 2 && b[0] == dot() && b[1] == slash())
}

/// The path that a byte string names.
pub open spec fn parse_path(b: Seq<u8>) -> PathView {
    let absolute = b.len() > 0 && b[0] == slash();
    let (done, seg) = scan_segments(b);
    let rest = keep_segment(done, seg);
    PathView {
        absolute,
        components: if !absolute && has_leading_cur_dir(b) {
            seq![cur_dir()] + rest
        } else {
            rest
        },
    }
}

pub proof fn lemma_comp_key_injective(a: Seq<u8>, b: Seq<u8>)
    requires
        comp_key(a) == comp_key(b),
    ensures
        a == b,
{
    assert((seq![3u8] + a)[0] == 3u8);
    assert((seq![3u8] + b)[0] == 3u8);
    assert(seq![1u8][0] == 1u8);
    assert(seq![2u8][0] == 2u8);
    assert(comp_key(a)[0] == comp_key(b)[0]);
    if a != cur_dir() && a != parent_dir() && b != cur_dir() && b != parent_dir() {
        assert(a =~= comp_key(a).drop_first());
        assert(b =~= comp_key(b).drop_first());
    } else if a == cur_dir() {
        assert(b == cur_dir());
    } else if a == parent_dir() {
        assert(b == parent_dir());
    } else if b == cur_dir() {
        assert(a == cur_dir());
    } else {
        assert(a == parent_dir());
    }
}

pub proof fn lemma_comp_key_nonzero(c: Seq<u8>)
    ensures
        comp_key(c).len() > 0,
        comp_key(c)[0] != 0,
{
}

pub proof fn lemma_path_key_injective(a: PathView, b: PathView)
    requires
        path_key(a) == path_key(b),
    ensures
        a == b,
{
    let ka = comp_keys(a.components);
    let kb = comp_keys(b.components);
    if a.absolute != b.absolute {
        if a.absolute {
            if b.components.len() > 0 {
                lemma_comp_key_nonzero(b.components[0]);
                assert(path_key(b)[0] == kb[0]);
            }
            assert(path_key(a).len() == path_key(b).len());
        } else {
            if a.components.len() > 0 {
                lemma_comp_key_nonzero(a.components[0]);
                assert(path_key(a)[0] == ka[0]);
            }
            assert(path_key(a).len() == path_key(b).len());
        }
    } else {
        if a.absolute {
            assert(ka =~= path_key(a).drop_first());
            assert(kb =~= path_key(b).drop_first());
        } else {
            assert(ka =~= path_key(a));
            assert(kb =~= path_key(b));
        }
        assert(a.components.len() == b.components.len());
        assert forall|i: int| 0 <= i < a.components.len() implies a.components[i]
            == b.components[i] by {
            assert(ka[i] == kb[i]);
            lemma_comp_key_injective(a.components[i], b.components[i]);
        }
        assert(a.components =~= b.components);
    }
}

/// The order of paths is a strict total order.
pub proof fn lemma_path_order()
    ensures
        forall|a: PathView| !#[trigger] path_lt(a, a),
        forall|a: PathView, b: PathView, c: PathView|
            #[trigger] path_lt(a, b) && #[trigger] path_lt(b, c) ==> path_lt(a, c),
        forall|a: PathView, b: PathView| a != b ==> #[trigger] path_lt(a, b) || #[trigger] path_lt(b, a),
{
    lemma_bytes_seq_lt_strict_total();
    assert forall|a: PathView| !#[trigger] path_lt(a, a) by {
        lemma_lex_irreflexive(path_key(a), bytes_seq_lt());
    }
    assert forall|a: PathView, b: PathView, c: PathView|
        #[trigger] path_lt(a, b) && #[trigger] path_lt(b, c) implies path_lt(a, c) by {
        lemma_lex_transitive(path_key(a), path_key(b), path_key(c), bytes_seq_lt());
    }
    assert forall|a: PathView, b: PathView| a != b implies #[trigger] path_lt(a, b)
        || #[trigger] path_lt(b, a) by {
        if path_key(a) == path_key(b) {
            lemma_path_key_injective(a, b);
        }
        lemma_lex_total(path_key(a), path_key(b), bytes_seq_lt());
    }
}

/// Compare two components in the order of their keys.
fn compare_component(a: &Vec<u8>, b: &Vec<u8>) -> (c: Cmp)
    ensures
        c == Cmp::Less <==> bytes_lt(comp_key(a@), comp_key(b@)),
        c == Cmp::Equal <==> a@ == b@,
        c == Cmp::Greater <==> bytes_lt(comp_key(b@), comp_key(a@)),
{
    proof {
        lemma_byte_lt_strict_total();
        lemma_lex_common_prefix(seq![3u8], a@, b@, byte_lt());
        lemma_lex_common_prefix(seq![3u8], b@, a@, byte_lt());
        if comp_key(a@) == comp_key(b@) {
            lemma_comp_key_injective(a@, b@);
        }
        lemma_lex_irreflexive(comp_key(a@), byte_lt());
    }
    let ra = component_rank(a);
    let rb = component_rank(b);
    if ra < rb {
        Cmp::Less
    } else if rb < ra {
        Cmp::Greater
    } else if ra == 3 {
        compare_bytes(a.as_slice(), b.as_slice())
    } else {
        Cmp::Equal
    }
}

/// The first byte of a component's key.
fn component_rank(c: &Vec<u8>) -> (r: u8)
    ensures
        r == comp_key(c@)[0],
        1 <= r <= 3,
        r == 1 ==> c@ == cur_dir(),
        r == 2 ==> c@ == parent_dir(),
{
    if c.len() == 1 && c[0] == 46 {
        assert(c@ =~= cur_dir());
        1
    } else if c.len() == 2 && c[0] == 46 && c[1] == 46 {
        assert(c@ =~= parent_dir());
        2
    } else {
        3
    }
}

impl VfsPath {
    /// The root directory `/`.
    pub fn root() -> (p: VfsPath)
        ensures
            p@ == root_path(),
    {
        let p = VfsPath { absolute: true, components: Vec::new() };
        assert(p@.components =~= Seq::<Seq<u8>>::empty());
        p
    }

    /// Whether the path starts at the root directory.
    pub fn is_absolute(&self) -> (b: bool)
        ensures
            b == self@.absolute,
    {
        self.absolute
    }

    /// The number of components after the root.
    pub fn num_components(&self) -> (n: usize)
        ensures
            n == self@.components.len(),
    {
        self.components.len()
    }

    /// The bytes of the component at position `i`.
    pub fn component(&self, i: usize) -> (c: &Vec<u8>)
        requires
            i < self@.components.len(),
        ensures
            c@ == self@.components[i as int],
    {
        &self.components[i]
    }

    /// A copy of this path.
    pub fn duplicate(&self) -> (p: VfsPath)
        ensures
            p@ == self@,
    {
        let mut components: Vec<Vec<u8>> = Vec::new();
        let mut i: usize = 0;
        while i < self.components.len()
            invariant
                i <= self.components@.len(),
                components@.len() == i,
                forall|j: int| 0 <= j < i ==> (#[trigger] components@[j])@ == self.components@[j]@,
            decreases self.components@.len() - i,
        {
            let c = self.components[i].clone();
            assert(c@ =~= self.components@[i as int]@);
            components.push(c);
            i = i + 1;
        }
        let p = VfsPath { absolute: self.absolute, components };
        assert(p@.components =~= self@.components);
        p
    }

    /// The path made of the root flag and the first `k` components.
    pub fn prefix(&self, k: usize) -> (p: VfsPath)
        requires
            k <= self@.components.len(),
        ensures
            p@ == prefix_of(self@, k as int),
    {
        let mut components: Vec<Vec<u8>> = Vec::new();
        let mut i: usize = 0;
        while i < k
            invariant
                i <= k <= self.components@.len(),
                components@.len() == i,
                forall|j: int| 0 <= j < i ==> (#[trigger] components@[j])@ == self.components@[j]@,
            decreases k - i,
        {
            let c = self.components[i].clone();
            assert(c@ =~= self.components@[i as int]@);
            components.push(c);
            i = i + 1;
        }
        let p = VfsPath { absolute: self.absolute, components };
        assert(p@.components =~= self@.components.take(k as int));
        p
    }

    /// The relative path of the components from position `k` on.
    pub fn suffix(&self, k: usize) -> (p: VfsPath)
        requires
            k <= self@.components.len(),
        ensures
            p@ == suffix_of(self@, k as int),
    {
        let mut components: Vec<Vec<u8>> = Vec::new();
        let mut i: usize = k;
        while i < self.components.len()
            invariant
                k <= i <= self.components@.len(),
                components@.len() == i - k,
                forall|j: int| 0 <= j < i - k ==> (#[trigger] components@[j])@
                    == self.components@[j + k]@,
            decreases self.components@.len() - i,
        {
            let c = self.components[i].clone();
            assert(c@ =~= self.components@[i as int]@);
            components.push(c);
            i = i + 1;
        }
        let p = VfsPath { absolute: false, components };
        assert(p@.components =~= self@.components.skip(k as int));
        p
    }

    /// Replace the final component by `name`, as `set_file_name` does.
    pub fn set_file_name(&mut self, name: &VfsPath)
        ensures
            final(self)@ == with_file_name_of(old(self)@, name@),
    {
        if self.file_name().is_some() {
            let ghost before = self@;
            self.components.pop();
            assert(self@.components =~= before.components.drop_last());
        }
        let r = self.join(name);
        *self = r;
    }

    /// Replace the extension of the file name by `ext`, as `set_extension` does.
    pub fn set_extension(&mut self, ext: &[u8])
        ensures
            final(self)@ == with_extension_of(old(self)@, ext@),
    {
        let n = self.components.len();
        if self.file_name().is_none() {
            return;
        }
        let f = self.components.pop().unwrap();
        let ghost fv = f@;
        assert(fv == old(self)@.components.last());
        let mut stem = stem_bytes(&f);
        if ext.len() > 0 {
            stem.push(46);
            stem.extend_from_slice(ext);
        }
        let ghost sv = stem@;
        self.components.push(stem);
        proof {
            if ext@.len() == 0 {
                assert(sv == stem_of(fv));
            } else {
                assert(sv =~= stem_of(fv) + seq![dot()] + ext@);
            }
            assert(self@.components =~= old(self)@.components.drop_last().push(sv));
        }
    }

    /// Whether two paths are the same path.
    pub fn same_as(&self, other: &VfsPath) -> (b: bool)
        ensures
            b == (self@ == other@),
    {
        compare(self, other) == Cmp::Equal
    }

    /// The parent of this path, `None` for the root and for the empty path.
    pub fn parent(&self) -> (r: Option<VfsPath>)
        ensures
            r matches Some(q) ==> parent_of(self@) == Some(q@),
            r is None ==> parent_of(self@) is None,
    {
        if self.components.len() == 0 {
            None
        } else {
            let mut q = self.duplicate();
            q.components.pop();
            assert(q@.components =~= self@.components.drop_last());
            Some(q)
        }
    }

    /// This path with `other` appended; an absolute `other` replaces it.
    pub fn join(&self, other: &VfsPath) -> (r: VfsPath)
        ensures
            r@ == join_of(self@, other@),
    {
        if other.absolute {
            return other.duplicate();
        }
        let mut r = self.duplicate();
        let mut i: usize = 0;
        if other.components.len() > 0 && component_rank(&other.components[0]) == 1 && (
        self.absolute || self.components.len() > 0) {
            i = 1;
        }
        let start = i;
        while i < other.components.len()
            invariant
                start <= i <= other@.components.len(),
                r@.absolute == self@.absolute,
                r@.components =~= self@.components + other@.components.subrange(start as int, i as int),
            decreases other@.components.len() - i,
        {
            let c = other.components[i].clone();
            assert(c@ =~= other@.components[i as int]);
            let ghost before = r@.components;
            r.components.push(c);
            assert(r@.components =~= before.push(c@));
            assert(other@.components.subrange(start as int, i + 1) =~= other@.components.subrange(
                start as int,
                i as int,
            ).push(other@.components[i as int]));
            i = i + 1;
        }
        proof {
            if start == 1 {
                assert(other@.components.subrange(1, i as int) =~= other@.components.drop_first());
            } else {
                assert(other@.components.subrange(0, i as int) =~= other@.components);
            }
        }
        r
    }

    /// This path with one more component.
    pub fn join_component(&self, name: &[u8]) -> (r: VfsPath)
        requires
            wf_component(name@),
            name@ != cur_dir(),
        ensures
            r@ == join_of(self@, parse_path(name@)),
            r@ == (PathView { absolute: self@.absolute, components: self@.components.push(name@) }),
    {
        let mut r = self.duplicate();
        r.components.push(vstd::slice::slice_to_vec(name));
        proof {
            lemma_parse_single_component(name@);
        }
        assert(r@.components =~= self@.components.push(name@));
        r
    }

    /// The final component, unless it is `.` or `..`.
    pub fn file_name(&self) -> (r: Option<&Vec<u8>>)
        ensures
            r matches Some(c) ==> file_name_of(self@) == Some(c@),
            r is None ==> file_name_of(self@) is None,
    {
        let n = self.components.len();
        if n == 0 {
            None
        } else if component_rank(&self.components[n - 1]) != 3 {
            None
        } else {
            Some(&self.components[n - 1])
        }
    }

    /// The extension of the file name.
    pub fn extension(&self) -> (r: Option<Vec<u8>>)
        ensures
            r matches Some(e) ==> extension_of(self@) == Some(e@),
            r is None ==> extension_of(self@) is None,
    {
        let f = match self.file_name() {
            Some(f) => f,
            None => {
                return None;
            },
        };
        let mut i: usize = f.len();
        assert(f@.take(i as int) =~= f@);
        while i > 0 && f[i - 1] != 46
            invariant
                i <= f@.len(),
                last_dot(f@) == last_dot(f@.take(i as int)),
            decreases i,
        {
            assert(f@.take(i as int).drop_last() =~= f@.take(i - 1));
            i = i - 1;
        }
        proof {
            if i > 0 {
                assert(f@.take(i as int).last() == f@[i - 1]);
            } else {
                assert(f@.take(0) =~= Seq::<u8>::empty());
            }
        }
        if i > 1 {
            let mut e: Vec<u8> = Vec::new();
            let mut j: usize = i;
            while j < f.len()
                invariant
                    1 < i <= j <= f@.len(),
                    e@ == f@.subrange(i as int, j as int),
                decreases f@.len() - j,
            {
                e.push(f[j]);
                assert(f@.subrange(i as int, j + 1) =~= f@.subrange(i as int, j as int).push(f@[j as int]));
                j = j + 1;
            }
            assert(e@ =~= f@.skip(i as int));
            Some(e)
        } else {
            None
        }
    }

    /// The path that a byte string names, split into components as
    /// `components()` does on a Unix system.
    pub fn from_bytes(b: &[u8]) -> (p: VfsPath)
        ensures
            p@ == parse_path(b@),
            wf_path(p@),
    {
        let absolute = b.len() > 0 && b[0] == 47;
        let mut done: Vec<Vec<u8>> = Vec::new();
        let mut seg: Vec<u8> = Vec::new();
        let mut i: usize = 0;
        while i < b.len()
            invariant
                i <= b@.len(),
                (done@.map_values(|c: Vec<u8>| c@), seg@) == scan_segments(b@.take(i as int)),
                forall|j: int|
                    0 <= j < done@.len() ==> wf_component((#[trigger] done@[j])@) && done@[j]@
                        != cur_dir(),
                forall|j: int| 0 <= j < seg@.len() ==> seg@[j] != slash(),
            decreases b@.len() - i,
        {
            let ghost prev = b@.take(i as int);
            assert(b@.take(i + 1).drop_last() =~= prev);
            if b[i] == 47 {
                if seg.len() > 0 && !(seg.len() == 1 && seg[0] == 46) {
                    done.push(seg);
                } else {
                    assert(seg@.len() == 0 || seg@ =~= cur_dir());
                }
                seg = Vec::new();
            } else {
                seg.push(b[i]);
            }
            i = i + 1;
            assert(done@.map_values(|c: Vec<u8>| c@) =~= scan_segments(b@.take(i as int)).0);
            assert(seg@ =~= scan_segments(b@.take(i as int)).1);
        }
        assert(b@.take(i as int) =~= b@);
        if seg.len() > 0 && !(seg.len() == 1 && seg[0] == 46) {
            done.push(seg);
        } else {
            assert(seg@.len() == 0 || seg@ =~= cur_dir());
        }
        let ghost rest = done@.map_values(|c: Vec<u8>| c@);
        assert(rest =~= keep_segment(scan_segments(b@).0, scan_segments(b@).1));
        let lead = !absolute && (b.len() == 1 && b[0] == 46 || b.len() >= 2 && b[0] == 46 && b[1]
            == 47);
        assert(lead == (!absolute && has_leading_cur_dir(b@))) by {
            if b@.len() == 1 && b@[0] == 46 {
                assert(b@ =~= cur_dir());
            }
        }
        let components = if lead {
            let mut cs: Vec<Vec<u8>> = Vec::new();
            let dotc: Vec<u8> = vec![46u8];
            assert(dotc@ =~= cur_dir());
            cs.push(dotc);
            let ghost d = done@;
            cs.append(&mut done);
            assert(cs@ =~= seq![dotc] + d);
            assert(cs@.map_values(|c: Vec<u8>| c@) =~= seq![cur_dir()] + rest);
            cs
        } else {
            done
        };
        let p = VfsPath { absolute, components };
        assert(p@.components =~= parse_path(b@).components);
        p
    }

    /// The components joined by single separators, without the root.
    pub fn components_bytes(&self) -> (b: Vec<u8>)
        ensures
            b@ == join_components(self@.components),
    {
        let mut b: Vec<u8> = Vec::new();
        let mut i: usize = 0;
        while i < self.components.len()
            invariant
                i <= self@.components.len(),
                b@ == join_components(self@.components.take(i as int)),
            decreases self@.components.len() - i,
        {
            assert(self@.components.take(i + 1).drop_last() =~= self@.components.take(i as int));
            if i > 0 {
                b.push(47);
            }
            let ghost before = b@;
            b.extend_from_slice(self.components[i].as_slice());
            proof {
                let c = self@.components[i as int];
                assert(self@.components.take(i + 1).last() == c);
                if i == 0 {
                    assert(self@.components.take(1) =~= seq![c]);
                }
                assert(b@ =~= before + c);
            }
            i = i + 1;
        }
        assert(self@.components.take(i as int) =~= self@.components);
        b
    }

    /// The bytes of this path: a separator for the root, then the components
    /// separated by single separators.
    pub fn to_bytes(&self) -> (b: Vec<u8>)
        ensures
            b@ == render(self@),
    {
        let mut rest = self.components_bytes();
        if self.absolute {
            let mut b: Vec<u8> = Vec::new();
            b.push(47);
            let ghost r = rest@;
            b.append(&mut rest);
            assert(b@ =~= seq![slash()] + r);
            b
        } else {
            rest
        }
    }

    /// The path with the given root flag and components.
    pub fn new(absolute: bool, components: Vec<Vec<u8>>) -> (p: VfsPath)
        ensures
            p@ == (PathView {
                absolute,
                components: components@.map_values(|c: Vec<u8>| c@),
            }),
    {
        VfsPath { absolute, components }
    }
}

fn stem_bytes(c: &Vec<u8>) -> (r: Vec<u8>)
    ensures
        r@ == stem_of(c@),
{
    let mut i: usize = c.len();
    assert(c@.take(i as int) =~= c@);
    while i > 0 && c[i - 1] != 46
        invariant
            i <= c@.len(),
            last_dot(c@) == last_dot(c@.take(i as int)),
        decreases i,
    {
        assert(c@.take(i as int).drop_last() =~= c@.take(i - 1));
        i = i - 1;
    }
    proof {
        if i > 0 {
            assert(c@.take(i as int).last() == c@[i - 1]);
        } else {
            assert(c@.take(0) =~= Seq::<u8>::empty());
        }
    }
    if i > 1 {
        let mut r: Vec<u8> = Vec::new();
        let mut j: usize = 0;
        while j < i - 1
            invariant
                j <= i - 1,
                i <= c@.len(),
                r@ == c@.take(j as int),
            decreases i - 1 - j,
        {
            r.push(c[j]);
            assert(c@.take(j + 1) =~= c@.take(j as int).push(c@[j as int]));
            j = j + 1;
        }
        r
    } else {
        c.clone()
    }
}

proof fn lemma_parse_single_component(name: Seq<u8>)
    requires
        wf_component(name),
        name != cur_dir(),
    ensures
        parse_path(name) == (PathView { absolute: false, components: seq![name] }),
{
    assert forall|k: int| 0 <= k <= name.len() implies scan_segments(#[trigger] name.take(k))
        == (Seq::<Seq<u8>>::empty(), name.take(k)) by {
        lemma_scan_no_slash(name, k);
    }
    assert(name.take(name.len() as int) =~= name);
    if name.len() >= 2 {
        assert(name[1] != slash());
    }
    assert(!has_leading_cur_dir(name));
    assert(parse_path(name).components =~= seq![name]);
}

proof fn lemma_scan_no_slash(name: Seq<u8>, k: int)
    requires
        wf_component(name),
        0 <= k <= name.len(),
    ensures
        scan_segments(name.take(k)) == (Seq::<Seq<u8>>::empty(), name.take(k)),
    decreases k,
{
    if k > 0 {
        assert(name.take(k).drop_last() =~= name.take(k - 1));
        lemma_scan_no_slash(name, k - 1);
        assert(name.take(k - 1).push(name[k - 1]) =~= name.take(k));
    } else {
        assert(name.take(0) =~= Seq::<u8>::empty());
    }
}

/// Compare two paths component by component.
pub fn compare(a: &VfsPath, b: &VfsPath) -> (c: Cmp)
    ensures
        c == Cmp::Less <==> path_lt(a@, b@),
        c == Cmp::Equal <==> a@ == b@,
        c == Cmp::Greater <==> path_lt(b@, a@),
{
    proof {
        lemma_path_order();
        lemma_bytes_seq_lt_strict_total();
    }
    let ghost ka = comp_keys(a@.components);
    let ghost kb = comp_keys(b@.components);
    if a.absolute != b.absolute {
        proof {
            if a@.absolute {
                if b@.components.len() > 0 {
                    lemma_comp_key_nonzero(b@.components[0]);
                    assert(path_key(b@)[0] == kb[0]);
                    assert(path_key(a@)[0] =~= seq![0u8]);
                    assert(bytes_lt(seq![0u8], kb[0]));
                }
            } else {
                if a@.components.len() > 0 {
                    lemma_comp_key_nonzero(a@.components[0]);
                    assert(path_key(a@)[0] == ka[0]);
                    assert(path_key(b@)[0] =~= seq![0u8]);
                    assert(bytes_lt(seq![0u8], ka[0]));
                }
            }
        }
        if a.absolute {
            if b.components.len() == 0 {
                return Cmp::Greater;
            } else {
                return Cmp::Less;
            }
        } else {
            if a.components.len() == 0 {
                return Cmp::Less;
            } else {
                return Cmp::Greater;
            }
        }
    }
    proof {
        let pre = if a@.absolute {
            seq![seq![0u8]]
        } else {
            Seq::<Seq<u8>>::empty()
        };
        lemma_lex_common_prefix(pre, ka, kb, bytes_seq_lt());
        lemma_lex_common_prefix(pre, kb, ka, bytes_seq_lt());
    }
    let mut i: usize = 0;
    while i < a.components.len() && i < b.components.len()
        invariant
            0 <= i <= a@.components.len(),
            i <= b@.components.len(),
            ka == comp_keys(a@.components),
            kb == comp_keys(b@.components),
            a@.absolute == b@.absolute,
            path_lt(a@, b@) == lex_lt(ka, kb, bytes_seq_lt()),
            path_lt(b@, a@) == lex_lt(kb, ka, bytes_seq_lt()),
            a@.components.take(i as int) == b@.components.take(i as int),
        decreases a@.components.len() - i,
    {
        let c = compare_component(&a.components[i], &b.components[i]);
        assert(ka.take(i as int) =~= kb.take(i as int)) by {
            assert forall|j: int| 0 <= j < i implies ka[j] == kb[j] by {
                assert(a@.components.take(i as int)[j] == b@.components.take(i as int)[j]);
            }
        }
        assert(ka[i as int] == comp_key(a@.components[i as int]));
        assert(kb[i as int] == comp_key(b@.components[i as int]));
        assert(a@.components[i as int] == a.components@[i as int]@);
        assert(b@.components[i as int] == b.components@[i as int]@);
        if c != Cmp::Equal {
            proof {
                lemma_lex_skip(ka, kb, i as int, bytes_seq_lt());
                lemma_lex_skip(kb, ka, i as int, bytes_seq_lt());
                assert(ka.skip(i as int)[0] == ka[i as int]);
                assert(kb.skip(i as int)[0] == kb[i as int]);
                if ka[i as int] == kb[i as int] {
                    lemma_comp_key_injective(a@.components[i as int], b@.components[i as int]);
                }
                assert(lex_lt(ka.skip(i as int), kb.skip(i as int), bytes_seq_lt()) == bytes_lt(
                    ka[i as int],
                    kb[i as int],
                ));
                assert(lex_lt(kb.skip(i as int), ka.skip(i as int), bytes_seq_lt()) == bytes_lt(
                    kb[i as int],
                    ka[i as int],
                ));
            }
            return c;
        }
        assert(a@.components.take(i + 1) =~= a@.components.take(i as int).push(
            a@.components[i as int],
        ));
        assert(b@.components.take(i + 1) =~= b@.components.take(i as int).push(
            b@.components[i as int],
        ));
        i = i + 1;
    }
    proof {
        assert(ka.take(i as int) =~= kb.take(i as int)) by {
            assert forall|j: int| 0 <= j < i implies ka[j] == kb[j] by {
                assert(a@.components.take(i as int)[j] == b@.components.take(i as int)[j]);
            }
        }
        lemma_lex_skip(ka, kb, i as int, bytes_seq_lt());
        lemma_lex_skip(kb, ka, i as int, bytes_seq_lt());
        if a@.components.len() == b@.components.len() {
            assert(a@.components =~= a@.components.take(i as int));
            assert(b@.components =~= b@.components.take(i as int));
            assert(a@ =~= b@);
        } else {
            assert(a@ != b@);
        }
    }
    if a.components.len() == b.components.len() {
        Cmp::Equal
    } else if a.components.len() < b.components.len() {
        Cmp::Less
    } else {
        Cmp::Greater
    }
}

} // verus!
