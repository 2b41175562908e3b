//! Kernel modules: recognizing their compression, reading their dependencies
//! from their information, and where they are installed in the initramfs.
//!
//! Looking modules up is left to libkmod, outside of this library; what is
//! decided from its answers is here.

use crate::path::{
    join_of, parse_path, suffix_of, with_extension_of, with_file_name_of, PathView, VfsPath,
};
use crate::text::{
    split, split_chars, str_eq, string_views, strip_prefix, strip_prefix_chars,
};
use vstd::prelude::*;

verus! {

/// Custom error type for kernel module handling.
#[derive(Debug)]
pub enum KmodError {
    InputOutput(std::io::Error),
    Utf8Conversion(std::str::Utf8Error),
    /// A string meant for libkmod holds a nul byte at this position.
    InteriorNulByte(usize),
    ContextNewFailed,
    ModuleFromNameFailed(String),
    ModuleFromPathFailed(VfsPath),
    ModuleGetInfoFailed(String),
    TooSmallForMagic,
    UnknownMagic,
    BadDirectory(VfsPath),
    ModuleBuiltIn,
}

/// Compression formats of kernel modules.
#[derive(Clone, Copy, PartialEq, Eq, Structural, Debug)]
pub enum ModuleFormat {
    Elf,
    Zstd,
    Xz,
    Gzip,
}

/// The bytes needed to tell the formats apart.
pub const FORMAT_MIN_BYTES_LEN: usize = 6;

pub open spec fn magic_elf() -> Seq<u8> {
    seq![0x7fu8, 0x45u8, 0x4cu8, 0x46u8]
}

pub open spec fn magic_zstd() -> Seq<u8> {
    seq![0x28u8, 0xb5u8, 0x2fu8, 0xfdu8]
}

pub open spec fn magic_xz() -> Seq<u8> {
    seq![0xfdu8, 0x37u8, 0x7au8, 0x58u8, 0x5au8, 0x00u8]
}

pub open spec fn magic_gz() -> Seq<u8> {
    seq![0x1fu8, 0x8bu8]
}

/// Why the format of some data could not be told.
pub enum MagicFault {
    TooSmall,
    Unknown,
}

/// The format of module data, by its first bytes: ELF, then zstd, then xz,
/// then gzip, once at least six bytes are there.
pub open spec fn format_of(d: Seq<u8>) -> Result<ModuleFormat, MagicFault> {
    if d.len() < 6 {
        Err(MagicFault::TooSmall)
    } else if d.subrange(0, 4) == magic_elf() {
        Ok(ModuleFormat::Elf)
    } else if d.subrange(0, 4) == magic_zstd() {
        Ok(ModuleFormat::Zstd)
    } else if d.subrange(0, 6) == magic_xz() {
        Ok(ModuleFormat::Xz)
    } else if d.subrange(0, 2) == magic_gz() {
        Ok(ModuleFormat::Gzip)
    } else {
        Err(MagicFault::Unknown)
    }
}

/// The file extension of modules in each format.
pub open spec fn extension_of(f: ModuleFormat) -> Seq<char> {
    match f {
        ModuleFormat::Elf => seq!['k', 'o'],
        ModuleFormat::Zstd => seq!['k', 'o', '.', 'z', 's', 't'],
        ModuleFormat::Xz => seq!['k', 'o', '.', 'x', 'z'],
        ModuleFormat::Gzip => seq!['k', 'o', '.', 'g', 'z'],
    }
}

fn starts_with(d: &[u8], m: &[u8]) -> (r: bool)
    requires
        m@.len() <= d@.len(),
    ensures
        r == (d@.subrange(0, m@.len() as int) == m@),
{
    let mut i: usize = 0;
    while i < m.len()
        invariant
            i <= m@.len() <= d@.len(),
            forall|j: int| 0 <= j < i ==> d@[j] == m@[j],
        decreases m@.len() - i,
    {
        if d[i] != m[i] {
            assert(d@.subrange(0, m@.len() as int)[i as int] != m@[i as int]);
            return false;
        }
        i = i + 1;
    }
    assert(d@.subrange(0, m@.len() as int) =~= m@);
    true
}

impl ModuleFormat {
    /// The format of module data, by its magic number.
    pub fn from_bytes(data: &[u8]) -> (r: Result<ModuleFormat, KmodError>)
        ensures
            match format_of(data@) {
                Ok(f) => r == Ok::<ModuleFormat, KmodError>(f),
                Err(MagicFault::TooSmall) => r matches Err(KmodError::TooSmallForMagic),
                Err(MagicFault::Unknown) => r matches Err(KmodError::UnknownMagic),
            },
    {
        if data.len() < FORMAT_MIN_BYTES_LEN {
            return Err(KmodError::TooSmallForMagic);
        }
        let elf = [0x7fu8, 0x45u8, 0x4cu8, 0x46u8];
        let zstd = [0x28u8, 0xb5u8, 0x2fu8, 0xfdu8];
        let xz = [0xfdu8, 0x37u8, 0x7au8, 0x58u8, 0x5au8, 0x00u8];
        let gz = [0x1fu8, 0x8bu8];
        assert(elf@ =~= magic_elf());
        assert(zstd@ =~= magic_zstd());
        assert(xz@ =~= magic_xz());
        assert(gz@ =~= magic_gz());
        if starts_with(data, &elf) {
            return Ok(ModuleFormat::Elf);
        }
        if starts_with(data, &zstd) {
            return Ok(ModuleFormat::Zstd);
        }
        if starts_with(data, &xz) {
            return Ok(ModuleFormat::Xz);
        }
        if starts_with(data, &gz) {
            return Ok(ModuleFormat::Gzip);
        }
        Err(KmodError::UnknownMagic)
    }

    /// The file extension of modules in this format.
    pub fn extension(&self) -> (r: &'static str)
        ensures
            r@ == extension_of(*self),
    {
        match self {
            ModuleFormat::Elf => {
                proof {
                    reveal_strlit("ko");
                }
                "ko"
            },
            ModuleFormat::Zstd => {
                proof {
                    reveal_strlit("ko.zst");
                }
                "ko.zst"
            },
            ModuleFormat::Xz => {
                proof {
                    reveal_strlit("ko.xz");
                }
                "ko.xz"
            },
            ModuleFormat::Gzip => {
                proof {
                    reveal_strlit("ko.gz");
                }
                "ko.gz"
            },
        }
    }
}

/// `kernel`, the directory of in-tree modules.
pub open spec fn kernel_dir() -> Seq<u8> {
    seq![107u8, 101, 114, 110, 101, 108]
}

/// `/usr/lib/modules`, where module trees are installed.
pub open spec fn modules_root() -> PathView {
    PathView {
        absolute: true,
        components: seq![
            seq![117u8, 115, 114],
            seq![108u8, 105, 98],
            seq![109u8, 111, 100, 117, 108, 101, 115],
        ],
    }
}

/// `ko`, the extension of an uncompressed module.
pub open spec fn ko_extension() -> Seq<u8> {
    seq![107u8, 111]
}

/// The position of the first `kernel` component, or the number of components.
pub open spec fn kernel_start(cs: Seq<Seq<u8>>) -> int
    decreases cs.len(),
{
    if cs.len() == 0 || cs[0] == kernel_dir() {
        0
    } else {
        1 + kernel_start(cs.drop_first())
    }
}

/// Where a module found at `host` is installed: under
/// `/usr/lib/modules/<release>`, at the part of `host` that starts with its
/// `kernel` component, with the file name replaced by the module's name and
/// the extension `ko`.
pub open spec fn install_path_of(host: PathView, release: Seq<u8>, name: Seq<u8>) -> PathView {
    let base = join_of(
        join_of(modules_root(), parse_path(release)),
        suffix_of(host, kernel_start(host.components)),
    );
    with_extension_of(with_file_name_of(base, parse_path(name)), ko_extension())
}

proof fn lemma_kernel_start_bound(cs: Seq<Seq<u8>>)
    ensures
        0 <= kernel_start(cs) <= cs.len(),
    decreases cs.len(),
{
    if cs.len() > 0 && cs[0] != kernel_dir() {
        lemma_kernel_start_bound(cs.drop_first());
    }
}

fn find_kernel_component(host: &VfsPath) -> (k: usize)
    ensures
        k == kernel_start(host@.components),
        k <= host@.components.len(),
{
    let n = host.num_components();
    let mut i: usize = 0;
    proof {
        lemma_kernel_start_bound(host@.components);
        assert(host@.components.skip(0) =~= host@.components);
    }
    while i < n
        invariant
            n == host@.components.len(),
            i <= n,
            kernel_start(host@.components) == i + kernel_start(host@.components.skip(i as int)),
        decreases n - i,
    {
        let c = host.component(i);
        if c.len() == 6 && c[0] == 107 && c[1] == 101 && c[2] == 114 && c[3] == 110 && c[4] == 101
            && c[5] == 108 {
            proof {
                assert(host@.components.skip(i as int)[0] == c@);
                assert(c@ =~= kernel_dir());
            }
            return i;
        }
        proof {
            let rest = host@.components.skip(i as int);
            assert(rest[0] == c@);
            if c@ == kernel_dir() {
                assert(c@[0] == 107 && c@[1] == 101 && c@[2] == 114 && c@[3] == 110 && c@[4] == 101
                    && c@[5] == 108);
            }
            assert(rest.drop_first() =~= host@.components.skip(i + 1));
        }
        i = i + 1;
    }
    assert(host@.components.skip(i as int).len() == 0);
    i
}

/// Where a kernel module is installed in the initramfs, from the path where it
/// was found on the host (`None` for a built-in module), the kernel release
/// and the module's name.
pub fn module_install_path(host_path: Option<&VfsPath>, kernel_release: &[u8], name: &[u8]) -> (r:
    Result<VfsPath, KmodError>)
    ensures
        match host_path {
            None => r matches Err(KmodError::ModuleBuiltIn),
            Some(h) => r matches Ok(p) && p@ == install_path_of(h@, kernel_release@, name@),
        },
{
    let host = match host_path {
        None => {
            return Err(KmodError::ModuleBuiltIn);
        },
        Some(h) => h,
    };
    let k = find_kernel_component(host);
    let root = VfsPath::root().join_component(&[117u8, 115, 114]).join_component(
        &[108u8, 105, 98],
    ).join_component(&[109u8, 111, 100, 117, 108, 101, 115]);
    assert(root@ =~= modules_root());
    let release = VfsPath::from_bytes(kernel_release);
    let mut path = root.join(&release).join(&host.suffix(k));
    path.set_file_name(&VfsPath::from_bytes(name));
    path.set_extension(&[107u8, 111]);
    assert([107u8, 111]@ =~= ko_extension());
    Ok(path)
}

/// Information read from a kernel module.
pub struct ModuleInfo {
    aliases: Vec<String>,
    depends: Vec<String>,
    softpre: Vec<String>,
    softpost: Vec<String>,
}

/// The abstract value of module information.
#[verifier::ext_equal]
pub struct ModuleInfoView {
    pub aliases: Seq<Seq<char>>,
    pub depends: Seq<Seq<char>>,
    pub softpre: Seq<Seq<char>>,
    pub softpost: Seq<Seq<char>>,
}

impl View for ModuleInfo {
    type V = ModuleInfoView;

    closed spec fn view(&self) -> ModuleInfoView {
        ModuleInfoView {
            aliases: string_views(self.aliases@),
            depends: string_views(self.depends@),
            softpre: string_views(self.softpre@),
            softpost: string_views(self.softpost@),
        }
    }
}

pub open spec fn alias_key() -> Seq<char> {
    seq!['a', 'l', 'i', 'a', 's']
}

pub open spec fn depends_key() -> Seq<char> {
    seq!['d', 'e', 'p', 'e', 'n', 'd', 's']
}

pub open spec fn softdep_key() -> Seq<char> {
    seq!['s', 'o', 'f', 't', 'd', 'e', 'p']
}

pub open spec fn pre_prefix() -> Seq<char> {
    seq!['p', 'r', 'e', ':', ' ']
}

pub open spec fn post_prefix() -> Seq<char> {
    seq!['p', 'o', 's', 't', ':', ' ']
}

/// The keys whose values are read.
pub open spec fn is_read_key(key: Seq<char>) -> bool {
    key == alias_key() || key == depends_key() || key == softdep_key()
}

/// The non-empty pieces of a comma-separated list.
pub open spec fn nonempty_pieces(v: Seq<char>) -> Seq<Seq<char>> {
    split_chars(v, ',').filter(|p: Seq<char>| p.len() > 0)
}

/// Reading one key and its value: an alias, a comma-separated list of
/// dependencies, or a soft dependency that comes before (`pre: `) or after
/// (`post: `) the module. Other keys are ignored.
pub open spec fn info_step(i: ModuleInfoView, key: Seq<char>, value: Seq<char>) -> ModuleInfoView {
    if key == alias_key() {
        ModuleInfoView { aliases: i.aliases.push(value), ..i }
    } else if key == depends_key() {
        ModuleInfoView { depends: i.depends + nonempty_pieces(value), ..i }
    } else if key == softdep_key() {
        match strip_prefix_chars(value, pre_prefix()) {
            Some(t) => ModuleInfoView { softpre: i.softpre.push(t), ..i },
            None => match strip_prefix_chars(value, post_prefix()) {
                Some(t) => ModuleInfoView { softpost: i.softpost.push(t), ..i },
                None => i,
            },
        }
    } else {
        i
    }
}

pub open spec fn empty_info() -> ModuleInfoView {
    ModuleInfoView {
        aliases: Seq::empty(),
        depends: Seq::empty(),
        softpre: Seq::empty(),
        softpost: Seq::empty(),
    }
}

/// The value of a key, if it is valid UTF-8.
pub open spec fn value_view(v: Result<String, std::str::Utf8Error>) -> Option<Seq<char>> {
    match v {
        Ok(s) => Some(s@),
        Err(_) => None,
    }
}

/// Reading the (key, value) pairs in order; a read key whose value is not
/// valid UTF-8 fails at its position.
pub open spec fn info_from(p: Seq<(Seq<char>, Option<Seq<char>>)>) -> Result<ModuleInfoView, int>
    decreases p.len(),
{
    if p.len() == 0 {
        Ok(empty_info())
    } else {
        match info_from(p.drop_last()) {
            Err(k) => Err(k),
            Ok(v) => {
                let (key, value) = p.last();
                if is_read_key(key) {
                    match value {
                        Some(x) => Ok(info_step(v, key, x)),
                        None => Err(p.len() - 1),
                    }
                } else {
                    Ok(v)
                }
            },
        }
    }
}

proof fn lemma_nonempty_pieces_nonempty(v: Seq<char>)
    ensures
        forall|k: int| 0 <= k < nonempty_pieces(v).len() ==> #[trigger] nonempty_pieces(v)[k].len() > 0,
{
    broadcast use vstd::seq_lib::group_filter_ensures;

}

proof fn lemma_split_all_separators(v: Seq<char>)
    requires
        forall|j: int| 0 <= j < v.len() ==> #[trigger] v[j] == ',',
    ensures
        forall|k: int| 0 <= k < split_chars(v, ',').len() ==> #[trigger] split_chars(v, ',')[k].len() == 0,
    decreases v.len(),
{
    if v.len() > 0 {
        let w = v.drop_last();
        assert forall|j: int| 0 <= j < w.len() implies #[trigger] w[j] == ',' by {
            assert(w[j] == v[j]);
        }
        lemma_split_all_separators(w);
        assert(v.last() == v[v.len() - 1]);
        let r = split_chars(w, ',');
        assert(split_chars(v, ',') == r.push(Seq::<char>::empty()));
        assert forall|k: int| 0 <= k < split_chars(v, ',').len() implies #[trigger] split_chars(v, ',')[k].len()
            == 0 by {
            if k < r.len() {
                assert(split_chars(v, ',')[k] == r[k]);
            }
        }
    } else {
        assert(split_chars(v, ',') == seq![Seq::<char>::empty()]);
    }
}

/// The dependencies of a module are never empty names: each of them is a
/// non-empty piece of a `depends` value; and a `depends` value with nothing
/// but commas in it (an empty one, as for a module with no dependencies)
/// adds no dependency.
pub proof fn lemma_depends_nonempty(p: Seq<(Seq<char>, Option<Seq<char>>)>, i: ModuleInfoView, v: Seq<char>)
    ensures
        info_from(p) matches Ok(info) ==> forall|k: int|
            0 <= k < info.depends.len() ==> #[trigger] info.depends[k].len() > 0,
        (forall|j: int| 0 <= j < v.len() ==> #[trigger] v[j] == ',') ==> info_step(i, depends_key(), v)
            == i,
    decreases p.len(),
{
    if p.len() > 0 {
        lemma_depends_nonempty(p.drop_last(), i, v);
        if let Ok(info) = info_from(p) {
            let prev = info_from(p.drop_last())->Ok_0;
            let (key, value) = p.last();
            if key == depends_key() {
                let x = value->0;
                lemma_nonempty_pieces_nonempty(x);
                assert forall|k: int| 0 <= k < info.depends.len() implies #[trigger] info.depends[k].len() > 0 by {
                    if k < prev.depends.len() {
                        assert(info.depends[k] == prev.depends[k]);
                    } else {
                        assert(info.depends[k] == nonempty_pieces(x)[k - prev.depends.len()]);
                    }
                }
            }
        }
    }
    if forall|j: int| 0 <= j < v.len() ==> #[trigger] v[j] == ',' {
        lemma_split_all_separators(v);
        let ps = split_chars(v, ',');
        let f = nonempty_pieces(v);
        if f.len() > 0 {
            broadcast use vstd::seq_lib::group_filter_ensures;

            assert(f[0].len() > 0);
            ps.lemma_filter_contains_rev(|q: Seq<char>| q.len() > 0, f[0]);
            let j = choose|j: int| 0 <= j < ps.len() && ps[j] == f[0];
            assert(ps[j].len() == 0);
        }
        assert(i.depends + f =~= i.depends);
        assert(info_step(i, depends_key(), v) =~= i);
    }
}

/// The values of the `alias` keys, in order.
pub open spec fn aliases_of(p: Seq<(Seq<char>, Option<Seq<char>>)>) -> Seq<Seq<char>>
    decreases p.len(),
{
    if p.len() == 0 {
        Seq::empty()
    } else {
        let r = aliases_of(p.drop_last());
        let (key, value) = p.last();
        if key == alias_key() && value is Some {
            r.push(value->0)
        } else {
            r
        }
    }
}

/// The non-empty comma-separated pieces of every `depends` value, in order.
pub open spec fn depends_of(p: Seq<(Seq<char>, Option<Seq<char>>)>) -> Seq<Seq<char>>
    decreases p.len(),
{
    if p.len() == 0 {
        Seq::empty()
    } else {
        let r = depends_of(p.drop_last());
        let (key, value) = p.last();
        if key == depends_key() && value is Some {
            r + nonempty_pieces(value->0)
        } else {
            r
        }
    }
}

/// The `softdep` values that start with `prefix`, without it, in order.
pub open spec fn softdeps_of(p: Seq<(Seq<char>, Option<Seq<char>>)>, prefix: Seq<char>) -> Seq<Seq<char>>
    decreases p.len(),
{
    if p.len() == 0 {
        Seq::empty()
    } else {
        let r = softdeps_of(p.drop_last(), prefix);
        let (key, value) = p.last();
        if key == softdep_key() && value is Some && strip_prefix_chars(value->0, prefix) is Some {
            r.push(strip_prefix_chars(value->0, prefix)->0)
        } else {
            r
        }
    }
}

/// Module information read from its pairs, list by list: the aliases are the
/// `alias` values; the dependencies, the non-empty comma-separated pieces of
/// every `depends` value; the soft dependencies before and after the module,
/// the `softdep` values that start with `pre: ` and `post: `, without that
/// prefix; each in the order of the pairs, other keys ignored.
pub proof fn lemma_info_lists(p: Seq<(Seq<char>, Option<Seq<char>>)>)
    requires
        info_from(p) is Ok,
    ensures
        info_from(p)->Ok_0 == (ModuleInfoView {
            aliases: aliases_of(p),
            depends: depends_of(p),
            softpre: softdeps_of(p, pre_prefix()),
            softpost: softdeps_of(p, post_prefix()),
        }),
    decreases p.len(),
{
    if p.len() > 0 {
        lemma_info_lists(p.drop_last());
        let (key, value) = p.last();
        if key == softdep_key() && value is Some {
            let x = value->0;
            if strip_prefix_chars(x, pre_prefix()) is Some {
                assert(x[1] == 'r');
                assert(strip_prefix_chars(x, post_prefix()) is None) by {
                    if post_prefix().len() <= x.len() && x.subrange(0, post_prefix().len() as int) == post_prefix() {
                        assert(x.subrange(0, post_prefix().len() as int)[1] == x[1]);
                    }
                }
            }
        }
    }
}

pub open spec fn pair_views(p: Seq<(String, Result<String, std::str::Utf8Error>)>) -> Seq<
    (Seq<char>, Option<Seq<char>>),
> {
    p.map_values(|x: (String, Result<String, std::str::Utf8Error>)| (x.0@, value_view(x.1)))
}

proof fn lemma_info_err_prefix(p: Seq<(Seq<char>, Option<Seq<char>>)>, k: int)
    requires
        0 <= k <= p.len(),
        info_from(p.take(k)) is Err,
    ensures
        info_from(p) == info_from(p.take(k)),
    decreases p.len() - k,
{
    if k < p.len() {
        assert(p.take(k + 1).drop_last() =~= p.take(k));
        lemma_info_err_prefix(p, k + 1);
    } else {
        assert(p.take(k) =~= p);
    }
}

impl ModuleInfo {
    /// Read the information of a module from its (key, value) pairs, in the
    /// order libkmod lists them.
    pub fn from_pairs(pairs: Vec<(String, Result<String, std::str::Utf8Error>)>) -> (r: Result<
        ModuleInfo,
        KmodError,
    >)
        ensures
            match info_from(pair_views(pairs@)) {
                Ok(v) => r matches Ok(m) && m@ == v,
                Err(k) => 0 <= k < pairs@.len() && (r matches Err(KmodError::Utf8Conversion(e))
                    && pairs@[k].1 == Err::<String, std::str::Utf8Error>(e)),
            },
    {
        let mut info = ModuleInfo {
            aliases: Vec::new(),
            depends: Vec::new(),
            softpre: Vec::new(),
            softpost: Vec::new(),
        };
        let ghost pv = pair_views(pairs@);
        let mut rest = pairs;
        let ghost mut n: int = 0;
        let ghost all = rest@;
        proof {
            assert(info@ =~= empty_info());
            assert(pv.take(0) =~= Seq::<(Seq<char>, Option<Seq<char>>)>::empty());
            assert(rest@ =~= all.skip(0));
        }
        while rest.len() > 0
            invariant
                0 <= n <= all.len(),
                all == pairs@,
                pv == pair_views(all),
                rest@ == all.skip(n),
                info_from(pv.take(n)) == Ok::<ModuleInfoView, int>(info@),
            decreases rest@.len(),
        {
            let ghost old_rest = rest@;
            let (key, value) = rest.remove(0);
            proof {
                assert(all.skip(n)[0] == all[n]);
                assert(pv[n] == (key@, value_view(value)));
                assert(pv.take(n + 1).drop_last() =~= pv.take(n));
                assert(pv.take(n + 1).last() == pv[n]);
                assert(rest@ =~= all.skip(n + 1));
            }
            let is_alias = str_eq(key.as_str(), "alias");
            let is_depends = str_eq(key.as_str(), "depends");
            let is_softdep = str_eq(key.as_str(), "softdep");
            proof {
                reveal_strlit("alias");
                reveal_strlit("depends");
                reveal_strlit("softdep");
                assert("alias"@ =~= alias_key());
                assert("depends"@ =~= depends_key());
                assert("softdep"@ =~= softdep_key());
            }
            if is_alias || is_depends || is_softdep {
                match value {
                    Err(e) => {
                        proof {
                            assert(info_from(pv.take(n + 1)) == Err::<ModuleInfoView, int>(n));
                            lemma_info_err_prefix(pv, n + 1);
                        }
                        return Err(KmodError::Utf8Conversion(e));
                    },
                    Ok(v) => {
                        let ghost before = info@;
                        info.read(&key, v, is_alias, is_depends, is_softdep);
                        assert(info@ == info_step(before, key@, v@));
                    },
                }
            }
            proof {
                n = n + 1;
            }
        }
        assert(pv.take(n) =~= pv);
        Ok(info)
    }

    fn read(&mut self, key: &String, value: String, is_alias: bool, is_depends: bool, is_softdep: bool)
        requires
            is_alias == (key@ == alias_key()),
            is_depends == (key@ == depends_key()),
            is_softdep == (key@ == softdep_key()),
        ensures
            final(self)@ == info_step(old(self)@, key@, value@),
    {
        if is_alias {
            let ghost before = self@;
            self.aliases.push(value);
            assert(self@.aliases =~= before.aliases.push(value@));
        } else if is_depends {
            let pieces = split(value.as_str(), ',');
            let ghost before = self@;
            let ghost ps = string_views(pieces@);
            let mut i: usize = 0;
            assert(ps.take(0).filter(|p: Seq<char>| p.len() > 0) =~= Seq::<Seq<char>>::empty())
                by {
                reveal(Seq::filter);
            }
            assert(self@.depends =~= before.depends + ps.take(0).filter(|p: Seq<char>| p.len() > 0));
            while i < pieces.len()
                invariant
                    i <= pieces@.len(),
                    ps == string_views(pieces@),
                    ps == split_chars(value@, ','),
                    self@ == (ModuleInfoView {
                        depends: before.depends + ps.take(i as int).filter(
                            |p: Seq<char>| p.len() > 0,
                        ),
                        ..before
                    }),
                decreases pieces@.len() - i,
            {
                let ghost d0 = self@.depends;
                proof {
                    assert(ps.take(i + 1) =~= ps.take(i as int).push(ps[i as int]));
                    ps.take(i as int).lemma_filter_push(ps[i as int], |p: Seq<char>| p.len() > 0);
                    assert(ps[i as int] == pieces@[i as int]@);
                }
                if !pieces[i].as_str().is_empty() {
                    self.depends.push(pieces[i].clone());
                    assert(self@.depends =~= d0.push(ps[i as int]));
                }
                i = i + 1;
            }
            assert(ps.take(i as int) =~= ps);
            assert(self@ =~= info_step(before, key@, value@));
        } else if is_softdep {
            let pre = strip_prefix(value.as_str(), "pre: ");
            proof {
                reveal_strlit("pre: ");
                reveal_strlit("post: ");
                assert("pre: "@ =~= pre_prefix());
                assert("post: "@ =~= post_prefix());
            }
            match pre {
                Some(t) => {
                    let ghost before = self@;
                    self.softpre.push(t);
                    assert(self@.softpre =~= before.softpre.push(t@));
                },
                None => {
                    match strip_prefix(value.as_str(), "post: ") {
                        Some(t) => {
                            let ghost before = self@;
                            self.softpost.push(t);
                            assert(self@.softpost =~= before.softpost.push(t@));
                        },
                        None => {},
                    }
                },
            }
        }
    }

    /// The aliases of the module.
    pub fn aliases(&self) -> (r: &Vec<String>)
        ensures
            string_views(r@) == self@.aliases,
    {
        &self.aliases
    }

    /// The dependencies of the module.
    pub fn depends(&self) -> (r: &Vec<String>)
        ensures
            string_views(r@) == self@.depends,
    {
        &self.depends
    }

    /// The soft dependencies to load before the module.
    pub fn pre_softdeps(&self) -> (r: &Vec<String>)
        ensures
            string_views(r@) == self@.softpre,
    {
        &self.softpre
    }

    /// The soft dependencies to load after the module.
    pub fn post_softdeps(&self) -> (r: &Vec<String>)
        ensures
            string_views(r@) == self@.softpost,
    {
        &self.softpost
    }
}

} // verus!
