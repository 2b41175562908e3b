//! Command-line handling: where the configuration is read from, which
//! encoder compresses the archive, and which configuration modules an
//! initramfs is built from.

use crate::config::Module;
use crate::encoder::Encoder;
use crate::path::{PathView, VfsPath};
use crate::search::path_views;
use crate::text::{str_eq, string_views};
use vstd::prelude::*;

verus! {

/// Errors in the configuration that the command line selects.
#[derive(Debug)]
pub enum ConfigurationError {
    /// Default paths skipped but no fallback paths specified.
    SkipWithoutParameter,
    /// The configuration requires a module of this name but none was found.
    UnknownModule(String),
    /// The configuration file is not a file or does not exist.
    ExpectedFile(VfsPath),
    /// The configuration directory is not a directory or does not exist.
    ExpectedDirectory(VfsPath),
}

/// The command-line arguments.
#[derive(Debug)]
pub struct Args {
    /// Path to the configuration file.
    pub config: Option<VfsPath>,
    /// Paths to the configuration directories.
    pub confdir: Option<Vec<VfsPath>>,
    /// Do not read configuration from default paths.
    pub skip_default_paths: bool,
    /// Encoder to use for compression.
    pub encoder: Option<Encoder>,
    pub command: Command,
}

/// What to generate.
#[derive(Debug)]
pub enum Command {
    /// Generate a compressed cpio archive to use as initramfs.
    Initramfs {
        /// Microcode archive to include.
        ucode: Option<VfsPath>,
        /// Path to the kernel module source directory.
        modules: Option<VfsPath>,
        /// Path where the initramfs will be written.
        output: VfsPath,
    },
    /// Generate a compressed cpio archive for CPU microcode.
    Microcode {
        /// Path where the microcode archive will be written.
        output: VfsPath,
    },
}

/// The configuration file read when none is given: `/etc/elusive.yaml`.
pub open spec fn default_config_path() -> PathView {
    PathView { absolute: true, components: seq![seq![101u8, 116, 99], seq![101u8, 108, 117, 115, 105, 118, 101, 46, 121, 97, 109, 108]] }
}

/// The configuration directories read unless skipped: `/etc/elusive.d`, then
/// `/usr/share/elusive.d`.
pub open spec fn default_confdir_paths() -> Seq<PathView> {
    seq![PathView { absolute: true, components: seq![seq![101u8, 116, 99], seq![101u8, 108, 117, 115, 105, 118, 101, 46, 100]] }, PathView { absolute: true, components: seq![seq![117u8, 115, 114], seq![115u8, 104, 97, 114, 101], seq![101u8, 108, 117, 115, 105, 118, 101, 46, 100]] }]
}

/// The configuration file: the one given, else the default one unless
/// default paths are skipped.
pub fn config_path(config: Option<VfsPath>, skip_default_paths: bool) -> (r: Result<
    VfsPath,
    ConfigurationError,
>)
    ensures
        match config {
            Some(p) => r matches Ok(q) && q@ == p@,
            None => if skip_default_paths {
                r matches Err(ConfigurationError::SkipWithoutParameter)
            } else {
                r matches Ok(q) && q@ == default_config_path()
            },
        },
{
    match config {
        Some(p) => Ok(p),
        None => if skip_default_paths {
            Err(ConfigurationError::SkipWithoutParameter)
        } else {
            let p = VfsPath::root().join_component(&[101u8, 116, 99]).join_component(&[101u8, 108, 117, 115, 105, 118, 101, 46, 121, 97, 109, 108]);
            assert(p@ =~~= default_config_path());
            Ok(p)
        },
    }
}

/// The configuration directories: those given, followed by the default ones
/// unless default paths are skipped.
pub fn confdir_paths(confdirs: Option<Vec<VfsPath>>, skip_default_paths: bool) -> (r: Result<
    Vec<VfsPath>,
    ConfigurationError,
>)
    ensures
        match confdirs {
            Some(ps) => r matches Ok(v) && path_views(v@) == if skip_default_paths {
                path_views(ps@)
            } else {
                path_views(ps@) + default_confdir_paths()
            },
            None => if skip_default_paths {
                r matches Err(ConfigurationError::SkipWithoutParameter)
            } else {
                r matches Ok(v) && path_views(v@) == default_confdir_paths()
            },
        },
{
    if skip_default_paths {
        return match confdirs {
            Some(ps) => Ok(ps),
            None => Err(ConfigurationError::SkipWithoutParameter),
        };
    }
    let mut paths = match confdirs {
        Some(ps) => ps,
        None => Vec::new(),
    };
    let ghost given = path_views(paths@);
    let d1 = VfsPath::root().join_component(&[101u8, 116, 99]).join_component(&[101u8, 108, 117, 115, 105, 118, 101, 46, 100]);
    assert(d1@ =~~= default_confdir_paths()[0]);
    let d2 = VfsPath::root().join_component(&[117u8, 115, 114]).join_component(&[115u8, 104, 97, 114, 101]).join_component(&[101u8, 108, 117, 115, 105, 118, 101, 46, 100]);
    assert(d2@ =~~= default_confdir_paths()[1]);
    paths.push(d1);
    paths.push(d2);
    assert(path_views(paths@) =~= given + default_confdir_paths());
    Ok(paths)
}

/// The encoder: the one given, else zstd.
pub fn chosen_encoder(encoder: Option<Encoder>) -> (r: Encoder)
    ensures
        r == match encoder {
            Some(e) => e,
            None => Encoder::Zstd,
        },
{
    match encoder {
        Some(e) => e,
        None => Encoder::Zstd,
    }
}

/// What the command line settles before anything is read: the configuration
/// file, the configuration directories, the encoder and the command.
pub struct Invocation {
    pub config_path: VfsPath,
    pub confdir_paths: Vec<VfsPath>,
    pub encoder: Encoder,
    pub command: Command,
}

/// Settle the command line: the configuration file first, then the
/// configuration directories (each failing when default paths are skipped
/// and none is given), the encoder (zstd unless one is given), and the
/// command.
pub fn resolve_args(args: Args) -> (r: Result<Invocation, ConfigurationError>)
    ensures
        (args.config is None && args.skip_default_paths) || (args.confdir is None
            && args.skip_default_paths) <==> r matches Err(ConfigurationError::SkipWithoutParameter),
        r is Err ==> r matches Err(ConfigurationError::SkipWithoutParameter),
        r matches Ok(inv) ==> {
            &&& inv.config_path@ == match args.config {
                Some(p) => p@,
                None => default_config_path(),
            }
            &&& path_views(inv.confdir_paths@) == match args.confdir {
                Some(ps) => if args.skip_default_paths {
                    path_views(ps@)
                } else {
                    path_views(ps@) + default_confdir_paths()
                },
                None => default_confdir_paths(),
            }
            &&& inv.encoder == match args.encoder {
                Some(e) => e,
                None => Encoder::Zstd,
            }
            &&& inv.command == args.command
        },
{
    let Args { config, confdir, skip_default_paths, encoder, command } = args;
    let config_path = match config_path(config, skip_default_paths) {
        Ok(p) => p,
        Err(e) => {
            return Err(e);
        },
    };
    let confdir_paths = match confdir_paths(confdir, skip_default_paths) {
        Ok(ps) => ps,
        Err(e) => {
            return Err(e);
        },
    };
    Ok(Invocation { config_path, confdir_paths, encoder: chosen_encoder(encoder), command })
}

/// The names of configuration modules.
pub open spec fn module_names(ms: Seq<Module>) -> Seq<Seq<char>> {
    ms.map_values(|m: Module| m.name@)
}

/// The position of the last module with the given name: the one that a
/// name refers to when several modules share it.
pub open spec fn last_named(names: Seq<Seq<char>>, name: Seq<char>) -> Option<int>
    decreases names.len(),
{
    if names.len() == 0 {
        None
    } else if names.last() == name {
        Some(names.len() - 1)
    } else {
        last_named(names.drop_last(), name)
    }
}

/// The positions of the modules that the requested names select, in order;
/// or the first name that selects none: no module has it, or an earlier
/// request took its module already.
pub open spec fn selection(requested: Seq<Seq<char>>, names: Seq<Seq<char>>) -> Result<
    Seq<int>,
    Seq<char>,
>
    decreases requested.len(),
{
    if requested.len() == 0 {
        Ok(Seq::empty())
    } else {
        match selection(requested.drop_last(), names) {
            Err(n) => Err(n),
            Ok(picked) => {
                let n = requested.last();
                if requested.drop_last().contains(n) || last_named(names, n) is None {
                    Err(n)
                } else {
                    Ok(picked.push(last_named(names, n)->0))
                }
            },
        }
    }
}

proof fn lemma_last_named_bounds(names: Seq<Seq<char>>, name: Seq<char>)
    ensures
        last_named(names, name) matches Some(j) ==> 0 <= j < names.len() && names[j] == name,
        last_named(names, name) is None ==> forall|j: int| 0 <= j < names.len() ==> names[j] != name,
    decreases names.len(),
{
    if names.len() > 0 && names.last() != name {
        lemma_last_named_bounds(names.drop_last(), name);
        if last_named(names, name) is None {
            assert forall|j: int| 0 <= j < names.len() implies names[j] != name by {
                if j < names.len() - 1 {
                    assert(names.drop_last()[j] == names[j]);
                }
            }
        }
    }
}

/// A selection takes each module at most once, and the module taken for a
/// request has the requested name.
pub proof fn lemma_selection_sound(requested: Seq<Seq<char>>, names: Seq<Seq<char>>)
    ensures
        selection(requested, names) matches Ok(picked) ==> {
            &&& picked.len() == requested.len()
            &&& forall|k: int|
                0 <= k < picked.len() ==> 0 <= #[trigger] picked[k] < names.len() && names[picked[k]]
                    == requested[k]
            &&& forall|a: int, b: int|
                0 <= a < b < picked.len() ==> #[trigger] picked[a] != #[trigger] picked[b]
        },
    decreases requested.len(),
{
    if requested.len() > 0 {
        lemma_selection_sound(requested.drop_last(), names);
        let n = requested.last();
        lemma_last_named_bounds(names, n);
        if let Ok(picked) = selection(requested, names) {
            let prev = picked.drop_last();
            assert forall|a: int, b: int| 0 <= a < b < picked.len() implies #[trigger] picked[a]
                != #[trigger] picked[b] by {
                if b == picked.len() - 1 && picked[a] == picked[b] {
                    assert(prev[a] == picked[a]);
                    assert(requested.drop_last()[a] == names[prev[a]]);
                    assert(requested.drop_last().contains(n));
                }
                if b < picked.len() - 1 {
                    assert(prev[a] == picked[a] && prev[b] == picked[b]);
                }
            }
            assert forall|k: int| 0 <= k < picked.len() implies 0 <= #[trigger] picked[k] < names.len()
                && names[picked[k]] == requested[k] by {
                if k < picked.len() - 1 {
                    assert(prev[k] == picked[k]);
                    assert(requested.drop_last()[k] == requested[k]);
                }
            }
        }
    }
}

proof fn lemma_selection_err(requested: Seq<Seq<char>>, names: Seq<Seq<char>>, k: int)
    requires
        0 <= k <= requested.len(),
        selection(requested.take(k), names) is Err,
    ensures
        selection(requested, names) == selection(requested.take(k), names),
    decreases requested.len() - k,
{
    if k < requested.len() {
        assert(requested.take(k + 1).drop_last() =~= requested.take(k));
        lemma_selection_err(requested, names, k + 1);
    } else {
        assert(requested.take(k) =~= requested);
    }
}

fn last_index_named(names: &Vec<String>, name: &str) -> (r: Option<usize>)
    ensures
        match last_named(string_views(names@), name@) {
            Some(j) => r == Some(j as usize),
            None => r is None,
        },
{
    let ghost ns = string_views(names@);
    let mut i: usize = names.len();
    assert(ns.take(i as int) =~= ns);
    while i > 0
        invariant
            ns == string_views(names@),
            i <= ns.len(),
            last_named(ns, name@) == last_named(ns.take(i as int), name@),
        decreases i,
    {
        assert(ns.take(i as int).drop_last() =~= ns.take(i - 1));
        assert(ns.take(i as int).last() == names@[i - 1]@);
        if str_eq(names[i - 1].as_str(), name) {
            return Some(i - 1);
        }
        i = i - 1;
    }
    None
}

/// The configuration modules that the requested names select, in the order of
/// the requests; a name refers to the last module that has it, and each module
/// is taken once.
pub fn select_modules(requested: &Vec<String>, available: Vec<Module>) -> (r: Result<
    Vec<Module>,
    ConfigurationError,
>)
    ensures
        match selection(string_views(requested@), module_names(available@)) {
            Ok(picked) => r matches Ok(v) && v@.len() == picked.len() && forall|k: int|
                0 <= k < picked.len() ==> #[trigger] v@[k] == available@[picked[k]],
            Err(n) => r matches Err(ConfigurationError::UnknownModule(s)) && s@ == n,
        },
{
    let ghost orig = available@;
    let ghost ns = module_names(orig);
    let ghost rq = string_views(requested@);
    let mut names: Vec<String> = Vec::new();
    let mut slots: Vec<Option<Module>> = Vec::new();
    let mut rest = available;
    while rest.len() > 0
        invariant
            ns == module_names(orig),
            names@.len() == slots@.len(),
            slots@.len() + rest@.len() == orig.len(),
            rest@ == orig.skip(slots@.len() as int),
            string_views(names@) == ns.take(slots@.len() as int),
            forall|j: int| 0 <= j < slots@.len() ==> #[trigger] slots@[j] == Some(orig[j]),
        decreases rest@.len(),
    {
        let ghost k = slots@.len() as int;
        let m = rest.remove(0);
        assert(m == orig[k]);
        assert(rest@ =~= orig.skip(k + 1));
        let ghost before = string_views(names@);
        names.push(m.name.clone());
        assert(string_views(names@) =~= ns.take(k + 1)) by {
            assert(ns.take(k + 1) =~= ns.take(k).push(orig[k].name@));
            assert(string_views(names@) =~= before.push(m.name@));
        }
        slots.push(Some(m));
    }
    assert(ns.take(orig.len() as int) =~= ns);
    let mut picked: Vec<Module> = Vec::new();
    let ghost mut idx: Seq<int> = Seq::empty();
    let mut i: usize = 0;
    assert(rq.take(0) =~= Seq::<Seq<char>>::empty());
    while i < requested.len()
        invariant
            string_views(names@) == ns,
            ns == module_names(orig),
            orig == available@,
            rq == string_views(requested@),
            slots@.len() == orig.len(),
            i <= rq.len(),
            selection(rq.take(i as int), ns) == Ok::<Seq<int>, Seq<char>>(idx),
            picked@.len() == idx.len(),
            forall|k: int| 0 <= k < idx.len() ==> #[trigger] picked@[k] == orig[idx[k]],
            forall|j: int|
                0 <= j < orig.len() ==> (#[trigger] slots@[j] is None <==> (rq.take(i as int).contains(
                    ns[j],
                ) && last_named(ns, ns[j]) == Some(j))),
            forall|j: int| 0 <= j < orig.len() && slots@[j] is Some ==> #[trigger] slots@[j] == Some(orig[j]),
        decreases rq.len() - i,
    {
        let name = requested[i].as_str();
        assert(rq.take(i + 1).drop_last() =~= rq.take(i as int));
        assert(rq.take(i + 1).last() == name@);
        proof {
            lemma_last_named_bounds(ns, name@);
        }
        match last_index_named(&names, name) {
            None => {
                proof {
                    assert(selection(rq.take(i + 1), ns) == Err::<Seq<int>, Seq<char>>(name@));
                    lemma_selection_err(rq, ns, i + 1);
                }
                return Err(ConfigurationError::UnknownModule(requested[i].clone()));
            },
            Some(j) => {
                let taken = slots.remove(j);
                slots.insert(j, None);
                match taken {
                    None => {
                        proof {
                            assert(rq.take(i as int).contains(ns[j as int]));
                            assert(selection(rq.take(i + 1), ns) == Err::<Seq<int>, Seq<char>>(name@));
                            lemma_selection_err(rq, ns, i + 1);
                        }
                        return Err(ConfigurationError::UnknownModule(requested[i].clone()));
                    },
                    Some(m) => {
                        proof {
                            assert(!rq.take(i as int).contains(name@)) by {
                                if rq.take(i as int).contains(name@) {
                                    assert(ns[j as int] == name@);
                                }
                            }
                            idx = idx.push(j as int);
                            assert forall|jj: int| 0 <= jj < orig.len() implies (#[trigger] slots@[jj] is None
                                <==> (rq.take(i + 1).contains(ns[jj]) && last_named(ns, ns[jj]) == Some(jj))) by {
                                if jj != j {
                                    if rq.take(i + 1).contains(ns[jj]) && !rq.take(i as int).contains(ns[jj]) {
                                        let t = choose|t: int| 0 <= t < i + 1 && #[trigger] rq.take(i + 1)[t] == ns[jj];
                                        if t < i {
                                            assert(rq.take(i as int)[t] == ns[jj]);
                                        }
                                    }
                                    if rq.take(i as int).contains(ns[jj]) {
                                        let t = choose|t: int| 0 <= t < i && #[trigger] rq.take(i as int)[t] == ns[jj];
                                        assert(rq.take(i + 1)[t] == ns[jj]);
                                    }
                                } else {
                                    assert(rq.take(i + 1)[i as int] == ns[jj]);
                                }
                            }
                        }
                        picked.push(m);
                    },
                }
            },
        }
        i = i + 1;
    }
    assert(rq.take(i as int) =~= rq);
    Ok(picked)
}

} // verus!
