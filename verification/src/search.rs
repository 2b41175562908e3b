//! Searching for a file in a list of directories.

use crate::path::{join_of, PathView, VfsPath};
use vstd::prelude::*;

verus! {

/// The abstract values of paths.
pub open spec fn path_views(v: Seq<VfsPath>) -> Seq<PathView> {
    v.map_values(|p: VfsPath| p@)
}

/// The `i`-th place where `name` is searched.
pub open spec fn candidate(paths: Seq<PathView>, name: PathView, i: int) -> PathView {
    join_of(paths[i], name)
}

/// `probe` can answer `b` for a path with the abstract value `p`.
pub open spec fn answered<F: Fn(&VfsPath) -> bool>(probe: F, p: PathView, b: bool) -> bool {
    exists|q: VfsPath| q@ == p && #[trigger] probe.ensures((&q,), b)
}

/// `p` is where `name` is found first among `dirs`: the probe answered `true`
/// for `p`, the `i`-th candidate, and `false` for each candidate before it.
pub open spec fn found_first<F: Fn(&VfsPath) -> bool>(
    probe: F,
    dirs: Seq<PathView>,
    name: PathView,
    p: PathView,
) -> bool {
    exists|i: int|
        0 <= i < dirs.len() && p == #[trigger] candidate(dirs, name, i) && answered(probe, p, true)
            && forall|j: int| 0 <= j < i ==> answered(probe, candidate(dirs, name, j), false)
}

/// The probe answered `false` for every candidate of `name` among `dirs`.
pub open spec fn found_nowhere<F: Fn(&VfsPath) -> bool>(
    probe: F,
    dirs: Seq<PathView>,
    name: PathView,
) -> bool {
    forall|j: int| 0 <= j < dirs.len() ==> answered(probe, #[trigger] candidate(dirs, name, j), false)
}

/// The first of `name` joined to each of `paths` for which `probe` answers
/// `true`, asking in order (`probe` tells whether a path exists).
pub fn search_paths<F: Fn(&VfsPath) -> bool>(name: &VfsPath, paths: &Vec<VfsPath>, probe: &F) -> (r:
    Option<VfsPath>)
    requires
        forall|q: &VfsPath| #[trigger] probe.requires((q,)),
    ensures
        r matches Some(c) ==> found_first(*probe, path_views(paths@), name@, c@),
        r is None ==> found_nowhere(*probe, path_views(paths@), name@),
{
    let ghost ps = path_views(paths@);
    let mut i: usize = 0;
    while i < paths.len()
        invariant
            i <= paths@.len(),
            ps == path_views(paths@),
            forall|q: &VfsPath| #[trigger] probe.requires((q,)),
            forall|j: int| 0 <= j < i ==> answered(*probe, candidate(ps, name@, j), false),
        decreases paths@.len() - i,
    {
        let c = paths[i].join(name);
        assert(c@ == candidate(ps, name@, i as int));
        let found = probe(&c);
        if found {
            assert(answered(*probe, c@, true));
            return Some(c);
        }
        assert(answered(*probe, c@, false));
        i = i + 1;
    }
    None
}

/// Where binaries are searched, in order.
pub open spec fn binary_search_paths() -> Seq<PathView> {
    seq![
        PathView { absolute: true, components: seq![seq![117u8, 115, 114], seq![98u8, 105, 110]] },
        PathView { absolute: true, components: seq![seq![117u8, 115, 114], seq![115u8, 98, 105, 110]] },
        PathView { absolute: true, components: seq![seq![117u8, 115, 114], seq![108u8, 111, 99, 97, 108], seq![98u8, 105, 110]] },
        PathView { absolute: true, components: seq![seq![117u8, 115, 114], seq![108u8, 111, 99, 97, 108], seq![115u8, 98, 105, 110]] },
        PathView { absolute: true, components: seq![seq![117u8, 115, 114], seq![108u8, 105, 98], seq![115u8, 121, 115, 116, 101, 109, 100]] },
        PathView { absolute: true, components: seq![seq![117u8, 115, 114], seq![108u8, 105, 98], seq![115u8, 121, 115, 116, 101, 109, 100], seq![115u8, 121, 115, 116, 101, 109, 45, 103, 101, 110, 101, 114, 97, 116, 111, 114, 115]] },
        PathView { absolute: true, components: seq![seq![98u8, 105, 110]] },
        PathView { absolute: true, components: seq![seq![115u8, 98, 105, 110]] },
    ]
}

/// Where binaries are searched, in order.
pub(crate) fn binary_search_paths_exec() -> (r: Vec<VfsPath>)
    ensures
        path_views(r@) == binary_search_paths(),
{
    let mut r: Vec<VfsPath> = Vec::new();
    let p = VfsPath::root().join_component(&[117u8, 115, 114]).join_component(&[98u8, 105, 110]);
    assert(p@ =~~= binary_search_paths()[0]);
    r.push(p);
    let p = VfsPath::root().join_component(&[117u8, 115, 114]).join_component(&[115u8, 98, 105, 110]);
    assert(p@ =~~= binary_search_paths()[1]);
    r.push(p);
    let p = VfsPath::root().join_component(&[117u8, 115, 114]).join_component(&[108u8, 111, 99, 97, 108]).join_component(&[98u8, 105, 110]);
    assert(p@ =~~= binary_search_paths()[2]);
    r.push(p);
    let p = VfsPath::root().join_component(&[117u8, 115, 114]).join_component(&[108u8, 111, 99, 97, 108]).join_component(&[115u8, 98, 105, 110]);
    assert(p@ =~~= binary_search_paths()[3]);
    r.push(p);
    let p = VfsPath::root().join_component(&[117u8, 115, 114]).join_component(&[108u8, 105, 98]).join_component(&[115u8, 121, 115, 116, 101, 109, 100]);
    assert(p@ =~~= binary_search_paths()[4]);
    r.push(p);
    let p = VfsPath::root().join_component(&[117u8, 115, 114]).join_component(&[108u8, 105, 98]).join_component(&[115u8, 121, 115, 116, 101, 109, 100]).join_component(&[115u8, 121, 115, 116, 101, 109, 45, 103, 101, 110, 101, 114, 97, 116, 111, 114, 115]);
    assert(p@ =~~= binary_search_paths()[5]);
    r.push(p);
    let p = VfsPath::root().join_component(&[98u8, 105, 110]);
    assert(p@ =~~= binary_search_paths()[6]);
    r.push(p);
    let p = VfsPath::root().join_component(&[115u8, 98, 105, 110]);
    assert(p@ =~~= binary_search_paths()[7]);
    r.push(p);
    assert(path_views(r@) =~= binary_search_paths());
    r
}

/// Where libraries are searched, in order.
pub open spec fn library_search_paths() -> Seq<PathView> {
    seq![
        PathView { absolute: true, components: seq![seq![117u8, 115, 114], seq![108u8, 105, 98]] },
        PathView { absolute: true, components: seq![seq![117u8, 115, 114], seq![108u8, 105, 98, 54, 52]] },
        PathView { absolute: true, components: seq![seq![117u8, 115, 114], seq![108u8, 105, 98], seq![115u8, 121, 115, 116, 101, 109, 100]] },
        PathView { absolute: true, components: seq![seq![108u8, 105, 98]] },
        PathView { absolute: true, components: seq![seq![108u8, 105, 98, 54, 52]] },
    ]
}

/// Where libraries are searched, in order.
pub(crate) fn library_search_paths_exec() -> (r: Vec<VfsPath>)
    ensures
        path_views(r@) == library_search_paths(),
{
    let mut r: Vec<VfsPath> = Vec::new();
    let p = VfsPath::root().join_component(&[117u8, 115, 114]).join_component(&[108u8, 105, 98]);
    assert(p@ =~~= library_search_paths()[0]);
    r.push(p);
    let p = VfsPath::root().join_component(&[117u8, 115, 114]).join_component(&[108u8, 105, 98, 54, 52]);
    assert(p@ =~~= library_search_paths()[1]);
    r.push(p);
    let p = VfsPath::root().join_component(&[117u8, 115, 114]).join_component(&[108u8, 105, 98]).join_component(&[115u8, 121, 115, 116, 101, 109, 100]);
    assert(p@ =~~= library_search_paths()[2]);
    r.push(p);
    let p = VfsPath::root().join_component(&[108u8, 105, 98]);
    assert(p@ =~~= library_search_paths()[3]);
    r.push(p);
    let p = VfsPath::root().join_component(&[108u8, 105, 98, 54, 52]);
    assert(p@ =~~= library_search_paths()[4]);
    r.push(p);
    assert(path_views(r@) =~= library_search_paths());
    r
}

/// Where systemd units are searched, in order.
pub open spec fn unit_search_paths() -> Seq<PathView> {
    seq![
        PathView { absolute: true, components: seq![seq![117u8, 115, 114], seq![108u8, 105, 98], seq![115u8, 121, 115, 116, 101, 109, 100], seq![115u8, 121, 115, 116, 101, 109]] },
        PathView { absolute: true, components: seq![seq![101u8, 116, 99], seq![115u8, 121, 115, 116, 101, 109, 100], seq![115u8, 121, 115, 116, 101, 109]] },
        PathView { absolute: true, components: seq![seq![101u8, 116, 99], seq![115u8, 121, 115, 116, 101, 109, 100], seq![115u8, 121, 115, 116, 101, 109, 46, 99, 111, 110, 116, 114, 111, 108]] },
        PathView { absolute: true, components: seq![seq![101u8, 116, 99], seq![115u8, 121, 115, 116, 101, 109, 100], seq![115u8, 121, 115, 116, 101, 109, 46, 97, 116, 116, 97, 99, 104, 101, 100]] },
    ]
}

/// Where systemd units are searched, in order.
pub(crate) fn unit_search_paths_exec() -> (r: Vec<VfsPath>)
    ensures
        path_views(r@) == unit_search_paths(),
{
    let mut r: Vec<VfsPath> = Vec::new();
    let p = VfsPath::root().join_component(&[117u8, 115, 114]).join_component(&[108u8, 105, 98]).join_component(&[115u8, 121, 115, 116, 101, 109, 100]).join_component(&[115u8, 121, 115, 116, 101, 109]);
    assert(p@ =~~= unit_search_paths()[0]);
    r.push(p);
    let p = VfsPath::root().join_component(&[101u8, 116, 99]).join_component(&[115u8, 121, 115, 116, 101, 109, 100]).join_component(&[115u8, 121, 115, 116, 101, 109]);
    assert(p@ =~~= unit_search_paths()[1]);
    r.push(p);
    let p = VfsPath::root().join_component(&[101u8, 116, 99]).join_component(&[115u8, 121, 115, 116, 101, 109, 100]).join_component(&[115u8, 121, 115, 116, 101, 109, 46, 99, 111, 110, 116, 114, 111, 108]);
    assert(p@ =~~= unit_search_paths()[2]);
    r.push(p);
    let p = VfsPath::root().join_component(&[101u8, 116, 99]).join_component(&[115u8, 121, 115, 116, 101, 109, 100]).join_component(&[115u8, 121, 115, 116, 101, 109, 46, 97, 116, 116, 97, 99, 104, 101, 100]);
    assert(p@ =~~= unit_search_paths()[3]);
    r.push(p);
    assert(path_views(r@) =~= unit_search_paths());
    r
}

/// Where path, service and target units are installed.
pub open spec fn unit_install_paths() -> Seq<PathView> {
    seq![
        PathView { absolute: true, components: seq![seq![117u8, 115, 114], seq![108u8, 105, 98], seq![115u8, 121, 115, 116, 101, 109, 100], seq![115u8, 121, 115, 116, 101, 109], seq![105u8, 110, 105, 116, 114, 100, 46, 116, 97, 114, 103, 101, 116, 46, 119, 97, 110, 116, 115]] },
        PathView { absolute: true, components: seq![seq![117u8, 115, 114], seq![108u8, 105, 98], seq![115u8, 121, 115, 116, 101, 109, 100], seq![115u8, 121, 115, 116, 101, 109], seq![105u8, 110, 105, 116, 114, 100, 45, 114, 111, 111, 116, 45, 100, 101, 118, 105, 99, 101, 46, 116, 97, 114, 103, 101, 116, 46, 119, 97, 110, 116, 115]] },
        PathView { absolute: true, components: seq![seq![117u8, 115, 114], seq![108u8, 105, 98], seq![115u8, 121, 115, 116, 101, 109, 100], seq![115u8, 121, 115, 116, 101, 109], seq![105u8, 110, 105, 116, 114, 100, 45, 114, 111, 111, 116, 45, 102, 115, 46, 116, 97, 114, 103, 101, 116, 46, 119, 97, 110, 116, 115]] },
        PathView { absolute: true, components: seq![seq![117u8, 115, 114], seq![108u8, 105, 98], seq![115u8, 121, 115, 116, 101, 109, 100], seq![115u8, 121, 115, 116, 101, 109], seq![115u8, 121, 115, 105, 110, 105, 116, 46, 116, 97, 114, 103, 101, 116, 46, 119, 97, 110, 116, 115]] },
    ]
}

/// Where path, service and target units are installed.
pub(crate) fn unit_install_paths_exec() -> (r: Vec<VfsPath>)
    ensures
        path_views(r@) == unit_install_paths(),
{
    let mut r: Vec<VfsPath> = Vec::new();
    let p = VfsPath::root().join_component(&[117u8, 115, 114]).join_component(&[108u8, 105, 98]).join_component(&[115u8, 121, 115, 116, 101, 109, 100]).join_component(&[115u8, 121, 115, 116, 101, 109]).join_component(&[105u8, 110, 105, 116, 114, 100, 46, 116, 97, 114, 103, 101, 116, 46, 119, 97, 110, 116, 115]);
    assert(p@ =~~= unit_install_paths()[0]);
    r.push(p);
    let p = VfsPath::root().join_component(&[117u8, 115, 114]).join_component(&[108u8, 105, 98]).join_component(&[115u8, 121, 115, 116, 101, 109, 100]).join_component(&[115u8, 121, 115, 116, 101, 109]).join_component(&[105u8, 110, 105, 116, 114, 100, 45, 114, 111, 111, 116, 45, 100, 101, 118, 105, 99, 101, 46, 116, 97, 114, 103, 101, 116, 46, 119, 97, 110, 116, 115]);
    assert(p@ =~~= unit_install_paths()[1]);
    r.push(p);
    let p = VfsPath::root().join_component(&[117u8, 115, 114]).join_component(&[108u8, 105, 98]).join_component(&[115u8, 121, 115, 116, 101, 109, 100]).join_component(&[115u8, 121, 115, 116, 101, 109]).join_component(&[105u8, 110, 105, 116, 114, 100, 45, 114, 111, 111, 116, 45, 102, 115, 46, 116, 97, 114, 103, 101, 116, 46, 119, 97, 110, 116, 115]);
    assert(p@ =~~= unit_install_paths()[2]);
    r.push(p);
    let p = VfsPath::root().join_component(&[117u8, 115, 114]).join_component(&[108u8, 105, 98]).join_component(&[115u8, 121, 115, 116, 101, 109, 100]).join_component(&[115u8, 121, 115, 116, 101, 109]).join_component(&[115u8, 121, 115, 105, 110, 105, 116, 46, 116, 97, 114, 103, 101, 116, 46, 119, 97, 110, 116, 115]);
    assert(p@ =~~= unit_install_paths()[3]);
    r.push(p);
    assert(path_views(r@) =~= unit_install_paths());
    r
}

/// Where socket units are installed.
pub open spec fn socket_install_paths() -> Seq<PathView> {
    seq![
        PathView { absolute: true, components: seq![seq![117u8, 115, 114], seq![108u8, 105, 98], seq![115u8, 121, 115, 116, 101, 109, 100], seq![115u8, 121, 115, 116, 101, 109], seq![115u8, 111, 99, 107, 101, 116, 115, 46, 116, 97, 114, 103, 101, 116, 46, 119, 97, 110, 116, 115]] },
    ]
}

/// Where socket units are installed.
pub(crate) fn socket_install_paths_exec() -> (r: Vec<VfsPath>)
    ensures
        path_views(r@) == socket_install_paths(),
{
    let mut r: Vec<VfsPath> = Vec::new();
    let p = VfsPath::root().join_component(&[117u8, 115, 114]).join_component(&[108u8, 105, 98]).join_component(&[115u8, 121, 115, 116, 101, 109, 100]).join_component(&[115u8, 121, 115, 116, 101, 109]).join_component(&[115u8, 111, 99, 107, 101, 116, 115, 46, 116, 97, 114, 103, 101, 116, 46, 119, 97, 110, 116, 115]);
    assert(p@ =~~= socket_install_paths()[0]);
    r.push(p);
    assert(path_views(r@) =~= socket_install_paths());
    r
}

} // verus!
