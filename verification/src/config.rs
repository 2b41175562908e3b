//! Configuration for initramfs and microcode generation: what has to be
//! included in the initramfs or the microcode bundle, as read from the
//! declarative configuration files.

use crate::path::{PathView, VfsPath};
use crate::search::path_views;
use vstd::prelude::*;

verus! {

/// Microcode generation configuration.
#[derive(Debug)]
pub struct Microcode {
    /// The path to the AMD specific blobs.
    pub amd_ucode: Option<VfsPath>,
    /// The path to the Intel specific blobs.
    pub intel_ucode: Option<VfsPath>,
}

/// Initramfs generation configuration.
#[derive(Debug)]
pub struct Initramfs {
    /// Where to find the init script for the initramfs.
    pub init: VfsPath,
    /// Where to find the optional shutdown script for the initramfs.
    pub shutdown: Option<VfsPath>,
    /// Various flags to tweak generation.
    pub settings: Settings,
    /// Enabled modules.
    pub modules: Vec<String>,
}

/// Initramfs generation settings such as various flags.
#[derive(Debug)]
pub struct Settings {
    /// Override path where kernel module are searched.
    pub kernel_module_path: Option<VfsPath>,
}

impl Default for Settings {
    fn default() -> (s: Settings)
        ensures
            s.kernel_module_path is None,
    {
        Settings { kernel_module_path: None }
    }
}

/// Initramfs configuration module.
#[derive(Debug)]
pub struct Module {
    /// Name to refer to this module.
    pub name: String,
    /// Binaries to add to the initramfs.
    pub binaries: Vec<Binary>,
    /// Filesystem trees to copy into the initramfs.
    pub files: Vec<File>,
    /// Symlinks to add to the initramfs.
    pub symlinks: Vec<Symlink>,
    /// Modules to include in the initramfs.
    pub kernel_modules: Vec<KernelModule>,
    /// Units (systemd) to include in the initramfs.
    pub units: Vec<Unit>,
}

/// Configuration for an ELF binary.
#[derive(Debug)]
pub struct Binary {
    /// The path where the binary can be found.
    pub path: VfsPath,
}

/// Configuration for a filesystem tree.
#[derive(Debug)]
pub struct File {
    /// The list of files and directories to copy.
    pub sources: Vec<VfsPath>,
    /// The destination in the initramfs.
    pub destination: VfsPath,
}

/// Configuration for a symbolic link.
#[derive(Debug)]
pub struct Symlink {
    /// The path where the symlink will be placed.
    pub path: VfsPath,
    /// The file the symlink points to.
    pub target: VfsPath,
}

/// Configuration for a kernel module.
#[derive(Debug)]
pub enum KernelModule {
    /// Name of the kernel module to include.
    Name(String),
    /// Path to the kernel module, useful for out of tree modules.
    Path(VfsPath),
}

/// Configuration for a systemd unit.
#[derive(Debug)]
pub struct Unit {
    /// Name of the unit to include.
    pub name: String,
}

/// One step of building an initramfs from a configuration.
#[derive(Debug)]
pub enum BuildStep {
    /// Add the init script from this host path.
    Init(VfsPath),
    /// Add the shutdown script from this host path.
    Shutdown(VfsPath),
    /// Open the kernel modules, from this directory or else the running
    /// kernel's.
    OpenKernelModules(Option<VfsPath>),
    /// Add a binary and the libraries it links.
    Binary(VfsPath),
    /// Copy these sources into this destination.
    Files(Vec<VfsPath>, VfsPath),
    /// Add a symlink at a path to a target.
    Symlink(VfsPath, VfsPath),
    /// Add the kernel module with this name, after its dependencies.
    KernelModuleNamed(String),
    /// Add the kernel module at this host path, after its dependencies.
    KernelModuleAt(VfsPath),
    /// Add the systemd unit with this name, with what it runs and requires.
    Unit(String),
}

/// The abstract value of a step.
pub enum StepView {
    Init(PathView),
    Shutdown(PathView),
    OpenKernelModules(Option<PathView>),
    Binary(PathView),
    Files(Seq<PathView>, PathView),
    Symlink(PathView, PathView),
    KernelModuleNamed(Seq<char>),
    KernelModuleAt(PathView),
    Unit(Seq<char>),
}

impl BuildStep {
    pub open spec fn view(&self) -> StepView {
        match self {
            BuildStep::Init(p) => StepView::Init(p@),
            BuildStep::Shutdown(p) => StepView::Shutdown(p@),
            BuildStep::OpenKernelModules(p) => StepView::OpenKernelModules(
                match p {
                    Some(q) => Some(q@),
                    None => None,
                },
            ),
            BuildStep::Binary(p) => StepView::Binary(p@),
            BuildStep::Files(s, d) => StepView::Files(path_views(s@), d@),
            BuildStep::Symlink(p, t) => StepView::Symlink(p@, t@),
            BuildStep::KernelModuleNamed(n) => StepView::KernelModuleNamed(n@),
            BuildStep::KernelModuleAt(p) => StepView::KernelModuleAt(p@),
            BuildStep::Unit(n) => StepView::Unit(n@),
        }
    }
}

/// The abstract values of steps.
pub open spec fn step_views(v: Seq<BuildStep>) -> Seq<StepView> {
    v.map_values(|s: BuildStep| s.view())
}

/// The steps that a configuration module gives, in order: its binaries, its
/// files, its symlinks, its kernel modules, then its units.
pub open spec fn module_steps(m: Module) -> Seq<StepView> {
    m.binaries@.map_values(|b: Binary| StepView::Binary(b.path@)) + m.files@.map_values(
        |f: File| StepView::Files(path_views(f.sources@), f.destination@),
    ) + m.symlinks@.map_values(|l: Symlink| StepView::Symlink(l.path@, l.target@))
        + m.kernel_modules@.map_values(
        |k: KernelModule|
            match k {
                KernelModule::Name(n) => StepView::KernelModuleNamed(n@),
                KernelModule::Path(p) => StepView::KernelModuleAt(p@),
            },
    ) + m.units@.map_values(|u: Unit| StepView::Unit(u.name@))
}

/// The steps of the modules, one module after the other.
pub open spec fn modules_steps(ms: Seq<Module>) -> Seq<StepView>
    decreases ms.len(),
{
    if ms.len() == 0 {
        Seq::empty()
    } else {
        modules_steps(ms.drop_last()) + module_steps(ms.last())
    }
}

/// The steps of building an initramfs from a configuration: the init script,
/// the shutdown script if there is one, opening the kernel modules, then the
/// steps of each selected module in order.
pub open spec fn config_steps(config: Initramfs, modules: Seq<Module>) -> Seq<StepView> {
    seq![StepView::Init(config.init@)] + (match config.shutdown {
        Some(p) => seq![StepView::Shutdown(p@)],
        None => Seq::empty(),
    }) + seq![
        StepView::OpenKernelModules(
            match config.settings.kernel_module_path {
                Some(p) => Some(p@),
                None => None,
            },
        ),
    ] + modules_steps(modules)
}

proof fn lemma_module_steps_no_script(m: Module)
    ensures
        forall|i: int|
            0 <= i < module_steps(m).len() ==> !(#[trigger] module_steps(m)[i] is Init) && !(
            module_steps(m)[i] is Shutdown) && !(module_steps(m)[i] is OpenKernelModules),
{
    let a = m.binaries@.map_values(|b: Binary| StepView::Binary(b.path@));
    let b = m.files@.map_values(|f: File| StepView::Files(path_views(f.sources@), f.destination@));
    let c = m.symlinks@.map_values(|l: Symlink| StepView::Symlink(l.path@, l.target@));
    let d = m.kernel_modules@.map_values(
        |k: KernelModule|
            match k {
                KernelModule::Name(n) => StepView::KernelModuleNamed(n@),
                KernelModule::Path(p) => StepView::KernelModuleAt(p@),
            },
    );
    let e = m.units@.map_values(|u: Unit| StepView::Unit(u.name@));
    assert(module_steps(m) == a + b + c + d + e);
    assert forall|i: int| 0 <= i < module_steps(m).len() implies !(#[trigger] module_steps(m)[i] is Init)
        && !(module_steps(m)[i] is Shutdown) && !(module_steps(m)[i] is OpenKernelModules) by {
        let s = module_steps(m);
        if i < a.len() {
            assert(s[i] == a[i]);
        } else if i < a.len() + b.len() {
            assert(s[i] == b[i - a.len()]);
        } else if i < a.len() + b.len() + c.len() {
            assert(s[i] == c[i - a.len() - b.len()]);
        } else if i < a.len() + b.len() + c.len() + d.len() {
            assert(s[i] == d[i - a.len() - b.len() - c.len()]);
            let k = m.kernel_modules@[i - a.len() - b.len() - c.len()];
            assert(d[i - a.len() - b.len() - c.len()] == match k {
                KernelModule::Name(n) => StepView::KernelModuleNamed(n@),
                KernelModule::Path(p) => StepView::KernelModuleAt(p@),
            });
        } else {
            assert(s[i] == e[i - a.len() - b.len() - c.len() - d.len()]);
        }
    }
}

proof fn lemma_modules_steps_no_script(ms: Seq<Module>)
    ensures
        forall|i: int|
            0 <= i < modules_steps(ms).len() ==> !(#[trigger] modules_steps(ms)[i] is Init) && !(
            modules_steps(ms)[i] is Shutdown) && !(modules_steps(ms)[i] is OpenKernelModules),
    decreases ms.len(),
{
    if ms.len() > 0 {
        lemma_modules_steps_no_script(ms.drop_last());
        lemma_module_steps_no_script(ms.last());
        let a = modules_steps(ms.drop_last());
        let b = module_steps(ms.last());
        assert forall|i: int| 0 <= i < modules_steps(ms).len() implies !(#[trigger] modules_steps(ms)[i] is Init)
            && !(modules_steps(ms)[i] is Shutdown) && !(modules_steps(ms)[i] is OpenKernelModules) by {
            if i < a.len() {
                assert(modules_steps(ms)[i] == a[i]);
            } else {
                assert(modules_steps(ms)[i] == b[i - a.len()]);
            }
        }
    }
}

/// The steps of the selected modules are those of each module, one module
/// after the other: the steps of two runs of modules are those of the first,
/// then those of the second; a module's steps start with one `Binary` step
/// per binary, in order.
pub proof fn lemma_modules_steps_laws(a: Seq<Module>, b: Seq<Module>, m: Module)
    ensures
        modules_steps(a + b) == modules_steps(a) + modules_steps(b),
        module_steps(m).len() >= m.binaries@.len(),
        forall|i: int|
            0 <= i < m.binaries@.len() ==> #[trigger] module_steps(m)[i] == StepView::Binary(m.binaries@[i].path@),
    decreases b.len(),
{
    if b.len() > 0 {
        lemma_modules_steps_laws(a, b.drop_last(), m);
        assert((a + b).drop_last() =~= a + b.drop_last());
        assert((a + b).last() == b.last());
        assert(modules_steps(a + b) =~= modules_steps(a) + modules_steps(b));
    } else {
        assert(a + b =~= a);
        assert(modules_steps(b) =~= Seq::<StepView>::empty());
        assert(modules_steps(a + b) =~= modules_steps(a) + modules_steps(b));
    }
    let bins = m.binaries@.map_values(|x: Binary| StepView::Binary(x.path@));
    assert forall|i: int| 0 <= i < m.binaries@.len() implies #[trigger] module_steps(m)[i] == StepView::Binary(
        m.binaries@[i].path@,
    ) by {
        assert(module_steps(m)[i] == bins[i]);
    }
}

/// How a build starts: the init script first; then the shutdown script,
/// exactly where the configuration names one; then the opening of the kernel
/// modules, from the configured directory if there is one. No other step
/// adds a script or opens the kernel modules.
pub proof fn lemma_config_steps_start(config: Initramfs, modules: Seq<Module>)
    ensures
        config_steps(config, modules).len() >= 2,
        config_steps(config, modules)[0] == StepView::Init(config.init@),
        config.shutdown matches Some(p) ==> config_steps(config, modules)[1] == StepView::Shutdown(p@),
        ({
            let k: int = if config.shutdown is Some { 2 } else { 1 };
            &&& config_steps(config, modules)[k] == StepView::OpenKernelModules(
                match config.settings.kernel_module_path {
                    Some(p) => Some(p@),
                    None => None,
                },
            )
            &&& forall|i: int|
                k < i < config_steps(config, modules).len() ==> !(#[trigger] config_steps(config, modules)[i] is Init)
                    && !(config_steps(config, modules)[i] is Shutdown) && !(config_steps(
                    config,
                    modules,
                )[i] is OpenKernelModules)
        }),
        config.shutdown is None ==> forall|i: int|
            0 <= i < config_steps(config, modules).len() ==> !(#[trigger] config_steps(config, modules)[i] is Shutdown),
{
    lemma_modules_steps_no_script(modules);
    let s = config_steps(config, modules);
    let k: int = if config.shutdown is Some { 2 } else { 1 };
    let head = seq![StepView::Init(config.init@)] + (match config.shutdown {
        Some(p) => seq![StepView::Shutdown(p@)],
        None => Seq::empty(),
    }) + seq![
        StepView::OpenKernelModules(
            match config.settings.kernel_module_path {
                Some(p) => Some(p@),
                None => None,
            },
        ),
    ];
    let rest = modules_steps(modules);
    assert(s == head + rest);
    assert(head.len() == k + 1);
    assert forall|i: int| k < i < s.len() implies !(#[trigger] s[i] is Init) && !(s[i] is Shutdown) && !(
    s[i] is OpenKernelModules) by {
        assert(s[i] == rest[i - head.len()]);
    }
    if config.shutdown is None {
        assert forall|i: int| 0 <= i < s.len() implies !(#[trigger] s[i] is Shutdown) by {
            if i > k {
                assert(s[i] == rest[i - head.len()]);
            }
        }
    }
}

fn push_module_steps(steps: &mut Vec<BuildStep>, m: &Module)
    ensures
        step_views(final(steps)@) == step_views(old(steps)@) + module_steps(*m),
{
    let ghost start = step_views(steps@);
    let mut i: usize = 0;
    while i < m.binaries.len()
        invariant
            i <= m.binaries@.len(),
            step_views(steps@) == start + m.binaries@.take(i as int).map_values(
                |b: Binary| StepView::Binary(b.path@),
            ),
        decreases m.binaries@.len() - i,
    {
        let ghost prev = step_views(steps@);
        steps.push(BuildStep::Binary(m.binaries[i].path.duplicate()));
        assert(step_views(steps@) =~= prev.push(steps@.last().view()));
        assert(m.binaries@.take(i + 1) =~= m.binaries@.take(i as int).push(m.binaries@[i as int]));
        assert(step_views(steps@) =~= start + m.binaries@.take(i + 1).map_values(
            |b: Binary| StepView::Binary(b.path@),
        ));
        i = i + 1;
    }
    assert(m.binaries@.take(i as int) =~= m.binaries@);
    let ghost s1 = step_views(steps@);
    let mut i: usize = 0;
    while i < m.files.len()
        invariant
            i <= m.files@.len(),
            step_views(steps@) == s1 + m.files@.take(i as int).map_values(
                |f: File| StepView::Files(path_views(f.sources@), f.destination@),
            ),
        decreases m.files@.len() - i,
    {
        let f = &m.files[i];
        let mut sources: Vec<VfsPath> = Vec::new();
        let mut j: usize = 0;
        while j < f.sources.len()
            invariant
                j <= f.sources@.len(),
                path_views(sources@) == path_views(f.sources@.take(j as int)),
            decreases f.sources@.len() - j,
        {
            let ghost prev = path_views(sources@);
            sources.push(f.sources[j].duplicate());
            assert(path_views(sources@) =~= prev.push(sources@.last()@));
            assert(f.sources@.take(j + 1) =~= f.sources@.take(j as int).push(f.sources@[j as int]));
            assert(path_views(sources@) =~= path_views(f.sources@.take(j + 1)));
            j = j + 1;
        }
        assert(f.sources@.take(j as int) =~= f.sources@);
        let ghost prev = step_views(steps@);
        steps.push(BuildStep::Files(sources, f.destination.duplicate()));
        assert(step_views(steps@) =~= prev.push(steps@.last().view()));
        assert(m.files@.take(i + 1) =~= m.files@.take(i as int).push(m.files@[i as int]));
        assert(step_views(steps@) =~= s1 + m.files@.take(i + 1).map_values(
            |f: File| StepView::Files(path_views(f.sources@), f.destination@),
        ));
        i = i + 1;
    }
    assert(m.files@.take(i as int) =~= m.files@);
    let ghost s2 = step_views(steps@);
    let mut i: usize = 0;
    while i < m.symlinks.len()
        invariant
            i <= m.symlinks@.len(),
            step_views(steps@) == s2 + m.symlinks@.take(i as int).map_values(
                |l: Symlink| StepView::Symlink(l.path@, l.target@),
            ),
        decreases m.symlinks@.len() - i,
    {
        let l = &m.symlinks[i];
        let ghost prev = step_views(steps@);
        steps.push(BuildStep::Symlink(l.path.duplicate(), l.target.duplicate()));
        assert(step_views(steps@) =~= prev.push(steps@.last().view()));
        assert(m.symlinks@.take(i + 1) =~= m.symlinks@.take(i as int).push(m.symlinks@[i as int]));
        assert(step_views(steps@) =~= s2 + m.symlinks@.take(i + 1).map_values(
            |l: Symlink| StepView::Symlink(l.path@, l.target@),
        ));
        i = i + 1;
    }
    assert(m.symlinks@.take(i as int) =~= m.symlinks@);
    let ghost s3 = step_views(steps@);
    let mut i: usize = 0;
    while i < m.kernel_modules.len()
        invariant
            i <= m.kernel_modules@.len(),
            step_views(steps@) == s3 + m.kernel_modules@.take(i as int).map_values(
                |k: KernelModule|
                    match k {
                        KernelModule::Name(n) => StepView::KernelModuleNamed(n@),
                        KernelModule::Path(p) => StepView::KernelModuleAt(p@),
                    },
            ),
        decreases m.kernel_modules@.len() - i,
    {
        let step = match &m.kernel_modules[i] {
            KernelModule::Name(n) => BuildStep::KernelModuleNamed(n.clone()),
            KernelModule::Path(p) => BuildStep::KernelModuleAt(p.duplicate()),
        };
        let ghost prev = step_views(steps@);
        steps.push(step);
        assert(step_views(steps@) =~= prev.push(steps@.last().view()));
        assert(m.kernel_modules@.take(i + 1) =~= m.kernel_modules@.take(i as int).push(
            m.kernel_modules@[i as int],
        ));
        assert(step_views(steps@) =~= s3 + m.kernel_modules@.take(i + 1).map_values(
            |k: KernelModule|
                match k {
                    KernelModule::Name(n) => StepView::KernelModuleNamed(n@),
                    KernelModule::Path(p) => StepView::KernelModuleAt(p@),
                },
        ));
        i = i + 1;
    }
    assert(m.kernel_modules@.take(i as int) =~= m.kernel_modules@);
    let ghost s4 = step_views(steps@);
    let mut i: usize = 0;
    while i < m.units.len()
        invariant
            i <= m.units@.len(),
            step_views(steps@) == s4 + m.units@.take(i as int).map_values(
                |u: Unit| StepView::Unit(u.name@),
            ),
        decreases m.units@.len() - i,
    {
        let ghost prev = step_views(steps@);
        steps.push(BuildStep::Unit(m.units[i].name.clone()));
        assert(step_views(steps@) =~= prev.push(steps@.last().view()));
        assert(m.units@.take(i + 1) =~= m.units@.take(i as int).push(m.units@[i as int]));
        assert(step_views(steps@) =~= s4 + m.units@.take(i + 1).map_values(
            |u: Unit| StepView::Unit(u.name@),
        ));
        i = i + 1;
    }
    assert(m.units@.take(i as int) =~= m.units@);
    assert(step_views(steps@) =~= step_views(old(steps)@) + module_steps(*m));
}

/// The steps of building an initramfs from a configuration and its selected
/// modules, in the order they are taken.
pub fn config_steps_of(config: &Initramfs, modules: &Vec<Module>) -> (r: Vec<BuildStep>)
    ensures
        step_views(r@) == config_steps(*config, modules@),
{
    let mut steps: Vec<BuildStep> = Vec::new();
    let ghost prev = step_views(steps@);
    steps.push(BuildStep::Init(config.init.duplicate()));
    assert(step_views(steps@) =~= prev.push(steps@.last().view()));
    if let Some(p) = &config.shutdown {
        let ghost prev = step_views(steps@);
        steps.push(BuildStep::Shutdown(p.duplicate()));
        assert(step_views(steps@) =~= prev.push(steps@.last().view()));
    }
    let dir = match &config.settings.kernel_module_path {
        Some(p) => Some(p.duplicate()),
        None => None,
    };
    let ghost prev = step_views(steps@);
    steps.push(BuildStep::OpenKernelModules(dir));
    assert(step_views(steps@) =~= prev.push(steps@.last().view()));
    let ghost head = step_views(steps@);
    assert(head =~= config_steps(*config, Seq::empty()));
    let mut i: usize = 0;
    assert(modules@.take(0) =~= Seq::<Module>::empty());
    while i < modules.len()
        invariant
            i <= modules@.len(),
            step_views(steps@) == head + modules_steps(modules@.take(i as int)),
        decreases modules@.len() - i,
    {
        push_module_steps(&mut steps, &modules[i]);
        assert(modules@.take(i + 1).drop_last() =~= modules@.take(i as int));
        i = i + 1;
    }
    assert(modules@.take(i as int) =~= modules@);
    assert(step_views(steps@) =~= config_steps(*config, modules@));
    steps
}

} // verus!
