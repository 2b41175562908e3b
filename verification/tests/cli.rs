use elusive::cli::{chosen_encoder, confdir_paths, config_path, resolve_args, select_modules, Args, Command, ConfigurationError};
use elusive::config::{config_steps_of, BuildStep, Initramfs, KernelModule, Module, Settings, Symlink};
use elusive::encoder::Encoder;
use elusive::path::VfsPath;

fn p(s: &str) -> VfsPath {
    VfsPath::from_bytes(s.as_bytes())
}

fn module(name: &str, units: usize) -> Module {
    Module {
        name: name.to_string(),
        binaries: Vec::new(),
        files: Vec::new(),
        symlinks: Vec::new(),
        kernel_modules: Vec::new(),
        units: (0..units).map(|_| elusive::config::Unit { name: "u".to_string() }).collect(),
    }
}

#[test]
fn cli_config_path() {
    assert_eq!(config_path(Some(p("/x.yaml")), true).unwrap().to_bytes(), b"/x.yaml".to_vec());
    assert_eq!(config_path(None, false).unwrap().to_bytes(), b"/etc/elusive.yaml".to_vec());
    assert!(matches!(config_path(None, true), Err(ConfigurationError::SkipWithoutParameter)));
}

#[test]
fn cli_confdir_paths() {
    let given = confdir_paths(Some(vec![p("/a")]), false).unwrap();
    let given: Vec<Vec<u8>> = given.iter().map(|q| q.to_bytes()).collect();
    assert_eq!(given, vec![b"/a".to_vec(), b"/etc/elusive.d".to_vec(), b"/usr/share/elusive.d".to_vec()]);
    assert_eq!(confdir_paths(Some(vec![p("/a")]), true).unwrap().len(), 1);
    assert_eq!(confdir_paths(None, false).unwrap().len(), 2);
    assert!(matches!(confdir_paths(None, true), Err(ConfigurationError::SkipWithoutParameter)));
}

#[test]
fn cli_default_encoder() {
    assert_eq!(chosen_encoder(None), Encoder::Zstd);
    assert_eq!(chosen_encoder(Some(Encoder::Gzip)), Encoder::Gzip);
}

#[test]
fn cli_select_modules() {
    let available = vec![module("base", 0), module("kmod", 1), module("base", 2)];
    let requested = vec!["kmod".to_string(), "base".to_string()];
    let selected = select_modules(&requested, available).unwrap();
    assert_eq!(selected.len(), 2);
    assert_eq!(selected[0].name, "kmod");
    assert_eq!(selected[1].name, "base");
    // the last module with a name is the one it refers to
    assert_eq!(selected[1].units.len(), 2);
}

#[test]
fn cli_select_unknown_or_twice() {
    let available = vec![module("base", 0)];
    match select_modules(&vec!["nope".to_string()], available) {
        Err(ConfigurationError::UnknownModule(n)) => assert_eq!(n, "nope"),
        other => panic!("unexpected: {:?}", other),
    }
    let available = vec![module("base", 0)];
    match select_modules(&vec!["base".to_string(), "base".to_string()], available) {
        Err(ConfigurationError::UnknownModule(n)) => assert_eq!(n, "base"),
        other => panic!("unexpected: {:?}", other),
    }
}

#[test]
fn config_steps_in_order() {
    let config = Initramfs {
        init: p("/sbin/init"),
        shutdown: None,
        settings: Settings { kernel_module_path: Some(p("/lib/modules/6.1")) },
        modules: vec!["a".to_string()],
    };
    let mut m = module("a", 1);
    m.symlinks.push(Symlink { path: p("/usr/bin/sh"), target: p("busybox") });
    m.kernel_modules.push(KernelModule::Name("btrfs".to_string()));
    let steps = config_steps_of(&config, &vec![m]);
    assert_eq!(steps.len(), 5);
    assert!(matches!(&steps[0], BuildStep::Init(q) if q.to_bytes() == b"/sbin/init".to_vec()));
    assert!(matches!(&steps[1], BuildStep::OpenKernelModules(Some(_))));
    assert!(matches!(&steps[2], BuildStep::Symlink(_, t) if t.to_bytes() == b"busybox".to_vec()));
    assert!(matches!(&steps[3], BuildStep::KernelModuleNamed(n) if n == "btrfs"));
    assert!(matches!(&steps[4], BuildStep::Unit(n) if n == "u"));
}

#[test]
fn cli_resolve_args() {
    let args = Args {
        config: None,
        confdir: Some(vec![p("/x")]),
        skip_default_paths: false,
        encoder: None,
        command: Command::Microcode { output: p("/out.img") },
    };
    let inv = resolve_args(args).unwrap();
    assert_eq!(inv.config_path.to_bytes(), b"/etc/elusive.yaml".to_vec());
    assert_eq!(inv.confdir_paths.len(), 3);
    assert_eq!(inv.encoder, Encoder::Zstd);
    assert!(matches!(inv.command, Command::Microcode { .. }));
    let args = Args {
        config: Some(p("/c.yaml")),
        confdir: None,
        skip_default_paths: true,
        encoder: Some(Encoder::Plain),
        command: Command::Microcode { output: p("-") },
    };
    assert!(matches!(resolve_args(args), Err(ConfigurationError::SkipWithoutParameter)));
}
