use elusive::path::VfsPath;
use elusive::systemd::{cmd_exec_path, Unit, UnitError, UnitParser};

const SERVICE: &str = "# a comment\n[Unit]\nDescription = Journal\nRequires=a.socket b.slice  c.service\nRequires=d.service\n\n[Service]\nExecStart=-/usr/lib/systemd/systemd-journald --flag\nExecStart=@/bin/echo echo\n; another comment\n";

#[test]
fn systemd_parse_properties() {
    let props = UnitParser::parse(SERVICE).unwrap();
    let triples: Vec<(String, String, String)> =
        props.into_iter().map(|p| (p.section, p.key, p.value)).collect();
    assert_eq!(
        triples,
        vec![
            ("Unit".into(), "Description".into(), "Journal".into()),
            ("Unit".into(), "Requires".into(), "a.socket b.slice  c.service".into()),
            ("Unit".into(), "Requires".into(), "d.service".into()),
            ("Service".into(), "ExecStart".into(), "-/usr/lib/systemd/systemd-journald --flag".into()),
            ("Service".into(), "ExecStart".into(), "@/bin/echo echo".into()),
        ]
    );
}

#[test]
fn systemd_parse_error_line() {
    assert_eq!(UnitParser::parse("[Unit]\nok=1\nnot a property\n").unwrap_err(), 2);
    assert_eq!(UnitParser::parse("[Unit\n").unwrap_err(), 0);
    assert_eq!(UnitParser::parse("=value\n").unwrap_err(), 0);
}

#[test]
fn systemd_cmd_exec_path() {
    assert_eq!(cmd_exec_path("-/usr/bin/foo --bar"), "/usr/bin/foo");
    assert_eq!(cmd_exec_path("!!@/bin/sh -c x"), "/bin/sh");
    assert_eq!(cmd_exec_path("/bin/true"), "/bin/true");
    assert_eq!(cmd_exec_path(""), "");
}

#[test]
fn systemd_from_contents() {
    let path = VfsPath::from_bytes(b"/usr/lib/systemd/system/systemd-journald.service");
    let probe = |p: &VfsPath| p.to_bytes() == b"/usr/lib/systemd/system/sysinit.target.wants/systemd-journald.service".to_vec();
    let unit = Unit::from_contents("systemd-journald.service", path, SERVICE.to_string(), &probe).unwrap();
    assert_eq!(unit.binaries, vec!["/usr/lib/systemd/systemd-journald".to_string(), "/bin/echo".to_string()]);
    // every Requires= line counts, in order, slice units left out
    assert_eq!(
        unit.dependencies,
        vec!["a.socket".to_string(), "".to_string(), "c.service".to_string(), "d.service".to_string()]
    );
    assert_eq!(unit.data, SERVICE.as_bytes().to_vec());
    assert_eq!(
        unit.install_path.unwrap().to_bytes(),
        b"/usr/lib/systemd/system/sysinit.target.wants/systemd-journald.service".to_vec()
    );
}

#[test]
fn systemd_socket_install_dirs() {
    let path = VfsPath::from_bytes(b"/usr/lib/systemd/system/x.socket");
    let probe = |_: &VfsPath| true;
    let unit = Unit::from_contents("x.socket", path, "[Unit]\nA=b\n".to_string(), &probe).unwrap();
    assert_eq!(
        unit.install_path.unwrap().to_bytes(),
        b"/usr/lib/systemd/system/sockets.target.wants/x.socket".to_vec()
    );
    let path = VfsPath::from_bytes(b"/usr/lib/systemd/system/x.mount");
    let unit = Unit::from_contents("x.mount", path, "[Unit]\nA=b\n".to_string(), &probe).unwrap();
    assert!(unit.install_path.is_none());
    assert!(unit.binaries.is_empty());
    assert!(unit.dependencies.is_empty());
}

#[test]
fn systemd_missing_sections() {
    let path = VfsPath::from_bytes(b"/etc/systemd/system/x.service");
    let probe = |_: &VfsPath| false;
    let r = Unit::from_contents("x.service", path.duplicate(), "[Unit]\n[Service]\nType=oneshot\n".to_string(), &probe);
    assert!(matches!(r, Err(UnitError::MissingExecStart)));
    let r = Unit::from_contents("x.service", path.duplicate(), "[Install]\nWantedBy=x\n".to_string(), &probe);
    assert!(matches!(r, Err(UnitError::MissingUnitSection)));
    let r = Unit::from_contents("x.service", path, "garbage\n".to_string(), &probe);
    assert!(matches!(r, Err(UnitError::Parse(0))));
}

#[test]
fn systemd_find_unit() {
    let probe = |p: &VfsPath| p.to_bytes() == b"/etc/systemd/system/x.service".to_vec();
    let found = Unit::find_unit(&VfsPath::from_bytes(b"x.service"), &probe).unwrap();
    assert_eq!(found.to_bytes(), b"/etc/systemd/system/x.service".to_vec());
    assert!(matches!(
        Unit::find_unit(&VfsPath::from_bytes(b"y.service"), &probe),
        Err(UnitError::UnitNotFound(_))
    ));
}

#[test]
fn systemd_from_name_reads_found_file() {
    let probe = |p: &VfsPath| p.to_bytes() == b"/usr/lib/systemd/system/z.target".to_vec();
    let read = |p: &VfsPath| -> Result<String, std::io::Error> {
        assert_eq!(p.to_bytes(), b"/usr/lib/systemd/system/z.target".to_vec());
        Ok("[Unit]\nRequires=y.target\n".to_string())
    };
    let unit = Unit::from_name("z.target", &probe, &read).unwrap();
    assert_eq!(unit.dependencies, vec!["y.target".to_string()]);
    let fail = |_: &VfsPath| -> Result<String, std::io::Error> {
        Err(std::io::Error::new(std::io::ErrorKind::Other, "boom"))
    };
    assert!(matches!(Unit::from_name("z.target", &probe, &fail), Err(UnitError::InputOutput(_))));
}
