use libaether::AetherError;
use libaether::MTree;
use libaether::Pkg;
use libaether::PkgDir;
use libaether::PkgInfo;
use libaether::PkgList;

fn strings(v: &[&str]) -> Vec<String> {
    v.iter().map(|s| s.to_string()).collect()
}

fn sample_pkginfo_bytes(name: &str, ver: &str) -> Vec<u8> {
    format!("pkgname = {}\npkgver = {}\n", name, ver).into_bytes()
}

fn sample_dir(name: &str, ver: &str, execs: &[&str]) -> PkgDir {
    let path = format!("/src/{}-{}", name, ver);
    let mut files = vec![
        format!("{}/.MTREE", path),
        format!("{}/.PKGINFO", path),
    ];
    for e in execs {
        files.push(format!("{}/usr/bin/{}", path, e));
    }
    PkgDir {
        path,
        entries: strings(&[".MTREE", ".PKGINFO", "usr"]),
        files,
        pkginfo: Some(sample_pkginfo_bytes(name, ver)),
        buildinfo: None,
        mtree: Some(b"#mtree\n".to_vec()),
    }
}

fn sample_pkg(name: &str, ver: &str, execs: &[&str]) -> Pkg {
    Pkg::from_dir(&sample_dir(name, ver, execs)).unwrap()
}

fn empty_registry() -> PkgList {
    PkgList::new_from(&Vec::new()).unwrap()
}

#[test]
fn empty_dir_fails_validation() {
    let d = PkgDir {
        path: "/candidate".to_string(),
        entries: Vec::new(),
        files: Vec::new(),
        pkginfo: Some(sample_pkginfo_bytes("foo", "1")),
        buildinfo: None,
        mtree: Some(Vec::new()),
    };
    let err = Pkg::is_valid_dir(&d).unwrap_err();
    assert_eq!(
        err,
        AetherError::InvalidPkg { path: "/candidate".to_string(), note: "no data".to_string() }
    );
    assert!(Pkg::from_dir(&d).is_err());
}

#[test]
fn missing_manifest_file_fails_validation() {
    let mut d = sample_dir("foo", "1", &[]);
    d.entries = strings(&["somefile"]);
    let err = Pkg::is_valid_dir(&d).unwrap_err();
    assert_eq!(
        err,
        AetherError::InvalidPkg { path: d.path.clone(), note: "missing .MTREE file".to_string() }
    );
}

#[test]
fn missing_metadata_file_fails_validation() {
    let mut d = sample_dir("foo", "1", &[]);
    d.entries = strings(&[".MTREE"]);
    let err = Pkg::is_valid_dir(&d).unwrap_err();
    assert_eq!(
        err,
        AetherError::InvalidPkg { path: d.path.clone(), note: "missing .PKGINFO file".to_string() }
    );
}

#[test]
fn unreadable_manifest_fails_validation() {
    let mut d = sample_dir("foo", "1", &[]);
    d.mtree = None;
    let err = Pkg::is_valid_dir(&d).unwrap_err();
    assert_eq!(
        err,
        AetherError::InvalidPkg { path: d.path.clone(), note: "invalid .MTREE file".to_string() }
    );
}

#[test]
fn unparseable_metadata_fails_validation() {
    let mut d = sample_dir("foo", "1", &[]);
    d.pkginfo = Some(b"bogus = 1\n".to_vec());
    let err = Pkg::is_valid_dir(&d).unwrap_err();
    assert_eq!(
        err,
        AetherError::InvalidPkg { path: d.path.clone(), note: "invalid .PKGINFO file".to_string() }
    );
    let mut d2 = sample_dir("foo", "1", &[]);
    d2.pkginfo = None;
    let err2 = Pkg::is_valid_dir(&d2).unwrap_err();
    assert_eq!(
        err2,
        AetherError::InvalidPkg { path: d2.path.clone(), note: "invalid .PKGINFO file".to_string() }
    );
}

#[test]
fn from_dir_populates_package() {
    let mut d = sample_dir("foo", "1.0-1", &["foo"]);
    d.buildinfo = Some(b"format = 2\n".to_vec());
    let pkg = Pkg::from_dir(&d).unwrap();
    assert_eq!(pkg.pkginfo.pkgname, "foo");
    assert_eq!(pkg.path, d.path);
    assert_eq!(pkg.files, d.files);
    assert_eq!(pkg.mtree.bytes(), &b"#mtree\n".to_vec());
    assert_eq!(pkg.buildinfo.as_ref().unwrap().format, 2);
}

#[test]
fn from_dir_tolerates_bad_build_record() {
    let mut d = sample_dir("foo", "1.0-1", &[]);
    d.buildinfo = Some(b"not build info".to_vec());
    let pkg = Pkg::from_dir(&d).unwrap();
    assert!(pkg.buildinfo.is_none());
}

#[test]
fn reference_string_is_name_dash_version() {
    let pkg = sample_pkg("foo", "1.0-1", &[]);
    assert_eq!(pkg.get_refstr(), "foo-1.0-1");
    let odd = sample_pkg("a-b", "2", &[]);
    assert_eq!(odd.get_refstr(), "a-b-2");
}

#[test]
fn list_execs_finds_bin_entries() {
    let mut d = sample_dir("foo", "1", &["a", "b"]);
    d.files.push(format!("{}/bin/c", d.path));
    d.files.push(format!("{}/other/nope", d.path));
    d.files.push(format!("{}/usr/bin/sub/deep", d.path));
    let pkg = Pkg::from_dir(&d).unwrap();
    assert_eq!(pkg.list_execs(), strings(&["a", "b", "c"]));
}

#[test]
fn check_files_reports_missing() {
    let pkg = sample_pkg("foo", "1", &[]);
    let all = strings(&[".MTREE", ".PKGINFO"]);
    assert_eq!(pkg.check_files(&all).unwrap(), all);
    let only = strings(&[".MTREE"]);
    let err = pkg.check_files(&only).unwrap_err();
    assert_eq!(err, AetherError::MissingFile(strings(&[".PKGINFO"])));
}

#[test]
fn check_execs_reports_missing() {
    let pkg = sample_pkg("foo", "1", &["x", "y"]);
    assert_eq!(pkg.check_execs(&strings(&["x", "y", "z"])).unwrap(), strings(&["x", "y"]));
    let err = pkg.check_execs(&strings(&["x"])).unwrap_err();
    assert_eq!(err, AetherError::MissingExec(strings(&["y"])));
}

#[test]
fn check_files_rejects_file_without_name() {
    let mut pkg = sample_pkg("foo", "1", &[]);
    pkg.files = strings(&["/p/.."]);
    let err = pkg.check_files(&Vec::new()).unwrap_err();
    assert_eq!(err, AetherError::Unknown);
    let mut reg = empty_registry();
    reg.install(pkg.clone()).unwrap();
    let err2 = reg.remove(&pkg, &Vec::new(), &Vec::new()).unwrap_err();
    assert_eq!(err2, AetherError::Unknown);
    assert!(reg.pkg_exists(&pkg));
}

#[test]
fn install_registers_package() {
    let mut reg = empty_registry();
    let pkg = sample_pkg("foo", "1.0-1", &["foo"]);
    reg.install(pkg.clone()).unwrap();
    assert!(reg.pkg_exists(&pkg));
    assert_eq!(reg.pkgs().len(), 1);
}

#[test]
fn install_duplicate_refstr_fails_and_preserves_registry() {
    let mut reg = empty_registry();
    reg.install(sample_pkg("foo", "1.0-1", &["foo"])).unwrap();
    let again = sample_pkg("foo", "1.0-1", &[]);
    let err = reg.install(again).unwrap_err();
    assert_eq!(err, AetherError::AlreadyExists("foo-1.0-1".to_string()));
    assert_eq!(reg.pkgs().len(), 1);
}

#[test]
fn install_exec_conflict_fails_and_preserves_registry() {
    let mut reg = empty_registry();
    reg.install(sample_pkg("first", "1", &["foo"])).unwrap();
    let rival = sample_pkg("second", "1", &["foo", "other"]);
    let err = reg.install(rival).unwrap_err();
    assert_eq!(err, AetherError::ExecConflict(strings(&["foo"])));
    assert_eq!(reg.pkgs().len(), 1);
    assert!(!reg.pkg_exists(&sample_pkg("second", "1", &[])));
}

#[test]
fn exec_conflicts_reports_duplicates() {
    let mut reg = empty_registry();
    reg.install(sample_pkg("first", "1", &["a", "b"])).unwrap();
    assert!(reg.exec_conflicts().is_none());
    let rival = sample_pkg("second", "1", &["b", "a"]);
    let found = reg.check_exec_conflicts(rival);
    assert_eq!(found.unwrap(), strings(&["b", "a"]));
    assert_eq!(reg.pkgs().len(), 1);
}

#[test]
fn self_conflicting_package_is_rejected() {
    let mut reg = empty_registry();
    let mut d = sample_dir("dup", "1", &["x"]);
    d.files.push(format!("{}/bin/x", d.path));
    let pkg = Pkg::from_dir(&d).unwrap();
    let err = reg.install(pkg).unwrap_err();
    assert_eq!(err, AetherError::ExecConflict(strings(&["x"])));
    assert_eq!(reg.pkgs().len(), 0);
}

#[test]
fn remove_missing_package_fails() {
    let mut reg = empty_registry();
    let pkg = sample_pkg("ghost", "9", &[]);
    let err = reg.remove(&pkg, &Vec::new(), &Vec::new()).unwrap_err();
    assert_eq!(
        err,
        AetherError::MissingPkg { name: "ghost".to_string(), ver: "9".to_string() }
    );
    assert_eq!(reg.pkgs().len(), 0);
}

#[test]
fn remove_returns_full_plan_when_everything_is_present() {
    let mut reg = empty_registry();
    let pkg = sample_pkg("foo", "1", &["x"]);
    reg.install(pkg.clone()).unwrap();
    let bins = strings(&["x"]);
    let stores = strings(&[".MTREE", ".PKGINFO", "x"]);
    let plan = reg.remove(&pkg, &bins, &stores).unwrap();
    assert_eq!(plan.unlink, strings(&["x"]));
    assert_eq!(plan.delete, strings(&[".MTREE", ".PKGINFO", "x"]));
    assert!(!reg.pkg_exists(&pkg));
    assert_eq!(reg.pkgs().len(), 0);
}

#[test]
fn remove_tolerates_already_missing_items() {
    let mut reg = empty_registry();
    let pkg = sample_pkg("foo", "1", &["x"]);
    reg.install(pkg.clone()).unwrap();
    let plan = reg.remove(&pkg, &Vec::new(), &Vec::new()).unwrap();
    assert_eq!(plan.unlink.len(), 0);
    assert_eq!(plan.delete.len(), 0);
    assert!(!reg.pkg_exists(&pkg));
}

#[test]
fn remove_twice_fails_second_time_with_missing_package() {
    let mut reg = empty_registry();
    let pkg = sample_pkg("foo", "1.0-1", &["x"]);
    reg.install(pkg.clone()).unwrap();
    let bins = strings(&["x"]);
    let stores = strings(&[".MTREE", ".PKGINFO", "x"]);
    reg.remove(&pkg, &bins, &stores).unwrap();
    let err = reg.remove(&pkg, &Vec::new(), &Vec::new()).unwrap_err();
    assert_eq!(
        err,
        AetherError::MissingPkg { name: "foo".to_string(), ver: "1.0-1".to_string() }
    );
}

#[test]
fn load_is_all_or_nothing() {
    let good = sample_dir("foo", "1", &[]);
    let mut bad = sample_dir("bar", "1", &[]);
    bad.mtree = None;
    assert!(PkgList::new_from(&vec![good.clone(), bad]).is_err());
    let reg = PkgList::new_from(&vec![good]).unwrap();
    assert_eq!(reg.pkgs().len(), 1);
    assert_eq!(reg.pkgs()[0].pkginfo.pkgname, "foo");
}

#[test]
fn mtree_storage_is_restartable() {
    let raw = vec![1u8, 2, 3];
    let m = MTree::new(raw.clone());
    assert_eq!(m.bytes(), &raw);
    assert_eq!(m.bytes(), &raw);
}

#[test]
fn pkg_display_string_exact() {
    let mut info = PkgInfo::new();
    info.pkgname = "foo".to_string();
    info.pkgver = "1.0".to_string();
    info.pkgdesc = "a demo".to_string();
    info.size = 3;
    let pkg = Pkg {
        files: Vec::new(),
        buildinfo: None,
        mtree: MTree::new(Vec::new()),
        pkginfo: info,
        path: "/p".to_string(),
    };
    assert_eq!(pkg.display_string(), "Pkg { name: foo, version: 1.0, desc: a demo, size: 3 }");
}

#[test]
fn registry_display_string_exact() {
    let mut reg = empty_registry();
    let mut d = sample_dir("foo", "1.0-1", &[]);
    d.pkginfo = Some(b"pkgname = foo\npkgver = 1.0-1\npkgdesc = a demo\n".to_vec());
    reg.install(Pkg::from_dir(&d).unwrap()).unwrap();
    assert_eq!(reg.display_string(), "packages [\n    foo-1.0-1: \"a demo\",\n]");
}

#[test]
fn derived_directories_end_in_fixed_suffix() {
    if let Some(d) = libaether::cache_dir() {
        assert!(d.ends_with("/aether"));
    }
    if let Some(d) = libaether::config_dir() {
        assert!(d.ends_with("/aether"));
    }
    if let Some(d) = libaether::pkg_dir() {
        assert!(d.ends_with("/aether/pkg"));
    }
    let _ = libaether::bin_dir();
}
