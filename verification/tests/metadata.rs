use libaether::AetherError;
use libaether::BuildInfo;
use libaether::PkgInfo;

#[test]
fn pkginfo_example_fields() {
    let text = "pkgname = foo\npkgver = 1.0-1\narch = x86_64\narch = any\n";
    let info = PkgInfo::parse_text(text).unwrap();
    assert_eq!(info.pkgname, "foo");
    assert_eq!(info.pkgver, "1.0-1");
    assert_eq!(info.arch, vec!["x86_64".to_string(), "any".to_string()]);
    assert_eq!(info.pkgbase, "");
    assert_eq!(info.builddate, 0);
}

#[test]
fn pkginfo_parse_bytes() {
    let info = PkgInfo::parse(b"pkgname = foo\nsize = 41\n").unwrap();
    assert_eq!(info.pkgname, "foo");
    assert_eq!(info.size, 41);
}

#[test]
fn pkginfo_comments_skipped() {
    let info = PkgInfo::parse_text("# a comment\npkgname = foo\n#another\n").unwrap();
    assert_eq!(info.pkgname, "foo");
}

#[test]
fn pkginfo_empty_lines_skipped() {
    let info = PkgInfo::parse_text("\n\npkgname = foo\n\n").unwrap();
    assert_eq!(info.pkgname, "foo");
}

#[test]
fn pkginfo_unknown_key_fails() {
    let err = PkgInfo::parse_text("bogus = 1\n").unwrap_err();
    assert_eq!(
        err,
        AetherError::InfoKeyError { kind: "PkgInfo".to_string(), key: "bogus".to_string() }
    );
}

#[test]
fn pkginfo_missing_delimiter_fails() {
    let err = PkgInfo::parse_text("pkgname\n").unwrap_err();
    assert_eq!(
        err,
        AetherError::InfoParseError { field: "value".to_string(), line: "pkgname".to_string() }
    );
}

#[test]
fn pkginfo_bad_number_fails() {
    let err = PkgInfo::parse_text("size = abc\n").unwrap_err();
    assert_eq!(
        err,
        AetherError::InvalidValue { key: "size".to_string(), value: "abc".to_string() }
    );
}

#[test]
fn pkginfo_numeric_values() {
    let info = PkgInfo::parse_text("builddate = 1729\nsize = -5\n").unwrap();
    assert_eq!(info.builddate, 1729);
    assert_eq!(info.size, -5);
}

#[test]
fn pkginfo_numeric_extremes() {
    let info = PkgInfo::parse_text("builddate = -2147483648\nsize = 2147483647\n").unwrap();
    assert_eq!(info.builddate, i32::MIN);
    assert_eq!(info.size, i32::MAX);
    let err = PkgInfo::parse_text("size = 2147483648\n").unwrap_err();
    assert!(matches!(err, AetherError::InvalidValue { .. }));
    let info2 = PkgInfo::parse_text("size = +7\n").unwrap();
    assert_eq!(info2.size, 7);
}

#[test]
fn pkginfo_scalar_last_write_wins() {
    let info = PkgInfo::parse_text("pkgname = a\npkgname = b\n").unwrap();
    assert_eq!(info.pkgname, "b");
}

#[test]
fn pkginfo_value_stops_at_second_delimiter() {
    let info = PkgInfo::parse_text("pkgdesc = a = b\n").unwrap();
    assert_eq!(info.pkgdesc, "a");
}

#[test]
fn pkginfo_invalid_utf8_fails() {
    let err = PkgInfo::parse(&[0xff, 0xfe, 0x20]).unwrap_err();
    assert_eq!(err, AetherError::Utf8Error);
}

#[test]
fn pkginfo_crlf_lines() {
    let info = PkgInfo::parse_text("pkgname = foo\r\npkgver = 1\r\n").unwrap();
    assert_eq!(info.pkgname, "foo");
    assert_eq!(info.pkgver, "1");
}

#[test]
fn pkginfo_round_trip() {
    let text = "pkgname = foo\npkgbase = base\npkgver = 1.0-1\npkgdesc = a demo\n\
                url = https://example.org\nbuilddate = -3\npackager = me <me@example.org>\n\
                size = 12345\narch = x86_64\narch = any\nlicense = MIT\nconflict = bar\n\
                provides = baz\ndepend = qux\noptdepend = opt: extra\nmakedepend = make\n\
                checkdepend = check\nbackup = etc/foo.conf\ngroup = tools\n";
    let once = PkgInfo::parse_text(text).unwrap();
    let regenerated = once.to_text();
    let twice = PkgInfo::parse_text(regenerated.as_str()).unwrap();
    assert_eq!(once, twice);
}

#[test]
fn pkginfo_render_exact() {
    let mut info = PkgInfo::new();
    info.pkgname = "foo".to_string();
    info.size = -42;
    info.arch.push("any".to_string());
    let expected = "pkgname = foo\npkgbase = \npkgver = \npkgdesc = \nurl = \n\
                    builddate = 0\npackager = \nsize = -42\nlicense = \narch = any\n";
    assert_eq!(info.to_text(), expected);
}

#[test]
fn pkginfo_new_is_default() {
    let a = PkgInfo::new();
    let b = PkgInfo::default();
    assert_eq!(a, b);
    assert_eq!(a.pkgname, "");
    assert_eq!(a.arch.len(), 0);
}

#[test]
fn buildinfo_example_fields() {
    let text = "format = 2\npkgname = foo\npkgver = 1.0-1\npkgarch = any\n\
                buildenv = color\noptions = strip\ninstalled = bar-2.0-1\n";
    let info = BuildInfo::parse_text(text).unwrap();
    assert_eq!(info.format, 2);
    assert_eq!(info.pkgname, "foo");
    assert_eq!(info.pkgarch, vec!["any".to_string()]);
    assert_eq!(info.buildenv, vec!["color".to_string()]);
    assert_eq!(info.options, vec!["strip".to_string()]);
    assert_eq!(info.installed, vec!["bar-2.0-1".to_string()]);
}

#[test]
fn buildinfo_has_no_comments() {
    let err = BuildInfo::parse_text("#note = x\n").unwrap_err();
    assert_eq!(
        err,
        AetherError::InfoKeyError { kind: "BuildInfo".to_string(), key: "#note".to_string() }
    );
    let err2 = BuildInfo::parse_text("#justtext\n").unwrap_err();
    assert_eq!(
        err2,
        AetherError::InfoParseError { field: "value".to_string(), line: "#justtext".to_string() }
    );
}

#[test]
fn buildinfo_bad_number_fails() {
    let err = BuildInfo::parse_text("format = x1\n").unwrap_err();
    assert_eq!(err, AetherError::InvalidValue { key: "format".to_string(), value: "x1".to_string() });
}

#[test]
fn buildinfo_invalid_utf8_fails() {
    let err = BuildInfo::parse(&[0xc0, 0x80]).unwrap_err();
    assert_eq!(err, AetherError::Utf8Error);
}

#[test]
fn buildinfo_round_trip() {
    let text = "format = 2\npkgname = foo\npkgbase = base\npkgver = 1.0-1\n\
                pkgbuild_sha256sum = aa\npkgbuild_md5sum = bb\npkgbuild_sha1sum = cc\n\
                packager = me\nbuilddate = 1700000000\nbuilddir = /build\nstartdir = /start\n\
                buildtool = devtools\nbuildtoolver = 1:1.0\npkgarch = any\nbuildenv = color\n\
                options = strip\ninstalled = bar-2.0-1\n";
    let once = BuildInfo::parse_text(text).unwrap();
    let twice = BuildInfo::parse_text(once.to_text().as_str()).unwrap();
    assert_eq!(once, twice);
}

#[test]
fn buildinfo_new_is_default() {
    let a = BuildInfo::new();
    let b = BuildInfo::default();
    assert_eq!(a, b);
    assert_eq!(a.format, 0);
}
