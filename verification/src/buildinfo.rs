//! The `.BUILDINFO` metadata record: one `key = value` pair per line,
//! no comment convention, unknown keys fatal, scalar keys last-write-wins,
//! multi-valued keys appended in file order.

use vstd::prelude::*;

use crate::error::AetherError;
use crate::error::ErrView;
use crate::text::clean_core;
use crate::text::clean_key;
use crate::text::core_values;
use crate::text::cr_free_values;
use crate::text::lemma_core_values_push;
use crate::text::lemma_lines_no_newline;
use crate::text::lemma_split_kv_value_clean;
use crate::text::clean_value;
use crate::text::clean_values;
use crate::text::i32_dec_str;
use crate::text::lemma_i32_str_clean;
use crate::text::lemma_parse_render_i32;
use crate::text::lemma_render_kv_lines;
use crate::text::lines_of;
use crate::text::parse_i32;
use crate::text::parse_i32_chars;
use crate::text::push_kv;
use crate::text::push_list;
use crate::text::render_i32;
use crate::text::render_kv;
use crate::text::render_list;
use crate::text::split_kv;
use crate::text::split_kv_line;
use crate::text::split_lines;
use crate::text::str_eq;
use crate::text::utf8_to_string;
use vstd::utf8::decode_utf8;
use vstd::utf8::valid_utf8;

verus! {

/// Spec-level image of a [`BuildInfo`] record.
pub struct BuildInfoView {
    pub format: int,
    pub pkgname: Seq<char>,
    pub pkgbase: Seq<char>,
    pub pkgver: Seq<char>,
    pub pkgarch: Seq<Seq<char>>,
    pub pkgbuild_sha256sum: Seq<char>,
    pub pkgbuild_md5sum: Seq<char>,
    pub pkgbuild_sha1sum: Seq<char>,
    pub packager: Seq<char>,
    pub builddate: int,
    pub builddir: Seq<char>,
    pub startdir: Seq<char>,
    pub buildtool: Seq<char>,
    pub buildtoolver: Seq<char>,
    pub buildenv: Seq<Seq<char>>,
    pub options: Seq<Seq<char>>,
    pub installed: Seq<Seq<char>>,
}

/// Data parsed from a `.BUILDINFO` file.
#[derive(Clone, Debug, PartialEq, Eq)]
pub struct BuildInfo {
    pub format: i32,
    pub pkgname: String,
    pub pkgbase: String,
    pub pkgver: String,
    pub pkgarch: Vec<String>,
    pub pkgbuild_sha256sum: String,
    pub pkgbuild_md5sum: String,
    pub pkgbuild_sha1sum: String,
    pub packager: String,
    pub builddate: i32,
    pub builddir: String,
    pub startdir: String,
    pub buildtool: String,
    pub buildtoolver: String,
    pub buildenv: Vec<String>,
    pub options: Vec<String>,
    pub installed: Vec<String>,
}

impl View for BuildInfo {
    type V = BuildInfoView;

    open spec fn view(&self) -> BuildInfoView {
        BuildInfoView {
            format: self.format as int,
            pkgname: self.pkgname@,
            pkgbase: self.pkgbase@,
            pkgver: self.pkgver@,
            pkgarch: self.pkgarch.deep_view(),
            pkgbuild_sha256sum: self.pkgbuild_sha256sum@,
            pkgbuild_md5sum: self.pkgbuild_md5sum@,
            pkgbuild_sha1sum: self.pkgbuild_sha1sum@,
            packager: self.packager@,
            builddate: self.builddate as int,
            builddir: self.builddir@,
            startdir: self.startdir@,
            buildtool: self.buildtool@,
            buildtoolver: self.buildtoolver@,
            buildenv: self.buildenv.deep_view(),
            options: self.options.deep_view(),
            installed: self.installed.deep_view(),
        }
    }
}

/// The record every parse starts from: empty strings and lists, zeroes.
pub open spec fn init_buildinfo() -> BuildInfoView {
    BuildInfoView {
        format: 0,
        pkgname: Seq::empty(),
        pkgbase: Seq::empty(),
        pkgver: Seq::empty(),
        pkgarch: Seq::empty(),
        pkgbuild_sha256sum: Seq::empty(),
        pkgbuild_md5sum: Seq::empty(),
        pkgbuild_sha1sum: Seq::empty(),
        packager: Seq::empty(),
        builddate: 0,
        builddir: Seq::empty(),
        startdir: Seq::empty(),
        buildtool: Seq::empty(),
        buildtoolver: Seq::empty(),
        buildenv: Seq::empty(),
        options: Seq::empty(),
        installed: Seq::empty(),
    }
}

/// Effect of one recognized-or-rejected key/value pair on a record.
pub open spec fn buildinfo_key_step(r: BuildInfoView, k: Seq<char>, v: Seq<char>) -> Result<
    BuildInfoView,
    ErrView,
> {
    if k == "format"@ {
        match parse_i32_chars(v) {
            Some(n) => Ok(BuildInfoView { format: n as int, ..r }),
            None => Err(ErrView::InvalidValue { key: k, value: v }),
        }
    } else if k == "pkgname"@ {
        Ok(BuildInfoView { pkgname: v, ..r })
    } else if k == "pkgbase"@ {
        Ok(BuildInfoView { pkgbase: v, ..r })
    } else if k == "pkgver"@ {
        Ok(BuildInfoView { pkgver: v, ..r })
    } else if k == "pkgarch"@ {
        Ok(BuildInfoView { pkgarch: r.pkgarch.push(v), ..r })
    } else if k == "pkgbuild_sha256sum"@ {
        Ok(BuildInfoView { pkgbuild_sha256sum: v, ..r })
    } else if k == "pkgbuild_md5sum"@ {
        Ok(BuildInfoView { pkgbuild_md5sum: v, ..r })
    } else if k == "pkgbuild_sha1sum"@ {
        Ok(BuildInfoView { pkgbuild_sha1sum: v, ..r })
    } else if k == "packager"@ {
        Ok(BuildInfoView { packager: v, ..r })
    } else if k == "builddate"@ {
        match parse_i32_chars(v) {
            Some(n) => Ok(BuildInfoView { builddate: n as int, ..r }),
            None => Err(ErrView::InvalidValue { key: k, value: v }),
        }
    } else if k == "builddir"@ {
        Ok(BuildInfoView { builddir: v, ..r })
    } else if k == "startdir"@ {
        Ok(BuildInfoView { startdir: v, ..r })
    } else if k == "buildtool"@ {
        Ok(BuildInfoView { buildtool: v, ..r })
    } else if k == "buildtoolver"@ {
        Ok(BuildInfoView { buildtoolver: v, ..r })
    } else if k == "buildenv"@ {
        Ok(BuildInfoView { buildenv: r.buildenv.push(v), ..r })
    } else if k == "options"@ {
        Ok(BuildInfoView { options: r.options.push(v), ..r })
    } else if k == "installed"@ {
        Ok(BuildInfoView { installed: r.installed.push(v), ..r })
    } else {
        Err(ErrView::InfoKeyError { kind: "BuildInfo"@, key: k })
    }
}

/// Effect of one line on a record: empty lines are skipped, there is no
/// comment convention, a line without `" = "` is a parse error.
pub open spec fn buildinfo_step(r: BuildInfoView, line: Seq<char>) -> Result<BuildInfoView, ErrView> {
    if line.len() == 0 {
        Ok(r)
    } else {
        match split_kv(line) {
            None => Err(ErrView::InfoParseError { field: "value"@, line: line }),
            Some(kv) => buildinfo_key_step(r, kv.0, kv.1),
        }
    }
}

/// Fold [`buildinfo_step`] over `lines[i..]`, stopping at the first error.
pub open spec fn buildinfo_fold(r: BuildInfoView, lines: Seq<Seq<char>>, i: int) -> Result<
    BuildInfoView,
    ErrView,
>
    decreases lines.len() - i,
{
    if i < 0 || i >= lines.len() {
        Ok(r)
    } else {
        match buildinfo_step(r, lines[i]) {
            Ok(r2) => buildinfo_fold(r2, lines, i + 1),
            Err(e) => Err(e),
        }
    }
}

/// What parsing `.BUILDINFO` text returns.
pub open spec fn parse_buildinfo_text(s: Seq<char>) -> Result<BuildInfoView, ErrView> {
    buildinfo_fold(init_buildinfo(), lines_of(s), 0)
}

/// What parsing `.BUILDINFO` file bytes returns: an encoding error on
/// invalid UTF-8, else the parse of the decoded text.
pub open spec fn parse_buildinfo_bytes(bytes: Seq<u8>) -> Result<BuildInfoView, ErrView> {
    if valid_utf8(bytes) {
        parse_buildinfo_text(decode_utf8(bytes))
    } else {
        Err(ErrView::Utf8Error)
    }
}

/// View of an exec parse result.
pub open spec fn buildinfo_res(r: Result<BuildInfo, AetherError>) -> Result<BuildInfoView, ErrView> {
    match r {
        Ok(p) => Ok(p@),
        Err(e) => Err(e@),
    }
}

/// Apply one key/value pair to the record under construction.
fn apply_kv(info: &mut BuildInfo, key: String, value: String) -> (r: Result<(), AetherError>)
    ensures
        r is Ok ==> (buildinfo_key_step(old(info)@, key@, value@) matches Ok(v) && final(info)@
            == v),
        r matches Err(e) ==> (buildinfo_key_step(old(info)@, key@, value@) matches Err(ev) && e@
            == ev && final(info)@ == old(info)@),
{
    let ghost vv = value@;
    if str_eq(key.as_str(), "format") {
        match parse_i32(value.as_str()) {
            Some(n) => {
                info.format = n;
            },
            None => {
                return Err(AetherError::InvalidValue { key, value });
            },
        }
    } else if str_eq(key.as_str(), "pkgname") {
        info.pkgname = value;
    } else if str_eq(key.as_str(), "pkgbase") {
        info.pkgbase = value;
    } else if str_eq(key.as_str(), "pkgver") {
        info.pkgver = value;
    } else if str_eq(key.as_str(), "pkgarch") {
        let ghost before = info.pkgarch.deep_view();
        info.pkgarch.push(value);
        proof {
            assert(info.pkgarch.deep_view() =~= before.push(vv));
        }
    } else if str_eq(key.as_str(), "pkgbuild_sha256sum") {
        info.pkgbuild_sha256sum = value;
    } else if str_eq(key.as_str(), "pkgbuild_md5sum") {
        info.pkgbuild_md5sum = value;
    } else if str_eq(key.as_str(), "pkgbuild_sha1sum") {
        info.pkgbuild_sha1sum = value;
    } else if str_eq(key.as_str(), "packager") {
        info.packager = value;
    } else if str_eq(key.as_str(), "builddate") {
        match parse_i32(value.as_str()) {
            Some(n) => {
                info.builddate = n;
            },
            None => {
                return Err(AetherError::InvalidValue { key, value });
            },
        }
    } else if str_eq(key.as_str(), "builddir") {
        info.builddir = value;
    } else if str_eq(key.as_str(), "startdir") {
        info.startdir = value;
    } else if str_eq(key.as_str(), "buildtool") {
        info.buildtool = value;
    } else if str_eq(key.as_str(), "buildtoolver") {
        info.buildtoolver = value;
    } else if str_eq(key.as_str(), "buildenv") {
        let ghost before = info.buildenv.deep_view();
        info.buildenv.push(value);
        proof {
            assert(info.buildenv.deep_view() =~= before.push(vv));
        }
    } else if str_eq(key.as_str(), "options") {
        let ghost before = info.options.deep_view();
        info.options.push(value);
        proof {
            assert(info.options.deep_view() =~= before.push(vv));
        }
    } else if str_eq(key.as_str(), "installed") {
        let ghost before = info.installed.deep_view();
        info.installed.push(value);
        proof {
            assert(info.installed.deep_view() =~= before.push(vv));
        }
    } else {
        return Err(AetherError::InfoKeyError { kind: "BuildInfo".to_owned(), key });
    }
    Ok(())
}

impl BuildInfo {
    /// An initialized, all-empty record.
    pub fn new() -> (r: BuildInfo)
        ensures
            r@ == init_buildinfo(),
    {
        let r = BuildInfo {
            format: 0,
            pkgname: String::new(),
            pkgbase: String::new(),
            pkgver: String::new(),
            pkgarch: Vec::new(),
            pkgbuild_sha256sum: String::new(),
            pkgbuild_md5sum: String::new(),
            pkgbuild_sha1sum: String::new(),
            packager: String::new(),
            builddate: 0,
            builddir: String::new(),
            startdir: String::new(),
            buildtool: String::new(),
            buildtoolver: String::new(),
            buildenv: Vec::new(),
            options: Vec::new(),
            installed: Vec::new(),
        };
        proof {
            assert(r.pkgarch.deep_view() =~= Seq::<Seq<char>>::empty());
            assert(r.buildenv.deep_view() =~= Seq::<Seq<char>>::empty());
            assert(r.options.deep_view() =~= Seq::<Seq<char>>::empty());
            assert(r.installed.deep_view() =~= Seq::<Seq<char>>::empty());
        }
        r
    }

    /// Parse `.BUILDINFO` text into a record, per [`parse_buildinfo_text`].
    pub fn parse_text(s: &str) -> (r: Result<BuildInfo, AetherError>)
        ensures
            buildinfo_res(r) == parse_buildinfo_text(s@),
    {
        let lines = split_lines(s);
        let ghost lv = lines.deep_view();
        let mut info = BuildInfo::new();
        let n = lines.len();
        let mut i: usize = 0;
        while i < n
            invariant
                n == lines.len(),
                i <= n,
                lv == lines.deep_view(),
                lv == lines_of(s@),
                buildinfo_fold(init_buildinfo(), lv, 0) == buildinfo_fold(info@, lv, i as int),
            decreases n - i,
        {
            let line: &String = &lines[i];
            proof {
                assert(lv[i as int] == line@);
            }
            let ghost lseq = line@;
            let ghost before = info@;
            let ls: &str = line.as_str();
            if ls.unicode_len() == 0 {
            } else {
                match split_kv_line(ls) {
                    None => {
                        let e = AetherError::InfoParseError {
                            field: "value".to_owned(),
                            line: line.clone(),
                        };
                        proof {
                            assert(buildinfo_step(before, lseq) == Err::<BuildInfoView, ErrView>(
                                e@,
                            ));
                        }
                        return Err(e);
                    },
                    Some((key, value)) => {
                        match apply_kv(&mut info, key, value) {
                            Ok(()) => {
                                proof {
                                    assert(buildinfo_step(before, lseq) == Ok::<
                                        BuildInfoView,
                                        ErrView,
                                    >(info@));
                                }
                            },
                            Err(e) => {
                                proof {
                                    assert(buildinfo_step(before, lseq) == Err::<
                                        BuildInfoView,
                                        ErrView,
                                    >(e@));
                                }
                                return Err(e);
                            },
                        }
                    },
                }
            }
            i = i + 1;
        }
        Ok(info)
    }

    /// Parse `.BUILDINFO` file bytes, per [`parse_buildinfo_bytes`].
    pub fn parse(bytes: &[u8]) -> (r: Result<BuildInfo, AetherError>)
        ensures
            buildinfo_res(r) == parse_buildinfo_bytes(bytes@),
    {
        match utf8_to_string(bytes) {
            None => Err(AetherError::Utf8Error),
            Some(text) => BuildInfo::parse_text(text.as_str()),
        }
    }
}

impl Default for BuildInfo {
    fn default() -> (r: BuildInfo)
        ensures
            r@ == init_buildinfo(),
    {
        BuildInfo::new()
    }
}

/// The rendered lines of the thirteen scalar fields.
pub open spec fn buildinfo_scalar_text(b: BuildInfoView) -> Seq<char> {
    render_kv("format"@, i32_dec_str(b.format)) + render_kv("pkgname"@, b.pkgname) + render_kv(
        "pkgbase"@,
        b.pkgbase,
    ) + render_kv("pkgver"@, b.pkgver) + render_kv("pkgbuild_sha256sum"@, b.pkgbuild_sha256sum)
        + render_kv("pkgbuild_md5sum"@, b.pkgbuild_md5sum) + render_kv(
        "pkgbuild_sha1sum"@,
        b.pkgbuild_sha1sum,
    ) + render_kv("packager"@, b.packager) + render_kv("builddate"@, i32_dec_str(b.builddate))
        + render_kv("builddir"@, b.builddir) + render_kv("startdir"@, b.startdir) + render_kv(
        "buildtool"@,
        b.buildtool,
    ) + render_kv("buildtoolver"@, b.buildtoolver)
}

/// The rendered lines of the four multi-valued fields.
pub open spec fn buildinfo_list_text(b: BuildInfoView) -> Seq<char> {
    render_list("pkgarch"@, b.pkgarch, 0) + render_list("buildenv"@, b.buildenv, 0) + render_list(
        "options"@,
        b.options,
        0,
    ) + render_list("installed"@, b.installed, 0)
}

/// The canonical text of a record: one line per scalar, one line per
/// member of each multi-valued key, numeric fields in decimal.
pub open spec fn render_buildinfo(b: BuildInfoView) -> Seq<char> {
    buildinfo_scalar_text(b) + buildinfo_list_text(b)
}

impl BuildInfo {
    /// Regenerate the record's metadata text, per [`render_buildinfo`].
    pub fn to_text(&self) -> (r: String)
        ensures
            r@ == render_buildinfo(self@),
    {
        let mut out = String::new();
        let fm = render_i32(self.format);
        push_kv(&mut out, "format", fm.as_str());
        push_kv(&mut out, "pkgname", self.pkgname.as_str());
        push_kv(&mut out, "pkgbase", self.pkgbase.as_str());
        push_kv(&mut out, "pkgver", self.pkgver.as_str());
        push_kv(&mut out, "pkgbuild_sha256sum", self.pkgbuild_sha256sum.as_str());
        push_kv(&mut out, "pkgbuild_md5sum", self.pkgbuild_md5sum.as_str());
        push_kv(&mut out, "pkgbuild_sha1sum", self.pkgbuild_sha1sum.as_str());
        push_kv(&mut out, "packager", self.packager.as_str());
        let bd = render_i32(self.builddate);
        push_kv(&mut out, "builddate", bd.as_str());
        push_kv(&mut out, "builddir", self.builddir.as_str());
        push_kv(&mut out, "startdir", self.startdir.as_str());
        push_kv(&mut out, "buildtool", self.buildtool.as_str());
        push_kv(&mut out, "buildtoolver", self.buildtoolver.as_str());
        push_list(&mut out, "pkgarch", &self.pkgarch);
        push_list(&mut out, "buildenv", &self.buildenv);
        push_list(&mut out, "options", &self.options);
        push_list(&mut out, "installed", &self.installed);
        proof {
            assert(out@ =~= render_buildinfo(self@));
        }
        out
    }
}

/// What one recognized key does to a record, for each fixed key; and
/// that each key is fit for rendering.
proof fn lemma_buildinfo_key_steps()
    ensures
        clean_key("format"@),
        clean_key("pkgname"@),
        clean_key("pkgbase"@),
        clean_key("pkgver"@),
        clean_key("pkgarch"@),
        clean_key("pkgbuild_sha256sum"@),
        clean_key("pkgbuild_md5sum"@),
        clean_key("pkgbuild_sha1sum"@),
        clean_key("packager"@),
        clean_key("builddate"@),
        clean_key("builddir"@),
        clean_key("startdir"@),
        clean_key("buildtool"@),
        clean_key("buildtoolver"@),
        clean_key("buildenv"@),
        clean_key("options"@),
        clean_key("installed"@),
        forall|r: BuildInfoView, v: Seq<char>| #[trigger] buildinfo_key_step(r, "pkgname"@, v)
            == Ok::<BuildInfoView, ErrView>((BuildInfoView { pkgname: v, ..r })),
        forall|r: BuildInfoView, v: Seq<char>| #[trigger] buildinfo_key_step(r, "pkgbase"@, v)
            == Ok::<BuildInfoView, ErrView>((BuildInfoView { pkgbase: v, ..r })),
        forall|r: BuildInfoView, v: Seq<char>| #[trigger] buildinfo_key_step(r, "pkgver"@, v)
            == Ok::<BuildInfoView, ErrView>((BuildInfoView { pkgver: v, ..r })),
        forall|r: BuildInfoView, v: Seq<char>| #[trigger] buildinfo_key_step(r, "pkgbuild_sha256sum"@, v)
            == Ok::<BuildInfoView, ErrView>((BuildInfoView { pkgbuild_sha256sum: v, ..r })),
        forall|r: BuildInfoView, v: Seq<char>| #[trigger] buildinfo_key_step(r, "pkgbuild_md5sum"@, v)
            == Ok::<BuildInfoView, ErrView>((BuildInfoView { pkgbuild_md5sum: v, ..r })),
        forall|r: BuildInfoView, v: Seq<char>| #[trigger] buildinfo_key_step(r, "pkgbuild_sha1sum"@, v)
            == Ok::<BuildInfoView, ErrView>((BuildInfoView { pkgbuild_sha1sum: v, ..r })),
        forall|r: BuildInfoView, v: Seq<char>| #[trigger] buildinfo_key_step(r, "packager"@, v)
            == Ok::<BuildInfoView, ErrView>((BuildInfoView { packager: v, ..r })),
        forall|r: BuildInfoView, v: Seq<char>| #[trigger] buildinfo_key_step(r, "builddir"@, v)
            == Ok::<BuildInfoView, ErrView>((BuildInfoView { builddir: v, ..r })),
        forall|r: BuildInfoView, v: Seq<char>| #[trigger] buildinfo_key_step(r, "startdir"@, v)
            == Ok::<BuildInfoView, ErrView>((BuildInfoView { startdir: v, ..r })),
        forall|r: BuildInfoView, v: Seq<char>| #[trigger] buildinfo_key_step(r, "buildtool"@, v)
            == Ok::<BuildInfoView, ErrView>((BuildInfoView { buildtool: v, ..r })),
        forall|r: BuildInfoView, v: Seq<char>| #[trigger] buildinfo_key_step(r, "buildtoolver"@, v)
            == Ok::<BuildInfoView, ErrView>((BuildInfoView { buildtoolver: v, ..r })),
        forall|r: BuildInfoView, v: Seq<char>|
            parse_i32_chars(v) is Some ==> #[trigger] buildinfo_key_step(r, "format"@, v) == Ok::<
                BuildInfoView,
                ErrView,
            >((BuildInfoView { format: parse_i32_chars(v)->Some_0 as int, ..r })),
        forall|r: BuildInfoView, v: Seq<char>|
            parse_i32_chars(v) is Some ==> #[trigger] buildinfo_key_step(r, "builddate"@, v) == Ok::<
                BuildInfoView,
                ErrView,
            >((BuildInfoView { builddate: parse_i32_chars(v)->Some_0 as int, ..r })),
        forall|r: BuildInfoView, v: Seq<char>| #[trigger] buildinfo_key_step(r, "pkgarch"@, v)
            == Ok::<BuildInfoView, ErrView>((BuildInfoView { pkgarch: r.pkgarch.push(v), ..r })),
        forall|r: BuildInfoView, v: Seq<char>| #[trigger] buildinfo_key_step(r, "buildenv"@, v)
            == Ok::<BuildInfoView, ErrView>((BuildInfoView { buildenv: r.buildenv.push(v), ..r })),
        forall|r: BuildInfoView, v: Seq<char>| #[trigger] buildinfo_key_step(r, "options"@, v)
            == Ok::<BuildInfoView, ErrView>((BuildInfoView { options: r.options.push(v), ..r })),
        forall|r: BuildInfoView, v: Seq<char>| #[trigger] buildinfo_key_step(r, "installed"@, v)
            == Ok::<BuildInfoView, ErrView>((BuildInfoView { installed: r.installed.push(v), ..r })),
{
    reveal_strlit("format");
    reveal_strlit("pkgname");
    reveal_strlit("pkgbase");
    reveal_strlit("pkgver");
    reveal_strlit("pkgarch");
    reveal_strlit("pkgbuild_sha256sum");
    reveal_strlit("pkgbuild_md5sum");
    reveal_strlit("pkgbuild_sha1sum");
    reveal_strlit("packager");
    reveal_strlit("builddate");
    reveal_strlit("builddir");
    reveal_strlit("startdir");
    reveal_strlit("buildtool");
    reveal_strlit("buildtoolver");
    reveal_strlit("buildenv");
    reveal_strlit("options");
    reveal_strlit("installed");
    assert("format"@[0] == 'f' && "pkgver"@[0] == 'p');
    assert("format"@ != "pkgver"@);
    assert("pkgname"@[3] == 'n' && "pkgbase"@[3] == 'b' && "pkgarch"@[3] == 'a');
    assert("options"@[0] == 'o' && "pkgname"@[0] == 'p');
    assert("pkgname"@ != "pkgbase"@ && "pkgname"@ != "pkgarch"@ && "pkgbase"@ != "pkgarch"@);
    assert("options"@ != "pkgname"@ && "options"@ != "pkgbase"@ && "options"@ != "pkgarch"@);
    assert("packager"@[0] == 'p' && "builddir"@[0] == 'b' && "startdir"@[0] == 's' && "buildenv"@[0]
        == 'b');
    assert("builddir"@[5] == 'd' && "buildenv"@[5] == 'e');
    assert("packager"@ != "builddir"@ && "packager"@ != "startdir"@ && "packager"@ != "buildenv"@);
    assert("builddir"@ != "startdir"@ && "builddir"@ != "buildenv"@ && "startdir"@ != "buildenv"@);
    assert("builddate"@[5] == 'd' && "buildtool"@[5] == 't' && "installed"@[0] == 'i');
    assert("builddate"@ != "buildtool"@ && "builddate"@ != "installed"@ && "buildtool"@
        != "installed"@);
}

/// Folding from past the end of a prefix is folding the suffix.
proof fn lemma_bfold_shift(r: BuildInfoView, a: Seq<Seq<char>>, b: Seq<Seq<char>>, j: int)
    requires
        0 <= j <= b.len(),
    ensures
        buildinfo_fold(r, a + b, a.len() + j) == buildinfo_fold(r, b, j),
    decreases b.len() - j,
{
    if j == b.len() {
    } else {
        assert((a + b)[a.len() + j] == b[j]);
        match buildinfo_step(r, b[j]) {
            Ok(r2) => {
                lemma_bfold_shift(r2, a, b, j + 1);
            },
            Err(_) => {},
        }
    }
}

/// Folding one line, then the rest.
proof fn lemma_bfold_cons(r: BuildInfoView, line: Seq<char>, rest: Seq<Seq<char>>)
    ensures
        buildinfo_fold(r, seq![line] + rest, 0) == (match buildinfo_step(r, line) {
            Ok(r2) => buildinfo_fold(r2, rest, 0),
            Err(e) => Err(e),
        }),
{
    assert((seq![line] + rest)[0] == line);
    match buildinfo_step(r, line) {
        Ok(r2) => {
            lemma_bfold_shift(r2, seq![line], rest, 0);
        },
        Err(_) => {},
    }
}

/// One clean rendered line advances the fold by exactly its key's step.
proof fn lemma_bscalar_line(
    r: BuildInfoView,
    k: Seq<char>,
    v: Seq<char>,
    rest: Seq<char>,
    r2: BuildInfoView,
)
    requires
        clean_key(k),
        clean_value(v),
        buildinfo_key_step(r, k, v) == Ok::<BuildInfoView, ErrView>(r2),
    ensures
        buildinfo_fold(r, lines_of(render_kv(k, v) + rest), 0) == buildinfo_fold(
            r2,
            lines_of(rest),
            0,
        ),
{
    lemma_render_kv_lines(k, v, rest);
    let line = k + seq![' ', '=', ' '] + v;
    assert(line[0] == k[0]);
    assert(buildinfo_step(r, line) == Ok::<BuildInfoView, ErrView>(r2));
    lemma_bfold_cons(r, line, lines_of(rest));
}

/// The record after applying `upd` with each of `vs[j..]` in turn.
spec fn blist_upd(
    upd: spec_fn(BuildInfoView, Seq<char>) -> BuildInfoView,
    r: BuildInfoView,
    vs: Seq<Seq<char>>,
    j: int,
) -> BuildInfoView
    decreases vs.len() - j,
{
    if j < 0 || j >= vs.len() {
        r
    } else {
        blist_upd(upd, upd(r, vs[j]), vs, j + 1)
    }
}

/// The rendered lines of one multi-valued key advance the fold by one
/// update per member.
proof fn lemma_bfold_list_generic(
    k: Seq<char>,
    upd: spec_fn(BuildInfoView, Seq<char>) -> BuildInfoView,
    r: BuildInfoView,
    vs: Seq<Seq<char>>,
    j: int,
    rest: Seq<char>,
)
    requires
        0 <= j <= vs.len(),
        clean_values(vs),
        clean_key(k),
        forall|a: BuildInfoView, v: Seq<char>| #[trigger] buildinfo_key_step(a, k, v) == Ok::<
            BuildInfoView,
            ErrView,
        >(upd(a, v)),
    ensures
        buildinfo_fold(r, lines_of(render_list(k, vs, j) + rest), 0) == buildinfo_fold(
            blist_upd(upd, r, vs, j),
            lines_of(rest),
            0,
        ),
    decreases vs.len() - j,
{
    if j == vs.len() {
        assert(render_list(k, vs, j) + rest =~= rest);
    } else {
        let r2 = upd(r, vs[j]);
        assert(render_list(k, vs, j) + rest =~= render_kv(k, vs[j]) + (render_list(k, vs, j + 1)
            + rest));
        lemma_bscalar_line(r, k, vs[j], render_list(k, vs, j + 1) + rest, r2);
        lemma_bfold_list_generic(k, upd, r2, vs, j + 1, rest);
    }
}

/// Iterated updates of the `pkgarch` list append its members.
proof fn lemma_blist_upd_pkgarch(
    upd: spec_fn(BuildInfoView, Seq<char>) -> BuildInfoView,
    r: BuildInfoView,
    vs: Seq<Seq<char>>,
    j: int,
)
    requires
        0 <= j <= vs.len(),
        forall|a: BuildInfoView, v: Seq<char>| #[trigger] upd(a, v) == (BuildInfoView {
            pkgarch: a.pkgarch.push(v),
            ..a
        }),
    ensures
        blist_upd(upd, r, vs, j) == (BuildInfoView { pkgarch: r.pkgarch + vs.skip(j), ..r }),
    decreases vs.len() - j,
{
    if j == vs.len() {
        assert(r.pkgarch + vs.skip(j) =~= r.pkgarch);
        assert((BuildInfoView { pkgarch: r.pkgarch + vs.skip(j), ..r }) == r);
    } else {
        lemma_blist_upd_pkgarch(upd, upd(r, vs[j]), vs, j + 1);
        assert(upd(r, vs[j]).pkgarch + vs.skip(j + 1) =~= r.pkgarch + vs.skip(j));
        assert(blist_upd(upd, r, vs, j) == (BuildInfoView { pkgarch: r.pkgarch + vs.skip(j), ..r }));
    }
}

/// Iterated updates of the `buildenv` list append its members.
proof fn lemma_blist_upd_buildenv(
    upd: spec_fn(BuildInfoView, Seq<char>) -> BuildInfoView,
    r: BuildInfoView,
    vs: Seq<Seq<char>>,
    j: int,
)
    requires
        0 <= j <= vs.len(),
        forall|a: BuildInfoView, v: Seq<char>| #[trigger] upd(a, v) == (BuildInfoView {
            buildenv: a.buildenv.push(v),
            ..a
        }),
    ensures
        blist_upd(upd, r, vs, j) == (BuildInfoView { buildenv: r.buildenv + vs.skip(j), ..r }),
    decreases vs.len() - j,
{
    if j == vs.len() {
        assert(r.buildenv + vs.skip(j) =~= r.buildenv);
        assert((BuildInfoView { buildenv: r.buildenv + vs.skip(j), ..r }) == r);
    } else {
        lemma_blist_upd_buildenv(upd, upd(r, vs[j]), vs, j + 1);
        assert(upd(r, vs[j]).buildenv + vs.skip(j + 1) =~= r.buildenv + vs.skip(j));
        assert(blist_upd(upd, r, vs, j) == (BuildInfoView { buildenv: r.buildenv + vs.skip(j), ..r }));
    }
}

/// Iterated updates of the `options` list append its members.
proof fn lemma_blist_upd_options(
    upd: spec_fn(BuildInfoView, Seq<char>) -> BuildInfoView,
    r: BuildInfoView,
    vs: Seq<Seq<char>>,
    j: int,
)
    requires
        0 <= j <= vs.len(),
        forall|a: BuildInfoView, v: Seq<char>| #[trigger] upd(a, v) == (BuildInfoView {
            options: a.options.push(v),
            ..a
        }),
    ensures
        blist_upd(upd, r, vs, j) == (BuildInfoView { options: r.options + vs.skip(j), ..r }),
    decreases vs.len() - j,
{
    if j == vs.len() {
        assert(r.options + vs.skip(j) =~= r.options);
        assert((BuildInfoView { options: r.options + vs.skip(j), ..r }) == r);
    } else {
        lemma_blist_upd_options(upd, upd(r, vs[j]), vs, j + 1);
        assert(upd(r, vs[j]).options + vs.skip(j + 1) =~= r.options + vs.skip(j));
        assert(blist_upd(upd, r, vs, j) == (BuildInfoView { options: r.options + vs.skip(j), ..r }));
    }
}

/// Iterated updates of the `installed` list append its members.
proof fn lemma_blist_upd_installed(
    upd: spec_fn(BuildInfoView, Seq<char>) -> BuildInfoView,
    r: BuildInfoView,
    vs: Seq<Seq<char>>,
    j: int,
)
    requires
        0 <= j <= vs.len(),
        forall|a: BuildInfoView, v: Seq<char>| #[trigger] upd(a, v) == (BuildInfoView {
            installed: a.installed.push(v),
            ..a
        }),
    ensures
        blist_upd(upd, r, vs, j) == (BuildInfoView { installed: r.installed + vs.skip(j), ..r }),
    decreases vs.len() - j,
{
    if j == vs.len() {
        assert(r.installed + vs.skip(j) =~= r.installed);
        assert((BuildInfoView { installed: r.installed + vs.skip(j), ..r }) == r);
    } else {
        lemma_blist_upd_installed(upd, upd(r, vs[j]), vs, j + 1);
        assert(upd(r, vs[j]).installed + vs.skip(j + 1) =~= r.installed + vs.skip(j));
        assert(blist_upd(upd, r, vs, j) == (BuildInfoView { installed: r.installed + vs.skip(j), ..r }));
    }
}

/// A record whose rendered text parses back unchanged: every string
/// value is clean and the numeric fields fit their machine type.
pub open spec fn buildinfo_renderable(b: BuildInfoView) -> bool {
    &&& clean_value(b.pkgname)
    &&& clean_value(b.pkgbase)
    &&& clean_value(b.pkgver)
    &&& clean_value(b.pkgbuild_sha256sum)
    &&& clean_value(b.pkgbuild_md5sum)
    &&& clean_value(b.pkgbuild_sha1sum)
    &&& clean_value(b.packager)
    &&& clean_value(b.builddir)
    &&& clean_value(b.startdir)
    &&& clean_value(b.buildtool)
    &&& clean_value(b.buildtoolver)
    &&& i32::MIN <= b.format <= i32::MAX
    &&& i32::MIN <= b.builddate <= i32::MAX
    &&& clean_values(b.pkgarch)
    &&& clean_values(b.buildenv)
    &&& clean_values(b.options)
    &&& clean_values(b.installed)
}

/// The first four scalar lines parse back into their fields.
#[verifier::rlimit(100)]
proof fn lemma_buildinfo_scalars_a(r: BuildInfoView, b: BuildInfoView, rest: Seq<char>)
    requires
        buildinfo_renderable(b),
    ensures
        buildinfo_fold(
            r,
            lines_of(
                render_kv("format"@, i32_dec_str(b.format)) + render_kv("pkgname"@, b.pkgname)
                    + render_kv("pkgbase"@, b.pkgbase) + render_kv("pkgver"@, b.pkgver) + rest,
            ),
            0,
        ) == buildinfo_fold(
            (BuildInfoView {
                format: b.format,
                pkgname: b.pkgname,
                pkgbase: b.pkgbase,
                pkgver: b.pkgver,
                ..r
            }),
            lines_of(rest),
            0,
        ),
{
    lemma_buildinfo_key_steps();
    lemma_i32_str_clean(b.format);
    lemma_parse_render_i32(b.format);
    let rest3 = rest;
    let rest2 = render_kv("pkgver"@, b.pkgver) + rest3;
    let rest1 = render_kv("pkgbase"@, b.pkgbase) + rest2;
    let rest0 = render_kv("pkgname"@, b.pkgname) + rest1;
    let whole = render_kv("format"@, i32_dec_str(b.format)) + rest0;
    assert(render_kv("format"@, i32_dec_str(b.format)) + render_kv("pkgname"@, b.pkgname)
        + render_kv("pkgbase"@, b.pkgbase) + render_kv("pkgver"@, b.pkgver) + rest =~= whole);
    let r1 = BuildInfoView { format: b.format, ..r };
    let r2 = BuildInfoView { pkgname: b.pkgname, ..r1 };
    let r3 = BuildInfoView { pkgbase: b.pkgbase, ..r2 };
    let r4 = BuildInfoView { pkgver: b.pkgver, ..r3 };
    assert(buildinfo_key_step(r, "format"@, i32_dec_str(b.format)) == Ok::<
        BuildInfoView,
        ErrView,
    >(r1));
    lemma_bscalar_line(r, "format"@, i32_dec_str(b.format), rest0, r1);
    lemma_bscalar_line(r1, "pkgname"@, b.pkgname, rest1, r2);
    lemma_bscalar_line(r2, "pkgbase"@, b.pkgbase, rest2, r3);
    lemma_bscalar_line(r3, "pkgver"@, b.pkgver, rest3, r4);
}

/// The checksum and packager lines parse back into their fields.
#[verifier::rlimit(100)]
proof fn lemma_buildinfo_scalars_b(r: BuildInfoView, b: BuildInfoView, rest: Seq<char>)
    requires
        buildinfo_renderable(b),
    ensures
        buildinfo_fold(
            r,
            lines_of(
                render_kv("pkgbuild_sha256sum"@, b.pkgbuild_sha256sum) + render_kv(
                    "pkgbuild_md5sum"@,
                    b.pkgbuild_md5sum,
                ) + render_kv("pkgbuild_sha1sum"@, b.pkgbuild_sha1sum) + render_kv(
                    "packager"@,
                    b.packager,
                ) + rest,
            ),
            0,
        ) == buildinfo_fold(
            (BuildInfoView {
                pkgbuild_sha256sum: b.pkgbuild_sha256sum,
                pkgbuild_md5sum: b.pkgbuild_md5sum,
                pkgbuild_sha1sum: b.pkgbuild_sha1sum,
                packager: b.packager,
                ..r
            }),
            lines_of(rest),
            0,
        ),
{
    lemma_buildinfo_key_steps();
    let rest3 = rest;
    let rest2 = render_kv("packager"@, b.packager) + rest3;
    let rest1 = render_kv("pkgbuild_sha1sum"@, b.pkgbuild_sha1sum) + rest2;
    let rest0 = render_kv("pkgbuild_md5sum"@, b.pkgbuild_md5sum) + rest1;
    let whole = render_kv("pkgbuild_sha256sum"@, b.pkgbuild_sha256sum) + rest0;
    assert(render_kv("pkgbuild_sha256sum"@, b.pkgbuild_sha256sum) + render_kv(
        "pkgbuild_md5sum"@,
        b.pkgbuild_md5sum,
    ) + render_kv("pkgbuild_sha1sum"@, b.pkgbuild_sha1sum) + render_kv("packager"@, b.packager)
        + rest =~= whole);
    let r1 = BuildInfoView { pkgbuild_sha256sum: b.pkgbuild_sha256sum, ..r };
    let r2 = BuildInfoView { pkgbuild_md5sum: b.pkgbuild_md5sum, ..r1 };
    let r3 = BuildInfoView { pkgbuild_sha1sum: b.pkgbuild_sha1sum, ..r2 };
    let r4 = BuildInfoView { packager: b.packager, ..r3 };
    lemma_bscalar_line(r, "pkgbuild_sha256sum"@, b.pkgbuild_sha256sum, rest0, r1);
    lemma_bscalar_line(r1, "pkgbuild_md5sum"@, b.pkgbuild_md5sum, rest1, r2);
    lemma_bscalar_line(r2, "pkgbuild_sha1sum"@, b.pkgbuild_sha1sum, rest2, r3);
    lemma_bscalar_line(r3, "packager"@, b.packager, rest3, r4);
}

/// The build-provenance lines parse back into their fields.
#[verifier::rlimit(100)]
proof fn lemma_buildinfo_scalars_c(r: BuildInfoView, b: BuildInfoView, rest: Seq<char>)
    requires
        buildinfo_renderable(b),
    ensures
        buildinfo_fold(
            r,
            lines_of(
                render_kv("builddate"@, i32_dec_str(b.builddate)) + render_kv(
                    "builddir"@,
                    b.builddir,
                ) + render_kv("startdir"@, b.startdir) + render_kv("buildtool"@, b.buildtool)
                    + render_kv("buildtoolver"@, b.buildtoolver) + rest,
            ),
            0,
        ) == buildinfo_fold(
            (BuildInfoView {
                builddate: b.builddate,
                builddir: b.builddir,
                startdir: b.startdir,
                buildtool: b.buildtool,
                buildtoolver: b.buildtoolver,
                ..r
            }),
            lines_of(rest),
            0,
        ),
{
    lemma_buildinfo_key_steps();
    lemma_i32_str_clean(b.builddate);
    lemma_parse_render_i32(b.builddate);
    let rest4 = rest;
    let rest3 = render_kv("buildtoolver"@, b.buildtoolver) + rest4;
    let rest2 = render_kv("buildtool"@, b.buildtool) + rest3;
    let rest1 = render_kv("startdir"@, b.startdir) + rest2;
    let rest0 = render_kv("builddir"@, b.builddir) + rest1;
    let whole = render_kv("builddate"@, i32_dec_str(b.builddate)) + rest0;
    assert(render_kv("builddate"@, i32_dec_str(b.builddate)) + render_kv("builddir"@, b.builddir)
        + render_kv("startdir"@, b.startdir) + render_kv("buildtool"@, b.buildtool) + render_kv(
        "buildtoolver"@,
        b.buildtoolver,
    ) + rest =~= whole);
    let r1 = BuildInfoView { builddate: b.builddate, ..r };
    let r2 = BuildInfoView { builddir: b.builddir, ..r1 };
    let r3 = BuildInfoView { startdir: b.startdir, ..r2 };
    let r4 = BuildInfoView { buildtool: b.buildtool, ..r3 };
    let r5 = BuildInfoView { buildtoolver: b.buildtoolver, ..r4 };
    assert(buildinfo_key_step(r, "builddate"@, i32_dec_str(b.builddate)) == Ok::<
        BuildInfoView,
        ErrView,
    >(r1));
    lemma_bscalar_line(r, "builddate"@, i32_dec_str(b.builddate), rest0, r1);
    lemma_bscalar_line(r1, "builddir"@, b.builddir, rest1, r2);
    lemma_bscalar_line(r2, "startdir"@, b.startdir, rest2, r3);
    lemma_bscalar_line(r3, "buildtool"@, b.buildtool, rest3, r4);
    lemma_bscalar_line(r4, "buildtoolver"@, b.buildtoolver, rest4, r5);
}

/// The four list keys' rendered lines append exactly their members.
#[verifier::rlimit(100)]
proof fn lemma_buildinfo_lists(r: BuildInfoView, b: BuildInfoView, rest: Seq<char>)
    requires
        buildinfo_renderable(b),
    ensures
        buildinfo_fold(r, lines_of(buildinfo_list_text(b) + rest), 0) == buildinfo_fold(
            (BuildInfoView {
                pkgarch: r.pkgarch + b.pkgarch,
                buildenv: r.buildenv + b.buildenv,
                options: r.options + b.options,
                installed: r.installed + b.installed,
                ..r
            }),
            lines_of(rest),
            0,
        ),
{
    lemma_buildinfo_key_steps();
    let rest3 = rest;
    let rest2 = render_list("installed"@, b.installed, 0) + rest3;
    let rest1 = render_list("options"@, b.options, 0) + rest2;
    let rest0 = render_list("buildenv"@, b.buildenv, 0) + rest1;
    let whole = render_list("pkgarch"@, b.pkgarch, 0) + rest0;
    assert(buildinfo_list_text(b) + rest =~= whole);
    let upd1 = (|a: BuildInfoView, v: Seq<char>| BuildInfoView { pkgarch: a.pkgarch.push(v), ..a });
    lemma_bfold_list_generic("pkgarch"@, upd1, r, b.pkgarch, 0, rest0);
    lemma_blist_upd_pkgarch(upd1, r, b.pkgarch, 0);
    let ra = BuildInfoView { pkgarch: r.pkgarch + b.pkgarch.skip(0), ..r };
    let upd2 = (|a: BuildInfoView, v: Seq<char>| BuildInfoView {
        buildenv: a.buildenv.push(v),
        ..a
    });
    lemma_bfold_list_generic("buildenv"@, upd2, ra, b.buildenv, 0, rest1);
    lemma_blist_upd_buildenv(upd2, ra, b.buildenv, 0);
    let rb = BuildInfoView { buildenv: ra.buildenv + b.buildenv.skip(0), ..ra };
    let upd3 = (|a: BuildInfoView, v: Seq<char>| BuildInfoView { options: a.options.push(v), ..a });
    lemma_bfold_list_generic("options"@, upd3, rb, b.options, 0, rest2);
    lemma_blist_upd_options(upd3, rb, b.options, 0);
    let rc = BuildInfoView { options: rb.options + b.options.skip(0), ..rb };
    let upd4 = (|a: BuildInfoView, v: Seq<char>| BuildInfoView {
        installed: a.installed.push(v),
        ..a
    });
    lemma_bfold_list_generic("installed"@, upd4, rc, b.installed, 0, rest3);
    lemma_blist_upd_installed(upd4, rc, b.installed, 0);
    let rd = BuildInfoView { installed: rc.installed + b.installed.skip(0), ..rc };
    let goal = BuildInfoView {
        pkgarch: r.pkgarch + b.pkgarch,
        buildenv: r.buildenv + b.buildenv,
        options: r.options + b.options,
        installed: r.installed + b.installed,
        ..r
    };
    assert(rd.pkgarch =~= goal.pkgarch);
    assert(rd.buildenv =~= goal.buildenv);
    assert(rd.options =~= goal.options);
    assert(rd.installed =~= goal.installed);
    assert(rd == goal);
}

/// Rendering, then reparsing: for every record whose values are clean
/// and whose numbers fit, the regenerated text parses back to the very
/// same record.
#[verifier::rlimit(100)]
pub proof fn lemma_buildinfo_round_trip(b: BuildInfoView)
    requires
        buildinfo_renderable(b),
    ensures
        parse_buildinfo_text(render_buildinfo(b)) == Ok::<BuildInfoView, ErrView>(b),
{
    let restc = buildinfo_list_text(b) + Seq::<char>::empty();
    let restb = render_kv("builddate"@, i32_dec_str(b.builddate)) + render_kv(
        "builddir"@,
        b.builddir,
    ) + render_kv("startdir"@, b.startdir) + render_kv("buildtool"@, b.buildtool) + render_kv(
        "buildtoolver"@,
        b.buildtoolver,
    ) + restc;
    let resta = render_kv("pkgbuild_sha256sum"@, b.pkgbuild_sha256sum) + render_kv(
        "pkgbuild_md5sum"@,
        b.pkgbuild_md5sum,
    ) + render_kv("pkgbuild_sha1sum"@, b.pkgbuild_sha1sum) + render_kv("packager"@, b.packager)
        + restb;
    let whole = render_kv("format"@, i32_dec_str(b.format)) + render_kv("pkgname"@, b.pkgname)
        + render_kv("pkgbase"@, b.pkgbase) + render_kv("pkgver"@, b.pkgver) + resta;
    assert(render_buildinfo(b) =~= whole);
    let r0 = init_buildinfo();
    lemma_buildinfo_scalars_a(r0, b, resta);
    let ra = BuildInfoView {
        format: b.format,
        pkgname: b.pkgname,
        pkgbase: b.pkgbase,
        pkgver: b.pkgver,
        ..r0
    };
    lemma_buildinfo_scalars_b(ra, b, restb);
    let rb = BuildInfoView {
        pkgbuild_sha256sum: b.pkgbuild_sha256sum,
        pkgbuild_md5sum: b.pkgbuild_md5sum,
        pkgbuild_sha1sum: b.pkgbuild_sha1sum,
        packager: b.packager,
        ..ra
    };
    lemma_buildinfo_scalars_c(rb, b, restc);
    let rc = BuildInfoView {
        builddate: b.builddate,
        builddir: b.builddir,
        startdir: b.startdir,
        buildtool: b.buildtool,
        buildtoolver: b.buildtoolver,
        ..rb
    };
    assert(buildinfo_list_text(b) + Seq::<char>::empty() =~= buildinfo_list_text(b));
    lemma_buildinfo_lists(rc, b, Seq::empty());
    let rd = BuildInfoView {
        pkgarch: rc.pkgarch + b.pkgarch,
        buildenv: rc.buildenv + b.buildenv,
        options: rc.options + b.options,
        installed: rc.installed + b.installed,
        ..rc
    };
    assert(lines_of(Seq::<char>::empty()) =~= Seq::<Seq<char>>::empty());
    assert(rd.pkgarch =~= b.pkgarch);
    assert(rd.buildenv =~= b.buildenv);
    assert(rd.options =~= b.options);
    assert(rd.installed =~= b.installed);
    assert(rd == b);
}

/// What holds of every record the parser can produce: every string is
/// free of line feeds and of the delimiter, and the numbers fit `i32`.
pub open spec fn buildinfo_core_clean(b: BuildInfoView) -> bool {
    &&& clean_core(b.pkgname)
    &&& clean_core(b.pkgbase)
    &&& clean_core(b.pkgver)
    &&& clean_core(b.pkgbuild_sha256sum)
    &&& clean_core(b.pkgbuild_md5sum)
    &&& clean_core(b.pkgbuild_sha1sum)
    &&& clean_core(b.packager)
    &&& clean_core(b.builddir)
    &&& clean_core(b.startdir)
    &&& clean_core(b.buildtool)
    &&& clean_core(b.buildtoolver)
    &&& i32::MIN <= b.format <= i32::MAX
    &&& i32::MIN <= b.builddate <= i32::MAX
    &&& core_values(b.pkgarch)
    &&& core_values(b.buildenv)
    &&& core_values(b.options)
    &&& core_values(b.installed)
}

/// No value of the record ends in a carriage return: the one family of
/// accepted inputs whose regenerated text reparses differently, since a
/// carriage return just before a line feed is stripped.
pub open spec fn buildinfo_cr_free(b: BuildInfoView) -> bool {
    &&& (b.pkgname.len() > 0 ==> b.pkgname[b.pkgname.len() - 1] != '\r')
    &&& (b.pkgbase.len() > 0 ==> b.pkgbase[b.pkgbase.len() - 1] != '\r')
    &&& (b.pkgver.len() > 0 ==> b.pkgver[b.pkgver.len() - 1] != '\r')
    &&& (b.pkgbuild_sha256sum.len() > 0 ==> b.pkgbuild_sha256sum[b.pkgbuild_sha256sum.len() - 1] != '\r')
    &&& (b.pkgbuild_md5sum.len() > 0 ==> b.pkgbuild_md5sum[b.pkgbuild_md5sum.len() - 1] != '\r')
    &&& (b.pkgbuild_sha1sum.len() > 0 ==> b.pkgbuild_sha1sum[b.pkgbuild_sha1sum.len() - 1] != '\r')
    &&& (b.packager.len() > 0 ==> b.packager[b.packager.len() - 1] != '\r')
    &&& (b.builddir.len() > 0 ==> b.builddir[b.builddir.len() - 1] != '\r')
    &&& (b.startdir.len() > 0 ==> b.startdir[b.startdir.len() - 1] != '\r')
    &&& (b.buildtool.len() > 0 ==> b.buildtool[b.buildtool.len() - 1] != '\r')
    &&& (b.buildtoolver.len() > 0 ==> b.buildtoolver[b.buildtoolver.len() - 1] != '\r')
    &&& cr_free_values(b.pkgarch)
    &&& cr_free_values(b.buildenv)
    &&& cr_free_values(b.options)
    &&& cr_free_values(b.installed)
}

/// One accepted line keeps the record clean.
#[verifier::rlimit(100)]
proof fn lemma_buildinfo_step_clean(r: BuildInfoView, line: Seq<char>)
    requires
        buildinfo_core_clean(r),
        forall|t: int| 0 <= t < line.len() ==> line[t] != '\n',
        buildinfo_step(r, line) is Ok,
    ensures
        buildinfo_core_clean(buildinfo_step(r, line)->Ok_0),
{
    if line.len() == 0 {
    } else {
        match split_kv(line) {
            None => {},
            Some(kv) => {
                lemma_split_kv_value_clean(line);
                let v = kv.1;
                assert(clean_core(v));
                lemma_core_values_push(r.pkgarch, v);
                lemma_core_values_push(r.buildenv, v);
                lemma_core_values_push(r.options, v);
                lemma_core_values_push(r.installed, v);
            },
        }
    }
}

/// An accepted fold keeps the record clean.
proof fn lemma_buildinfo_fold_clean(r: BuildInfoView, lines: Seq<Seq<char>>, i: int)
    requires
        buildinfo_core_clean(r),
        0 <= i,
        forall|k: int, t: int|
            0 <= k < lines.len() && 0 <= t < lines[k].len() ==> #[trigger] lines[k][t] != '\n',
        buildinfo_fold(r, lines, i) is Ok,
    ensures
        buildinfo_core_clean(buildinfo_fold(r, lines, i)->Ok_0),
    decreases lines.len() - i,
{
    if i < lines.len() {
        assert(forall|t: int| 0 <= t < lines[i].len() ==> lines[i][t] != '\n');
        match buildinfo_step(r, lines[i]) {
            Ok(r2) => {
                lemma_buildinfo_step_clean(r, lines[i]);
                lemma_buildinfo_fold_clean(r2, lines, i + 1);
            },
            Err(_) => {},
        }
    }
}

/// Every record the parser returns is clean: its strings hold no line
/// feed and no delimiter, and its numbers fit `i32`.
pub proof fn lemma_buildinfo_parse_clean(t: Seq<char>)
    requires
        parse_buildinfo_text(t) is Ok,
    ensures
        buildinfo_core_clean(parse_buildinfo_text(t)->Ok_0),
{
    lemma_lines_no_newline(t, 0);
    lemma_buildinfo_fold_clean(init_buildinfo(), lines_of(t), 0);
}

/// The round trip over accepted text: whatever record some metadata
/// text parses to, the regenerated text parses back to that record —
/// for every record none of whose values ends in a carriage return.
pub proof fn lemma_buildinfo_text_round_trip(t: Seq<char>, b: BuildInfoView)
    requires
        parse_buildinfo_text(t) == Ok::<BuildInfoView, ErrView>(b),
        buildinfo_cr_free(b),
    ensures
        parse_buildinfo_text(render_buildinfo(b)) == Ok::<BuildInfoView, ErrView>(b),
{
    lemma_buildinfo_parse_clean(t);
    assert(buildinfo_renderable(b));
    lemma_buildinfo_round_trip(b);
}

} // verus!
