//! The `.PKGINFO` metadata record: one `key = value` pair per line,
//! `#`-prefixed comment lines skipped, unknown keys fatal, scalar keys
//! last-write-wins, multi-valued keys appended in file order.

use vstd::prelude::*;

use crate::error::AetherError;
use crate::error::ErrView;
use crate::text::clean_core;
use crate::text::clean_key;
use crate::text::core_values;
use crate::text::cr_free_values;
use crate::text::lemma_core_values_push;
use crate::text::lemma_lines_no_newline;
use crate::text::lemma_split_kv_value_clean;
use crate::text::clean_value;
use crate::text::clean_values;
use crate::text::i32_dec_str;
use crate::text::lemma_i32_str_clean;
use crate::text::lemma_parse_render_i32;
use crate::text::lemma_render_kv_lines;
use crate::text::lines_of;
use crate::text::parse_i32;
use crate::text::parse_i32_chars;
use crate::text::push_kv;
use crate::text::push_list;
use crate::text::render_i32;
use crate::text::render_kv;
use crate::text::render_list;
use crate::text::split_kv;
use crate::text::split_kv_line;
use crate::text::split_lines;
use crate::text::str_eq;
use crate::text::utf8_to_string;
use vstd::utf8::decode_utf8;
use vstd::utf8::valid_utf8;

verus! {

/// Spec-level image of a [`PkgInfo`] record.
pub struct PkgInfoView {
    pub pkgname: Seq<char>,
    pub pkgbase: Seq<char>,
    pub pkgver: Seq<char>,
    pub pkgdesc: Seq<char>,
    pub url: Seq<char>,
    pub builddate: int,
    pub packager: Seq<char>,
    pub size: int,
    pub arch: Seq<Seq<char>>,
    pub license: Seq<char>,
    pub conflict: Seq<Seq<char>>,
    pub provides: Seq<Seq<char>>,
    pub depend: Seq<Seq<char>>,
    pub optdepend: Seq<Seq<char>>,
    pub makedepend: Seq<Seq<char>>,
    pub checkdepend: Seq<Seq<char>>,
    pub backup: Seq<Seq<char>>,
    pub group: Seq<Seq<char>>,
}

/// Data parsed from a `.PKGINFO` file.
#[derive(Clone, Debug, PartialEq, Eq)]
pub struct PkgInfo {
    pub pkgname: String,
    pub pkgbase: String,
    pub pkgver: String,
    pub pkgdesc: String,
    pub url: String,
    pub builddate: i32,
    pub packager: String,
    pub size: i32,
    pub arch: Vec<String>,
    pub license: String,
    pub conflict: Vec<String>,
    pub provides: Vec<String>,
    pub depend: Vec<String>,
    pub optdepend: Vec<String>,
    pub makedepend: Vec<String>,
    pub checkdepend: Vec<String>,
    pub backup: Vec<String>,
    pub group: Vec<String>,
}

impl View for PkgInfo {
    type V = PkgInfoView;

    open spec fn view(&self) -> PkgInfoView {
        PkgInfoView {
            pkgname: self.pkgname@,
            pkgbase: self.pkgbase@,
            pkgver: self.pkgver@,
            pkgdesc: self.pkgdesc@,
            url: self.url@,
            builddate: self.builddate as int,
            packager: self.packager@,
            size: self.size as int,
            arch: self.arch.deep_view(),
            license: self.license@,
            conflict: self.conflict.deep_view(),
            provides: self.provides.deep_view(),
            depend: self.depend.deep_view(),
            optdepend: self.optdepend.deep_view(),
            makedepend: self.makedepend.deep_view(),
            checkdepend: self.checkdepend.deep_view(),
            backup: self.backup.deep_view(),
            group: self.group.deep_view(),
        }
    }
}

/// The record every parse starts from: empty strings and lists, zeroes.
pub open spec fn init_pkginfo() -> PkgInfoView {
    PkgInfoView {
        pkgname: Seq::empty(),
        pkgbase: Seq::empty(),
        pkgver: Seq::empty(),
        pkgdesc: Seq::empty(),
        url: Seq::empty(),
        builddate: 0,
        packager: Seq::empty(),
        size: 0,
        arch: Seq::empty(),
        license: Seq::empty(),
        conflict: Seq::empty(),
        provides: Seq::empty(),
        depend: Seq::empty(),
        optdepend: Seq::empty(),
        makedepend: Seq::empty(),
        checkdepend: Seq::empty(),
        backup: Seq::empty(),
        group: Seq::empty(),
    }
}

/// Effect of one recognized-or-rejected key/value pair on a record.
pub open spec fn pkginfo_key_step(r: PkgInfoView, k: Seq<char>, v: Seq<char>) -> Result<
    PkgInfoView,
    ErrView,
> {
    if k == "pkgname"@ {
        Ok(PkgInfoView { pkgname: v, ..r })
    } else if k == "pkgbase"@ {
        Ok(PkgInfoView { pkgbase: v, ..r })
    } else if k == "pkgver"@ {
        Ok(PkgInfoView { pkgver: v, ..r })
    } else if k == "pkgdesc"@ {
        Ok(PkgInfoView { pkgdesc: v, ..r })
    } else if k == "url"@ {
        Ok(PkgInfoView { url: v, ..r })
    } else if k == "builddate"@ {
        match parse_i32_chars(v) {
            Some(n) => Ok(PkgInfoView { builddate: n as int, ..r }),
            None => Err(ErrView::InvalidValue { key: k, value: v }),
        }
    } else if k == "packager"@ {
        Ok(PkgInfoView { packager: v, ..r })
    } else if k == "size"@ {
        match parse_i32_chars(v) {
            Some(n) => Ok(PkgInfoView { size: n as int, ..r }),
            None => Err(ErrView::InvalidValue { key: k, value: v }),
        }
    } else if k == "arch"@ {
        Ok(PkgInfoView { arch: r.arch.push(v), ..r })
    } else if k == "license"@ {
        Ok(PkgInfoView { license: v, ..r })
    } else if k == "conflict"@ {
        Ok(PkgInfoView { conflict: r.conflict.push(v), ..r })
    } else if k == "provides"@ {
        Ok(PkgInfoView { provides: r.provides.push(v), ..r })
    } else if k == "depend"@ {
        Ok(PkgInfoView { depend: r.depend.push(v), ..r })
    } else if k == "optdepend"@ {
        Ok(PkgInfoView { optdepend: r.optdepend.push(v), ..r })
    } else if k == "makedepend"@ {
        Ok(PkgInfoView { makedepend: r.makedepend.push(v), ..r })
    } else if k == "checkdepend"@ {
        Ok(PkgInfoView { checkdepend: r.checkdepend.push(v), ..r })
    } else if k == "backup"@ {
        Ok(PkgInfoView { backup: r.backup.push(v), ..r })
    } else if k == "group"@ {
        Ok(PkgInfoView { group: r.group.push(v), ..r })
    } else {
        Err(ErrView::InfoKeyError { kind: "PkgInfo"@, key: k })
    }
}

/// Effect of one line on a record: empty lines and `#` comments are
/// skipped, a line without `" = "` is a parse error, anything else goes
/// through [`pkginfo_key_step`].
pub open spec fn pkginfo_step(r: PkgInfoView, line: Seq<char>) -> Result<PkgInfoView, ErrView> {
    if line.len() == 0 {
        Ok(r)
    } else if line[0] == '#' {
        Ok(r)
    } else {
        match split_kv(line) {
            None => Err(ErrView::InfoParseError { field: "value"@, line: line }),
            Some(kv) => pkginfo_key_step(r, kv.0, kv.1),
        }
    }
}

/// Fold [`pkginfo_step`] over `lines[i..]`, stopping at the first error.
pub open spec fn pkginfo_fold(r: PkgInfoView, lines: Seq<Seq<char>>, i: int) -> Result<
    PkgInfoView,
    ErrView,
>
    decreases lines.len() - i,
{
    if i < 0 || i >= lines.len() {
        Ok(r)
    } else {
        match pkginfo_step(r, lines[i]) {
            Ok(r2) => pkginfo_fold(r2, lines, i + 1),
            Err(e) => Err(e),
        }
    }
}

/// What parsing `.PKGINFO` text returns: the fully populated record, or
/// the first error, never a partially filled record.
pub open spec fn parse_pkginfo_text(s: Seq<char>) -> Result<PkgInfoView, ErrView> {
    pkginfo_fold(init_pkginfo(), lines_of(s), 0)
}

/// What parsing `.PKGINFO` file bytes returns: an encoding error on
/// invalid UTF-8, else the parse of the decoded text.
pub open spec fn parse_pkginfo_bytes(bytes: Seq<u8>) -> Result<PkgInfoView, ErrView> {
    if valid_utf8(bytes) {
        parse_pkginfo_text(decode_utf8(bytes))
    } else {
        Err(ErrView::Utf8Error)
    }
}

/// View of an exec parse result.
pub open spec fn pkginfo_res(r: Result<PkgInfo, AetherError>) -> Result<PkgInfoView, ErrView> {
    match r {
        Ok(p) => Ok(p@),
        Err(e) => Err(e@),
    }
}

/// Apply one key/value pair to the record under construction.
fn apply_kv(info: &mut PkgInfo, key: String, value: String) -> (r: Result<(), AetherError>)
    ensures
        r is Ok ==> (pkginfo_key_step(old(info)@, key@, value@) matches Ok(v) && final(info)@
            == v),
        r matches Err(e) ==> (pkginfo_key_step(old(info)@, key@, value@) matches Err(ev) && e@
            == ev && final(info)@ == old(info)@),
{
    let ghost vv = value@;
    if str_eq(key.as_str(), "pkgname") {
        info.pkgname = value;
    } else if str_eq(key.as_str(), "pkgbase") {
        info.pkgbase = value;
    } else if str_eq(key.as_str(), "pkgver") {
        info.pkgver = value;
    } else if str_eq(key.as_str(), "pkgdesc") {
        info.pkgdesc = value;
    } else if str_eq(key.as_str(), "url") {
        info.url = value;
    } else if str_eq(key.as_str(), "builddate") {
        match parse_i32(value.as_str()) {
            Some(n) => {
                info.builddate = n;
            },
            None => {
                return Err(AetherError::InvalidValue { key, value });
            },
        }
    } else if str_eq(key.as_str(), "packager") {
        info.packager = value;
    } else if str_eq(key.as_str(), "size") {
        match parse_i32(value.as_str()) {
            Some(n) => {
                info.size = n;
            },
            None => {
                return Err(AetherError::InvalidValue { key, value });
            },
        }
    } else if str_eq(key.as_str(), "arch") {
        let ghost before = info.arch.deep_view();
        info.arch.push(value);
        proof {
            assert(info.arch.deep_view() =~= before.push(vv));
        }
    } else if str_eq(key.as_str(), "license") {
        info.license = value;
    } else if str_eq(key.as_str(), "conflict") {
        let ghost before = info.conflict.deep_view();
        info.conflict.push(value);
        proof {
            assert(info.conflict.deep_view() =~= before.push(vv));
        }
    } else if str_eq(key.as_str(), "provides") {
        let ghost before = info.provides.deep_view();
        info.provides.push(value);
        proof {
            assert(info.provides.deep_view() =~= before.push(vv));
        }
    } else if str_eq(key.as_str(), "depend") {
        let ghost before = info.depend.deep_view();
        info.depend.push(value);
        proof {
            assert(info.depend.deep_view() =~= before.push(vv));
        }
    } else if str_eq(key.as_str(), "optdepend") {
        let ghost before = info.optdepend.deep_view();
        info.optdepend.push(value);
        proof {
            assert(info.optdepend.deep_view() =~= before.push(vv));
        }
    } else if str_eq(key.as_str(), "makedepend") {
        let ghost before = info.makedepend.deep_view();
        info.makedepend.push(value);
        proof {
            assert(info.makedepend.deep_view() =~= before.push(vv));
        }
    } else if str_eq(key.as_str(), "checkdepend") {
        let ghost before = info.checkdepend.deep_view();
        info.checkdepend.push(value);
        proof {
            assert(info.checkdepend.deep_view() =~= before.push(vv));
        }
    } else if str_eq(key.as_str(), "backup") {
        let ghost before = info.backup.deep_view();
        info.backup.push(value);
        proof {
            assert(info.backup.deep_view() =~= before.push(vv));
        }
    } else if str_eq(key.as_str(), "group") {
        let ghost before = info.group.deep_view();
        info.group.push(value);
        proof {
            assert(info.group.deep_view() =~= before.push(vv));
        }
    } else {
        return Err(AetherError::InfoKeyError { kind: "PkgInfo".to_owned(), key });
    }
    Ok(())
}

impl PkgInfo {
    /// An initialized, all-empty record.
    pub fn new() -> (r: PkgInfo)
        ensures
            r@ == init_pkginfo(),
    {
        let r = PkgInfo {
            pkgname: String::new(),
            pkgbase: String::new(),
            pkgver: String::new(),
            pkgdesc: String::new(),
            url: String::new(),
            builddate: 0,
            packager: String::new(),
            size: 0,
            arch: Vec::new(),
            license: String::new(),
            conflict: Vec::new(),
            provides: Vec::new(),
            depend: Vec::new(),
            optdepend: Vec::new(),
            makedepend: Vec::new(),
            checkdepend: Vec::new(),
            backup: Vec::new(),
            group: Vec::new(),
        };
        proof {
            assert(r.arch.deep_view() =~= Seq::<Seq<char>>::empty());
            assert(r.conflict.deep_view() =~= Seq::<Seq<char>>::empty());
            assert(r.provides.deep_view() =~= Seq::<Seq<char>>::empty());
            assert(r.depend.deep_view() =~= Seq::<Seq<char>>::empty());
            assert(r.optdepend.deep_view() =~= Seq::<Seq<char>>::empty());
            assert(r.makedepend.deep_view() =~= Seq::<Seq<char>>::empty());
            assert(r.checkdepend.deep_view() =~= Seq::<Seq<char>>::empty());
            assert(r.backup.deep_view() =~= Seq::<Seq<char>>::empty());
            assert(r.group.deep_view() =~= Seq::<Seq<char>>::empty());
        }
        r
    }

    /// Parse `.PKGINFO` text into a record, per [`parse_pkginfo_text`].
    pub fn parse_text(s: &str) -> (r: Result<PkgInfo, AetherError>)
        ensures
            pkginfo_res(r) == parse_pkginfo_text(s@),
    {
        let lines = split_lines(s);
        let ghost lv = lines.deep_view();
        let mut info = PkgInfo::new();
        let n = lines.len();
        let mut i: usize = 0;
        while i < n
            invariant
                n == lines.len(),
                i <= n,
                lv == lines.deep_view(),
                lv == lines_of(s@),
                pkginfo_fold(init_pkginfo(), lv, 0) == pkginfo_fold(info@, lv, i as int),
            decreases n - i,
        {
            let line: &String = &lines[i];
            proof {
                assert(lv[i as int] == line@);
            }
            let ghost lseq = line@;
            let ghost before = info@;
            let ls: &str = line.as_str();
            if ls.unicode_len() == 0 {
            } else if ls.get_char(0) == '#' {
            } else {
                match split_kv_line(ls) {
                    None => {
                        let e = AetherError::InfoParseError {
                            field: "value".to_owned(),
                            line: line.clone(),
                        };
                        proof {
                            assert(pkginfo_step(before, lseq) == Err::<PkgInfoView, ErrView>(e@));
                        }
                        return Err(e);
                    },
                    Some((key, value)) => {
                        let ghost kv = (key@, value@);
                        match apply_kv(&mut info, key, value) {
                            Ok(()) => {
                                proof {
                                    assert(pkginfo_step(before, lseq) == Ok::<
                                        PkgInfoView,
                                        ErrView,
                                    >(info@));
                                }
                            },
                            Err(e) => {
                                proof {
                                    assert(pkginfo_step(before, lseq) == Err::<
                                        PkgInfoView,
                                        ErrView,
                                    >(e@));
                                }
                                return Err(e);
                            },
                        }
                    },
                }
            }
            i = i + 1;
        }
        Ok(info)
    }

    /// Parse `.PKGINFO` file bytes, per [`parse_pkginfo_bytes`]: decode
    /// as UTF-8, then parse the text.
    pub fn parse(bytes: &[u8]) -> (r: Result<PkgInfo, AetherError>)
        ensures
            pkginfo_res(r) == parse_pkginfo_bytes(bytes@),
    {
        match utf8_to_string(bytes) {
            None => Err(AetherError::Utf8Error),
            Some(text) => PkgInfo::parse_text(text.as_str()),
        }
    }
}

impl Default for PkgInfo {
    fn default() -> (r: PkgInfo)
        ensures
            r@ == init_pkginfo(),
    {
        PkgInfo::new()
    }
}

/// The rendered lines of the nine scalar fields.
pub open spec fn pkginfo_scalar_text(p: PkgInfoView) -> Seq<char> {
    render_kv("pkgname"@, p.pkgname) + render_kv("pkgbase"@, p.pkgbase) + render_kv(
        "pkgver"@,
        p.pkgver,
    ) + render_kv("pkgdesc"@, p.pkgdesc) + render_kv("url"@, p.url) + render_kv(
        "builddate"@,
        i32_dec_str(p.builddate),
    ) + render_kv("packager"@, p.packager) + render_kv("size"@, i32_dec_str(p.size)) + render_kv(
        "license"@,
        p.license,
    )
}

/// The rendered lines of the nine multi-valued fields.
pub open spec fn pkginfo_list_text(p: PkgInfoView) -> Seq<char> {
    render_list("arch"@, p.arch, 0) + render_list("conflict"@, p.conflict, 0) + render_list(
        "provides"@,
        p.provides,
        0,
    ) + render_list("depend"@, p.depend, 0) + render_list("optdepend"@, p.optdepend, 0)
        + render_list("makedepend"@, p.makedepend, 0) + render_list(
        "checkdepend"@,
        p.checkdepend,
        0,
    ) + render_list("backup"@, p.backup, 0) + render_list("group"@, p.group, 0)
}

/// The canonical text of a record: one line per scalar, one line per
/// member of each multi-valued key, numeric fields in decimal.
pub open spec fn render_pkginfo(p: PkgInfoView) -> Seq<char> {
    pkginfo_scalar_text(p) + pkginfo_list_text(p)
}

/// A record with `p`'s scalars and no list members yet.
pub open spec fn pkginfo_scalars_of(p: PkgInfoView) -> PkgInfoView {
    PkgInfoView {
        arch: Seq::empty(),
        conflict: Seq::empty(),
        provides: Seq::empty(),
        depend: Seq::empty(),
        optdepend: Seq::empty(),
        makedepend: Seq::empty(),
        checkdepend: Seq::empty(),
        backup: Seq::empty(),
        group: Seq::empty(),
        ..p
    }
}

/// `r` with every list field of `p` appended.
pub open spec fn pkginfo_with_lists(r: PkgInfoView, p: PkgInfoView) -> PkgInfoView {
    PkgInfoView {
        arch: r.arch + p.arch,
        conflict: r.conflict + p.conflict,
        provides: r.provides + p.provides,
        depend: r.depend + p.depend,
        optdepend: r.optdepend + p.optdepend,
        makedepend: r.makedepend + p.makedepend,
        checkdepend: r.checkdepend + p.checkdepend,
        backup: r.backup + p.backup,
        group: r.group + p.group,
        ..r
    }
}

/// A record whose rendered text parses back unchanged: every string
/// value is clean and the numeric fields fit their machine type.
pub open spec fn pkginfo_renderable(p: PkgInfoView) -> bool {
    &&& clean_value(p.pkgname)
    &&& clean_value(p.pkgbase)
    &&& clean_value(p.pkgver)
    &&& clean_value(p.pkgdesc)
    &&& clean_value(p.url)
    &&& clean_value(p.packager)
    &&& clean_value(p.license)
    &&& i32::MIN <= p.builddate <= i32::MAX
    &&& i32::MIN <= p.size <= i32::MAX
    &&& clean_values(p.arch)
    &&& clean_values(p.conflict)
    &&& clean_values(p.provides)
    &&& clean_values(p.depend)
    &&& clean_values(p.optdepend)
    &&& clean_values(p.makedepend)
    &&& clean_values(p.checkdepend)
    &&& clean_values(p.backup)
    &&& clean_values(p.group)
}

impl PkgInfo {
    /// Regenerate the record's metadata text, per [`render_pkginfo`].
    pub fn to_text(&self) -> (r: String)
        ensures
            r@ == render_pkginfo(self@),
    {
        let mut out = String::new();
        push_kv(&mut out, "pkgname", self.pkgname.as_str());
        push_kv(&mut out, "pkgbase", self.pkgbase.as_str());
        push_kv(&mut out, "pkgver", self.pkgver.as_str());
        push_kv(&mut out, "pkgdesc", self.pkgdesc.as_str());
        push_kv(&mut out, "url", self.url.as_str());
        let bd = render_i32(self.builddate);
        push_kv(&mut out, "builddate", bd.as_str());
        push_kv(&mut out, "packager", self.packager.as_str());
        let sz = render_i32(self.size);
        push_kv(&mut out, "size", sz.as_str());
        push_kv(&mut out, "license", self.license.as_str());
        push_list(&mut out, "arch", &self.arch);
        push_list(&mut out, "conflict", &self.conflict);
        push_list(&mut out, "provides", &self.provides);
        push_list(&mut out, "depend", &self.depend);
        push_list(&mut out, "optdepend", &self.optdepend);
        push_list(&mut out, "makedepend", &self.makedepend);
        push_list(&mut out, "checkdepend", &self.checkdepend);
        push_list(&mut out, "backup", &self.backup);
        push_list(&mut out, "group", &self.group);
        proof {
            assert(out@ =~= render_pkginfo(self@));
        }
        out
    }
}

/// What one recognized key does to a record, for each fixed key; and
/// that each key is fit for rendering.
proof fn lemma_pkginfo_key_steps()
    ensures
        clean_key("pkgname"@),
        clean_key("pkgbase"@),
        clean_key("pkgver"@),
        clean_key("pkgdesc"@),
        clean_key("url"@),
        clean_key("builddate"@),
        clean_key("packager"@),
        clean_key("size"@),
        clean_key("license"@),
        clean_key("arch"@),
        clean_key("conflict"@),
        clean_key("provides"@),
        clean_key("depend"@),
        clean_key("optdepend"@),
        clean_key("makedepend"@),
        clean_key("checkdepend"@),
        clean_key("backup"@),
        clean_key("group"@),
        forall|r: PkgInfoView, v: Seq<char>| #[trigger] pkginfo_key_step(r, "pkgname"@, v) == Ok::<
            PkgInfoView,
            ErrView,
        >((PkgInfoView { pkgname: v, ..r })),
        forall|r: PkgInfoView, v: Seq<char>| #[trigger] pkginfo_key_step(r, "pkgbase"@, v) == Ok::<
            PkgInfoView,
            ErrView,
        >((PkgInfoView { pkgbase: v, ..r })),
        forall|r: PkgInfoView, v: Seq<char>| #[trigger] pkginfo_key_step(r, "pkgver"@, v) == Ok::<
            PkgInfoView,
            ErrView,
        >((PkgInfoView { pkgver: v, ..r })),
        forall|r: PkgInfoView, v: Seq<char>| #[trigger] pkginfo_key_step(r, "pkgdesc"@, v) == Ok::<
            PkgInfoView,
            ErrView,
        >((PkgInfoView { pkgdesc: v, ..r })),
        forall|r: PkgInfoView, v: Seq<char>| #[trigger] pkginfo_key_step(r, "url"@, v) == Ok::<
            PkgInfoView,
            ErrView,
        >((PkgInfoView { url: v, ..r })),
        forall|r: PkgInfoView, v: Seq<char>|
            parse_i32_chars(v) is Some ==> #[trigger] pkginfo_key_step(r, "builddate"@, v) == Ok::<
                PkgInfoView,
                ErrView,
            >((PkgInfoView { builddate: parse_i32_chars(v)->Some_0 as int, ..r })),
        forall|r: PkgInfoView, v: Seq<char>| #[trigger] pkginfo_key_step(r, "packager"@, v)
            == Ok::<PkgInfoView, ErrView>((PkgInfoView { packager: v, ..r })),
        forall|r: PkgInfoView, v: Seq<char>|
            parse_i32_chars(v) is Some ==> #[trigger] pkginfo_key_step(r, "size"@, v) == Ok::<
                PkgInfoView,
                ErrView,
            >((PkgInfoView { size: parse_i32_chars(v)->Some_0 as int, ..r })),
        forall|r: PkgInfoView, v: Seq<char>| #[trigger] pkginfo_key_step(r, "license"@, v) == Ok::<
            PkgInfoView,
            ErrView,
        >((PkgInfoView { license: v, ..r })),
        forall|r: PkgInfoView, v: Seq<char>| #[trigger] pkginfo_key_step(r, "arch"@, v) == Ok::<
            PkgInfoView,
            ErrView,
        >((PkgInfoView { arch: r.arch.push(v), ..r })),
        forall|r: PkgInfoView, v: Seq<char>| #[trigger] pkginfo_key_step(r, "conflict"@, v)
            == Ok::<PkgInfoView, ErrView>((PkgInfoView { conflict: r.conflict.push(v), ..r })),
        forall|r: PkgInfoView, v: Seq<char>| #[trigger] pkginfo_key_step(r, "provides"@, v)
            == Ok::<PkgInfoView, ErrView>((PkgInfoView { provides: r.provides.push(v), ..r })),
        forall|r: PkgInfoView, v: Seq<char>| #[trigger] pkginfo_key_step(r, "depend"@, v) == Ok::<
            PkgInfoView,
            ErrView,
        >((PkgInfoView { depend: r.depend.push(v), ..r })),
        forall|r: PkgInfoView, v: Seq<char>| #[trigger] pkginfo_key_step(r, "optdepend"@, v)
            == Ok::<PkgInfoView, ErrView>((PkgInfoView { optdepend: r.optdepend.push(v), ..r })),
        forall|r: PkgInfoView, v: Seq<char>| #[trigger] pkginfo_key_step(r, "makedepend"@, v)
            == Ok::<PkgInfoView, ErrView>((PkgInfoView { makedepend: r.makedepend.push(v), ..r })),
        forall|r: PkgInfoView, v: Seq<char>| #[trigger] pkginfo_key_step(r, "checkdepend"@, v)
            == Ok::<PkgInfoView, ErrView>(
            (PkgInfoView { checkdepend: r.checkdepend.push(v), ..r }),
        ),
        forall|r: PkgInfoView, v: Seq<char>| #[trigger] pkginfo_key_step(r, "backup"@, v) == Ok::<
            PkgInfoView,
            ErrView,
        >((PkgInfoView { backup: r.backup.push(v), ..r })),
        forall|r: PkgInfoView, v: Seq<char>| #[trigger] pkginfo_key_step(r, "group"@, v) == Ok::<
            PkgInfoView,
            ErrView,
        >((PkgInfoView { group: r.group.push(v), ..r })),
{
    reveal_strlit("pkgname");
    reveal_strlit("pkgbase");
    reveal_strlit("pkgver");
    reveal_strlit("pkgdesc");
    reveal_strlit("url");
    reveal_strlit("builddate");
    reveal_strlit("packager");
    reveal_strlit("size");
    reveal_strlit("license");
    reveal_strlit("arch");
    reveal_strlit("conflict");
    reveal_strlit("provides");
    reveal_strlit("depend");
    reveal_strlit("optdepend");
    reveal_strlit("makedepend");
    reveal_strlit("checkdepend");
    reveal_strlit("backup");
    reveal_strlit("group");
    assert("pkgname"@[3] == 'n' && "pkgbase"@[3] == 'b' && "pkgdesc"@[3] == 'd');
    assert("pkgname"@ != "pkgbase"@ && "pkgname"@ != "pkgdesc"@ && "pkgbase"@ != "pkgdesc"@);
    assert("license"@[0] == 'l' && "pkgname"@[0] == 'p');
    assert("license"@ != "pkgname"@ && "license"@ != "pkgbase"@ && "license"@ != "pkgdesc"@);
    assert("pkgver"@[0] == 'p' && "depend"@[0] == 'd' && "backup"@[0] == 'b');
    assert("pkgver"@ != "depend"@ && "pkgver"@ != "backup"@ && "depend"@ != "backup"@);
    assert("builddate"@[0] == 'b' && "optdepend"@[0] == 'o');
    assert("builddate"@ != "optdepend"@);
    assert("packager"@[0] == 'p' && "conflict"@[0] == 'c' && "provides"@[0] == 'p');
    assert("packager"@[1] == 'a' && "provides"@[1] == 'r');
    assert("packager"@ != "conflict"@ && "packager"@ != "provides"@ && "conflict"@
        != "provides"@);
    assert("size"@[0] == 's' && "arch"@[0] == 'a');
    assert("size"@ != "arch"@);
}

/// Folding from past the end of a prefix is folding the suffix.
proof fn lemma_fold_shift(r: PkgInfoView, a: Seq<Seq<char>>, b: Seq<Seq<char>>, j: int)
    requires
        0 <= j <= b.len(),
    ensures
        pkginfo_fold(r, a + b, a.len() + j) == pkginfo_fold(r, b, j),
    decreases b.len() - j,
{
    if j == b.len() {
    } else {
        assert((a + b)[a.len() + j] == b[j]);
        match pkginfo_step(r, b[j]) {
            Ok(r2) => {
                lemma_fold_shift(r2, a, b, j + 1);
            },
            Err(_) => {},
        }
    }
}

/// Folding one line, then the rest.
proof fn lemma_fold_cons(r: PkgInfoView, line: Seq<char>, rest: Seq<Seq<char>>)
    ensures
        pkginfo_fold(r, seq![line] + rest, 0) == (match pkginfo_step(r, line) {
            Ok(r2) => pkginfo_fold(r2, rest, 0),
            Err(e) => Err(e),
        }),
{
    assert((seq![line] + rest)[0] == line);
    match pkginfo_step(r, line) {
        Ok(r2) => {
            lemma_fold_shift(r2, seq![line], rest, 0);
        },
        Err(_) => {},
    }
}

/// One clean rendered line advances the fold by exactly its key's step.
proof fn lemma_scalar_line(
    r: PkgInfoView,
    k: Seq<char>,
    v: Seq<char>,
    rest: Seq<char>,
    r2: PkgInfoView,
)
    requires
        clean_key(k),
        clean_value(v),
        pkginfo_key_step(r, k, v) == Ok::<PkgInfoView, ErrView>(r2),
    ensures
        pkginfo_fold(r, lines_of(render_kv(k, v) + rest), 0) == pkginfo_fold(
            r2,
            lines_of(rest),
            0,
        ),
{
    lemma_render_kv_lines(k, v, rest);
    let line = k + seq![' ', '=', ' '] + v;
    assert(line[0] == k[0]);
    assert(pkginfo_step(r, line) == Ok::<PkgInfoView, ErrView>(r2));
    lemma_fold_cons(r, line, lines_of(rest));
}

/// The record after applying `upd` with each of `vs[j..]` in turn.
spec fn list_upd(
    upd: spec_fn(PkgInfoView, Seq<char>) -> PkgInfoView,
    r: PkgInfoView,
    vs: Seq<Seq<char>>,
    j: int,
) -> PkgInfoView
    decreases vs.len() - j,
{
    if j < 0 || j >= vs.len() {
        r
    } else {
        list_upd(upd, upd(r, vs[j]), vs, j + 1)
    }
}

/// The rendered lines of one multi-valued key advance the fold by one
/// update per member.
proof fn lemma_fold_list_generic(
    k: Seq<char>,
    upd: spec_fn(PkgInfoView, Seq<char>) -> PkgInfoView,
    r: PkgInfoView,
    vs: Seq<Seq<char>>,
    j: int,
    rest: Seq<char>,
)
    requires
        0 <= j <= vs.len(),
        clean_values(vs),
        clean_key(k),
        forall|a: PkgInfoView, v: Seq<char>| #[trigger] pkginfo_key_step(a, k, v) == Ok::<
            PkgInfoView,
            ErrView,
        >(upd(a, v)),
    ensures
        pkginfo_fold(r, lines_of(render_list(k, vs, j) + rest), 0) == pkginfo_fold(
            list_upd(upd, r, vs, j),
            lines_of(rest),
            0,
        ),
    decreases vs.len() - j,
{
    if j == vs.len() {
        assert(render_list(k, vs, j) + rest =~= rest);
    } else {
        let r2 = upd(r, vs[j]);
        assert(render_list(k, vs, j) + rest =~= render_kv(k, vs[j]) + (render_list(k, vs, j + 1)
            + rest));
        lemma_scalar_line(r, k, vs[j], render_list(k, vs, j + 1) + rest, r2);
        lemma_fold_list_generic(k, upd, r2, vs, j + 1, rest);
    }
}

/// The first five scalar lines parse back into their fields.
#[verifier::rlimit(100)]
proof fn lemma_pkginfo_scalars_a(r: PkgInfoView, p: PkgInfoView, rest: Seq<char>)
    requires
        pkginfo_renderable(p),
    ensures
        pkginfo_fold(
            r,
            lines_of(
                render_kv("pkgname"@, p.pkgname) + render_kv("pkgbase"@, p.pkgbase) + render_kv(
                    "pkgver"@,
                    p.pkgver,
                ) + render_kv("pkgdesc"@, p.pkgdesc) + render_kv("url"@, p.url) + rest,
            ),
            0,
        ) == pkginfo_fold(
            (PkgInfoView {
                pkgname: p.pkgname,
                pkgbase: p.pkgbase,
                pkgver: p.pkgver,
                pkgdesc: p.pkgdesc,
                url: p.url,
                ..r
            }),
            lines_of(rest),
            0,
        ),
{
    lemma_pkginfo_key_steps();
    let rest4 = rest;
    let rest3 = render_kv("url"@, p.url) + rest4;
    let rest2 = render_kv("pkgdesc"@, p.pkgdesc) + rest3;
    let rest1 = render_kv("pkgver"@, p.pkgver) + rest2;
    let rest0 = render_kv("pkgbase"@, p.pkgbase) + rest1;
    let whole = render_kv("pkgname"@, p.pkgname) + rest0;
    assert(render_kv("pkgname"@, p.pkgname) + render_kv("pkgbase"@, p.pkgbase) + render_kv(
        "pkgver"@,
        p.pkgver,
    ) + render_kv("pkgdesc"@, p.pkgdesc) + render_kv("url"@, p.url) + rest =~= whole);
    let r1 = PkgInfoView { pkgname: p.pkgname, ..r };
    let r2 = PkgInfoView { pkgbase: p.pkgbase, ..r1 };
    let r3 = PkgInfoView { pkgver: p.pkgver, ..r2 };
    let r4 = PkgInfoView { pkgdesc: p.pkgdesc, ..r3 };
    let r5 = PkgInfoView { url: p.url, ..r4 };
    lemma_scalar_line(r, "pkgname"@, p.pkgname, rest0, r1);
    lemma_scalar_line(r1, "pkgbase"@, p.pkgbase, rest1, r2);
    lemma_scalar_line(r2, "pkgver"@, p.pkgver, rest2, r3);
    lemma_scalar_line(r3, "pkgdesc"@, p.pkgdesc, rest3, r4);
    lemma_scalar_line(r4, "url"@, p.url, rest4, r5);
}

/// The last four scalar lines parse back into their fields.
#[verifier::rlimit(100)]
proof fn lemma_pkginfo_scalars_b(r: PkgInfoView, p: PkgInfoView, rest: Seq<char>)
    requires
        pkginfo_renderable(p),
    ensures
        pkginfo_fold(
            r,
            lines_of(
                render_kv("builddate"@, i32_dec_str(p.builddate)) + render_kv(
                    "packager"@,
                    p.packager,
                ) + render_kv("size"@, i32_dec_str(p.size)) + render_kv("license"@, p.license)
                    + rest,
            ),
            0,
        ) == pkginfo_fold(
            (PkgInfoView {
                builddate: p.builddate,
                packager: p.packager,
                size: p.size,
                license: p.license,
                ..r
            }),
            lines_of(rest),
            0,
        ),
{
    lemma_pkginfo_key_steps();
    lemma_i32_str_clean(p.builddate);
    lemma_i32_str_clean(p.size);
    lemma_parse_render_i32(p.builddate);
    lemma_parse_render_i32(p.size);
    let rest8 = rest;
    let rest7 = render_kv("license"@, p.license) + rest8;
    let rest6 = render_kv("size"@, i32_dec_str(p.size)) + rest7;
    let rest5 = render_kv("packager"@, p.packager) + rest6;
    let whole = render_kv("builddate"@, i32_dec_str(p.builddate)) + rest5;
    assert(render_kv("builddate"@, i32_dec_str(p.builddate)) + render_kv("packager"@, p.packager)
        + render_kv("size"@, i32_dec_str(p.size)) + render_kv("license"@, p.license) + rest
        =~= whole);
    let r6 = PkgInfoView { builddate: p.builddate, ..r };
    let r7 = PkgInfoView { packager: p.packager, ..r6 };
    let r8 = PkgInfoView { size: p.size, ..r7 };
    let r9 = PkgInfoView { license: p.license, ..r8 };
    assert(pkginfo_key_step(r, "builddate"@, i32_dec_str(p.builddate)) == Ok::<
        PkgInfoView,
        ErrView,
    >(r6));
    lemma_scalar_line(r, "builddate"@, i32_dec_str(p.builddate), rest5, r6);
    lemma_scalar_line(r6, "packager"@, p.packager, rest6, r7);
    assert(pkginfo_key_step(r7, "size"@, i32_dec_str(p.size)) == Ok::<PkgInfoView, ErrView>(r8));
    lemma_scalar_line(r7, "size"@, i32_dec_str(p.size), rest7, r8);
    lemma_scalar_line(r8, "license"@, p.license, rest8, r9);
}

/// The nine scalar lines parse back into the scalar fields.
#[verifier::rlimit(100)]
proof fn lemma_pkginfo_scalars(p: PkgInfoView, rest: Seq<char>)
    requires
        pkginfo_renderable(p),
    ensures
        pkginfo_fold(init_pkginfo(), lines_of(pkginfo_scalar_text(p) + rest), 0) == pkginfo_fold(
            pkginfo_scalars_of(p),
            lines_of(rest),
            0,
        ),
{
    let restb = render_kv("builddate"@, i32_dec_str(p.builddate)) + render_kv(
        "packager"@,
        p.packager,
    ) + render_kv("size"@, i32_dec_str(p.size)) + render_kv("license"@, p.license) + rest;
    let texta = render_kv("pkgname"@, p.pkgname) + render_kv("pkgbase"@, p.pkgbase) + render_kv(
        "pkgver"@,
        p.pkgver,
    ) + render_kv("pkgdesc"@, p.pkgdesc) + render_kv("url"@, p.url) + restb;
    assert(pkginfo_scalar_text(p) + rest =~= texta);
    lemma_pkginfo_scalars_a(init_pkginfo(), p, restb);
    let ra = PkgInfoView {
        pkgname: p.pkgname,
        pkgbase: p.pkgbase,
        pkgver: p.pkgver,
        pkgdesc: p.pkgdesc,
        url: p.url,
        ..init_pkginfo()
    };
    lemma_pkginfo_scalars_b(ra, p, rest);
    let rb = PkgInfoView {
        builddate: p.builddate,
        packager: p.packager,
        size: p.size,
        license: p.license,
        ..ra
    };
    assert(rb == pkginfo_scalars_of(p));
}


/// The rendered lines of the `arch`, `conflict` and `provides` keys.
pub open spec fn pkginfo_list_text_a(p: PkgInfoView) -> Seq<char> {
    render_list("arch"@, p.arch, 0) + render_list("conflict"@, p.conflict, 0) + render_list(
        "provides"@,
        p.provides,
        0,
    )
}

/// `r` with `p`'s `arch`, `conflict` and `provides` members appended.
pub open spec fn pkginfo_with_lists_a(r: PkgInfoView, p: PkgInfoView) -> PkgInfoView {
    PkgInfoView {
        arch: r.arch + p.arch,
        conflict: r.conflict + p.conflict,
        provides: r.provides + p.provides,
        ..r
    }
}

/// Those three keys' rendered lines append exactly their members.
#[verifier::rlimit(100)]
proof fn lemma_pkginfo_lists_a(r: PkgInfoView, p: PkgInfoView, rest: Seq<char>)
    requires
        pkginfo_renderable(p),
    ensures
        pkginfo_fold(r, lines_of(pkginfo_list_text_a(p) + rest), 0) == pkginfo_fold(
            pkginfo_with_lists_a(r, p),
            lines_of(rest),
            0,
        ),
{
    lemma_pkginfo_key_steps();
    let rest2 = render_list("provides"@, p.provides, 0) + rest;
    let rest1 = render_list("conflict"@, p.conflict, 0) + rest2;
    let whole = render_list("arch"@, p.arch, 0) + rest1;
    assert(pkginfo_list_text_a(p) + rest =~= whole);
    let upd1 = (|a: PkgInfoView, v: Seq<char>| PkgInfoView { arch: a.arch.push(v), ..a });
    lemma_fold_list_generic("arch"@, upd1, r, p.arch, 0, rest1);
    lemma_list_upd_arch(upd1, r, p.arch, 0);
    let ra = PkgInfoView { arch: r.arch + p.arch.skip(0), ..r };
    let upd2 = (|a: PkgInfoView, v: Seq<char>| PkgInfoView { conflict: a.conflict.push(v), ..a });
    lemma_fold_list_generic("conflict"@, upd2, ra, p.conflict, 0, rest2);
    lemma_list_upd_conflict(upd2, ra, p.conflict, 0);
    let rb = PkgInfoView { conflict: ra.conflict + p.conflict.skip(0), ..ra };
    let upd3 = (|a: PkgInfoView, v: Seq<char>| PkgInfoView { provides: a.provides.push(v), ..a });
    lemma_fold_list_generic("provides"@, upd3, rb, p.provides, 0, rest);
    lemma_list_upd_provides(upd3, rb, p.provides, 0);
    let rc = PkgInfoView { provides: rb.provides + p.provides.skip(0), ..rb };
    assert(rc.arch =~= pkginfo_with_lists_a(r, p).arch);
    assert(rc.conflict =~= pkginfo_with_lists_a(r, p).conflict);
    assert(rc.provides =~= pkginfo_with_lists_a(r, p).provides);
    assert(rc == pkginfo_with_lists_a(r, p));
}

/// The rendered lines of the `depend`, `optdepend` and `makedepend` keys.
pub open spec fn pkginfo_list_text_b(p: PkgInfoView) -> Seq<char> {
    render_list("depend"@, p.depend, 0) + render_list("optdepend"@, p.optdepend, 0) + render_list(
        "makedepend"@,
        p.makedepend,
        0,
    )
}

/// `r` with `p`'s `depend`, `optdepend` and `makedepend` members appended.
pub open spec fn pkginfo_with_lists_b(r: PkgInfoView, p: PkgInfoView) -> PkgInfoView {
    PkgInfoView {
        depend: r.depend + p.depend,
        optdepend: r.optdepend + p.optdepend,
        makedepend: r.makedepend + p.makedepend,
        ..r
    }
}

/// Those three keys' rendered lines append exactly their members.
#[verifier::rlimit(100)]
proof fn lemma_pkginfo_lists_b(r: PkgInfoView, p: PkgInfoView, rest: Seq<char>)
    requires
        pkginfo_renderable(p),
    ensures
        pkginfo_fold(r, lines_of(pkginfo_list_text_b(p) + rest), 0) == pkginfo_fold(
            pkginfo_with_lists_b(r, p),
            lines_of(rest),
            0,
        ),
{
    lemma_pkginfo_key_steps();
    let rest2 = render_list("makedepend"@, p.makedepend, 0) + rest;
    let rest1 = render_list("optdepend"@, p.optdepend, 0) + rest2;
    let whole = render_list("depend"@, p.depend, 0) + rest1;
    assert(pkginfo_list_text_b(p) + rest =~= whole);
    let upd1 = (|a: PkgInfoView, v: Seq<char>| PkgInfoView { depend: a.depend.push(v), ..a });
    lemma_fold_list_generic("depend"@, upd1, r, p.depend, 0, rest1);
    lemma_list_upd_depend(upd1, r, p.depend, 0);
    let ra = PkgInfoView { depend: r.depend + p.depend.skip(0), ..r };
    let upd2 = (|a: PkgInfoView, v: Seq<char>| PkgInfoView { optdepend: a.optdepend.push(v), ..a });
    lemma_fold_list_generic("optdepend"@, upd2, ra, p.optdepend, 0, rest2);
    lemma_list_upd_optdepend(upd2, ra, p.optdepend, 0);
    let rb = PkgInfoView { optdepend: ra.optdepend + p.optdepend.skip(0), ..ra };
    let upd3 = (|a: PkgInfoView, v: Seq<char>| PkgInfoView { makedepend: a.makedepend.push(v), ..a });
    lemma_fold_list_generic("makedepend"@, upd3, rb, p.makedepend, 0, rest);
    lemma_list_upd_makedepend(upd3, rb, p.makedepend, 0);
    let rc = PkgInfoView { makedepend: rb.makedepend + p.makedepend.skip(0), ..rb };
    assert(rc.depend =~= pkginfo_with_lists_b(r, p).depend);
    assert(rc.optdepend =~= pkginfo_with_lists_b(r, p).optdepend);
    assert(rc.makedepend =~= pkginfo_with_lists_b(r, p).makedepend);
    assert(rc == pkginfo_with_lists_b(r, p));
}

/// The rendered lines of the `checkdepend`, `backup` and `group` keys.
pub open spec fn pkginfo_list_text_c(p: PkgInfoView) -> Seq<char> {
    render_list("checkdepend"@, p.checkdepend, 0) + render_list("backup"@, p.backup, 0) + render_list(
        "group"@,
        p.group,
        0,
    )
}

/// `r` with `p`'s `checkdepend`, `backup` and `group` members appended.
pub open spec fn pkginfo_with_lists_c(r: PkgInfoView, p: PkgInfoView) -> PkgInfoView {
    PkgInfoView {
        checkdepend: r.checkdepend + p.checkdepend,
        backup: r.backup + p.backup,
        group: r.group + p.group,
        ..r
    }
}

/// Those three keys' rendered lines append exactly their members.
#[verifier::rlimit(100)]
proof fn lemma_pkginfo_lists_c(r: PkgInfoView, p: PkgInfoView, rest: Seq<char>)
    requires
        pkginfo_renderable(p),
    ensures
        pkginfo_fold(r, lines_of(pkginfo_list_text_c(p) + rest), 0) == pkginfo_fold(
            pkginfo_with_lists_c(r, p),
            lines_of(rest),
            0,
        ),
{
    lemma_pkginfo_key_steps();
    let rest2 = render_list("group"@, p.group, 0) + rest;
    let rest1 = render_list("backup"@, p.backup, 0) + rest2;
    let whole = render_list("checkdepend"@, p.checkdepend, 0) + rest1;
    assert(pkginfo_list_text_c(p) + rest =~= whole);
    let upd1 = (|a: PkgInfoView, v: Seq<char>| PkgInfoView { checkdepend: a.checkdepend.push(v), ..a });
    lemma_fold_list_generic("checkdepend"@, upd1, r, p.checkdepend, 0, rest1);
    lemma_list_upd_checkdepend(upd1, r, p.checkdepend, 0);
    let ra = PkgInfoView { checkdepend: r.checkdepend + p.checkdepend.skip(0), ..r };
    let upd2 = (|a: PkgInfoView, v: Seq<char>| PkgInfoView { backup: a.backup.push(v), ..a });
    lemma_fold_list_generic("backup"@, upd2, ra, p.backup, 0, rest2);
    lemma_list_upd_backup(upd2, ra, p.backup, 0);
    let rb = PkgInfoView { backup: ra.backup + p.backup.skip(0), ..ra };
    let upd3 = (|a: PkgInfoView, v: Seq<char>| PkgInfoView { group: a.group.push(v), ..a });
    lemma_fold_list_generic("group"@, upd3, rb, p.group, 0, rest);
    lemma_list_upd_group(upd3, rb, p.group, 0);
    let rc = PkgInfoView { group: rb.group + p.group.skip(0), ..rb };
    assert(rc.checkdepend =~= pkginfo_with_lists_c(r, p).checkdepend);
    assert(rc.backup =~= pkginfo_with_lists_c(r, p).backup);
    assert(rc.group =~= pkginfo_with_lists_c(r, p).group);
    assert(rc == pkginfo_with_lists_c(r, p));
}

/// The rendered list lines append every list member of `p` to `r`.
#[verifier::rlimit(100)]
proof fn lemma_pkginfo_lists(r: PkgInfoView, p: PkgInfoView, rest: Seq<char>)
    requires
        pkginfo_renderable(p),
    ensures
        pkginfo_fold(r, lines_of(pkginfo_list_text(p) + rest), 0) == pkginfo_fold(
            pkginfo_with_lists(r, p),
            lines_of(rest),
            0,
        ),
{
    let restc = rest;
    let restb = pkginfo_list_text_c(p) + restc;
    let resta = pkginfo_list_text_b(p) + restb;
    let whole = pkginfo_list_text_a(p) + resta;
    assert(pkginfo_list_text(p) + rest =~= whole);
    lemma_pkginfo_lists_a(r, p, resta);
    let ra = pkginfo_with_lists_a(r, p);
    lemma_pkginfo_lists_b(ra, p, restb);
    let rb = pkginfo_with_lists_b(ra, p);
    lemma_pkginfo_lists_c(rb, p, restc);
    let rc = pkginfo_with_lists_c(rb, p);
    assert(rc == pkginfo_with_lists(r, p));
}

/// Rendering, then reparsing: for every record whose values are clean
/// and whose numbers fit, the regenerated text parses back to the very
/// same record.
pub proof fn lemma_pkginfo_round_trip(p: PkgInfoView)
    requires
        pkginfo_renderable(p),
    ensures
        parse_pkginfo_text(render_pkginfo(p)) == Ok::<PkgInfoView, ErrView>(p),
{
    lemma_pkginfo_scalars(p, pkginfo_list_text(p));
    lemma_pkginfo_lists(pkginfo_scalars_of(p), p, Seq::empty());
    assert(pkginfo_list_text(p) + Seq::<char>::empty() =~= pkginfo_list_text(p));
    assert(lines_of(Seq::<char>::empty()) =~= Seq::<Seq<char>>::empty());
    let q = pkginfo_with_lists(pkginfo_scalars_of(p), p);
    assert(q.arch =~= p.arch);
    assert(q.conflict =~= p.conflict);
    assert(q.provides =~= p.provides);
    assert(q.depend =~= p.depend);
    assert(q.optdepend =~= p.optdepend);
    assert(q.makedepend =~= p.makedepend);
    assert(q.checkdepend =~= p.checkdepend);
    assert(q.backup =~= p.backup);
    assert(q.group =~= p.group);
    assert(q == p);
}

/// Iterated updates of the `arch` list append its members.
proof fn lemma_list_upd_arch(
    upd: spec_fn(PkgInfoView, Seq<char>) -> PkgInfoView,
    r: PkgInfoView,
    vs: Seq<Seq<char>>,
    j: int,
)
    requires
        0 <= j <= vs.len(),
        forall|a: PkgInfoView, v: Seq<char>| #[trigger] upd(a, v) == (PkgInfoView {
            arch: a.arch.push(v),
            ..a
        }),
    ensures
        list_upd(upd, r, vs, j) == (PkgInfoView { arch: r.arch + vs.skip(j), ..r }),
    decreases vs.len() - j,
{
    if j == vs.len() {
        assert(r.arch + vs.skip(j) =~= r.arch);
        assert((PkgInfoView { arch: r.arch + vs.skip(j), ..r }) == r);
    } else {
        lemma_list_upd_arch(upd, upd(r, vs[j]), vs, j + 1);
        assert(upd(r, vs[j]).arch + vs.skip(j + 1) =~= r.arch + vs.skip(j));
        assert(list_upd(upd, r, vs, j) == (PkgInfoView { arch: r.arch + vs.skip(j), ..r }));
    }
}

/// Iterated updates of the `conflict` list append its members.
proof fn lemma_list_upd_conflict(
    upd: spec_fn(PkgInfoView, Seq<char>) -> PkgInfoView,
    r: PkgInfoView,
    vs: Seq<Seq<char>>,
    j: int,
)
    requires
        0 <= j <= vs.len(),
        forall|a: PkgInfoView, v: Seq<char>| #[trigger] upd(a, v) == (PkgInfoView {
            conflict: a.conflict.push(v),
            ..a
        }),
    ensures
        list_upd(upd, r, vs, j) == (PkgInfoView { conflict: r.conflict + vs.skip(j), ..r }),
    decreases vs.len() - j,
{
    if j == vs.len() {
        assert(r.conflict + vs.skip(j) =~= r.conflict);
        assert((PkgInfoView { conflict: r.conflict + vs.skip(j), ..r }) == r);
    } else {
        lemma_list_upd_conflict(upd, upd(r, vs[j]), vs, j + 1);
        assert(upd(r, vs[j]).conflict + vs.skip(j + 1) =~= r.conflict + vs.skip(j));
        assert(list_upd(upd, r, vs, j) == (PkgInfoView { conflict: r.conflict + vs.skip(j), ..r }));
    }
}

/// Iterated updates of the `provides` list append its members.
proof fn lemma_list_upd_provides(
    upd: spec_fn(PkgInfoView, Seq<char>) -> PkgInfoView,
    r: PkgInfoView,
    vs: Seq<Seq<char>>,
    j: int,
)
    requires
        0 <= j <= vs.len(),
        forall|a: PkgInfoView, v: Seq<char>| #[trigger] upd(a, v) == (PkgInfoView {
            provides: a.provides.push(v),
            ..a
        }),
    ensures
        list_upd(upd, r, vs, j) == (PkgInfoView { provides: r.provides + vs.skip(j), ..r }),
    decreases vs.len() - j,
{
    if j == vs.len() {
        assert(r.provides + vs.skip(j) =~= r.provides);
        assert((PkgInfoView { provides: r.provides + vs.skip(j), ..r }) == r);
    } else {
        lemma_list_upd_provides(upd, upd(r, vs[j]), vs, j + 1);
        assert(upd(r, vs[j]).provides + vs.skip(j + 1) =~= r.provides + vs.skip(j));
        assert(list_upd(upd, r, vs, j) == (PkgInfoView { provides: r.provides + vs.skip(j), ..r }));
    }
}

/// Iterated updates of the `depend` list append its members.
proof fn lemma_list_upd_depend(
    upd: spec_fn(PkgInfoView, Seq<char>) -> PkgInfoView,
    r: PkgInfoView,
    vs: Seq<Seq<char>>,
    j: int,
)
    requires
        0 <= j <= vs.len(),
        forall|a: PkgInfoView, v: Seq<char>| #[trigger] upd(a, v) == (PkgInfoView {
            depend: a.depend.push(v),
            ..a
        }),
    ensures
        list_upd(upd, r, vs, j) == (PkgInfoView { depend: r.depend + vs.skip(j), ..r }),
    decreases vs.len() - j,
{
    if j == vs.len() {
        assert(r.depend + vs.skip(j) =~= r.depend);
        assert((PkgInfoView { depend: r.depend + vs.skip(j), ..r }) == r);
    } else {
        lemma_list_upd_depend(upd, upd(r, vs[j]), vs, j + 1);
        assert(upd(r, vs[j]).depend + vs.skip(j + 1) =~= r.depend + vs.skip(j));
        assert(list_upd(upd, r, vs, j) == (PkgInfoView { depend: r.depend + vs.skip(j), ..r }));
    }
}

/// Iterated updates of the `optdepend` list append its members.
proof fn lemma_list_upd_optdepend(
    upd: spec_fn(PkgInfoView, Seq<char>) -> PkgInfoView,
    r: PkgInfoView,
    vs: Seq<Seq<char>>,
    j: int,
)
    requires
        0 <= j <= vs.len(),
        forall|a: PkgInfoView, v: Seq<char>| #[trigger] upd(a, v) == (PkgInfoView {
            optdepend: a.optdepend.push(v),
            ..a
        }),
    ensures
        list_upd(upd, r, vs, j) == (PkgInfoView { optdepend: r.optdepend + vs.skip(j), ..r }),
    decreases vs.len() - j,
{
    if j == vs.len() {
        assert(r.optdepend + vs.skip(j) =~= r.optdepend);
        assert((PkgInfoView { optdepend: r.optdepend + vs.skip(j), ..r }) == r);
    } else {
        lemma_list_upd_optdepend(upd, upd(r, vs[j]), vs, j + 1);
        assert(upd(r, vs[j]).optdepend + vs.skip(j + 1) =~= r.optdepend + vs.skip(j));
        assert(list_upd(upd, r, vs, j) == (PkgInfoView { optdepend: r.optdepend + vs.skip(j), ..r }));
    }
}

/// Iterated updates of the `makedepend` list append its members.
proof fn lemma_list_upd_makedepend(
    upd: spec_fn(PkgInfoView, Seq<char>) -> PkgInfoView,
    r: PkgInfoView,
    vs: Seq<Seq<char>>,
    j: int,
)
    requires
        0 <= j <= vs.len(),
        forall|a: PkgInfoView, v: Seq<char>| #[trigger] upd(a, v) == (PkgInfoView {
            makedepend: a.makedepend.push(v),
            ..a
        }),
    ensures
        list_upd(upd, r, vs, j) == (PkgInfoView { makedepend: r.makedepend + vs.skip(j), ..r }),
    decreases vs.len() - j,
{
    if j == vs.len() {
        assert(r.makedepend + vs.skip(j) =~= r.makedepend);
        assert((PkgInfoView { makedepend: r.makedepend + vs.skip(j), ..r }) == r);
    } else {
        lemma_list_upd_makedepend(upd, upd(r, vs[j]), vs, j + 1);
        assert(upd(r, vs[j]).makedepend + vs.skip(j + 1) =~= r.makedepend + vs.skip(j));
        assert(list_upd(upd, r, vs, j) == (PkgInfoView { makedepend: r.makedepend + vs.skip(j), ..r }));
    }
}

/// Iterated updates of the `checkdepend` list append its members.
proof fn lemma_list_upd_checkdepend(
    upd: spec_fn(PkgInfoView, Seq<char>) -> PkgInfoView,
    r: PkgInfoView,
    vs: Seq<Seq<char>>,
    j: int,
)
    requires
        0 <= j <= vs.len(),
        forall|a: PkgInfoView, v: Seq<char>| #[trigger] upd(a, v) == (PkgInfoView {
            checkdepend: a.checkdepend.push(v),
            ..a
        }),
    ensures
        list_upd(upd, r, vs, j) == (PkgInfoView { checkdepend: r.checkdepend + vs.skip(j), ..r }),
    decreases vs.len() - j,
{
    if j == vs.len() {
        assert(r.checkdepend + vs.skip(j) =~= r.checkdepend);
        assert((PkgInfoView { checkdepend: r.checkdepend + vs.skip(j), ..r }) == r);
    } else {
        lemma_list_upd_checkdepend(upd, upd(r, vs[j]), vs, j + 1);
        assert(upd(r, vs[j]).checkdepend + vs.skip(j + 1) =~= r.checkdepend + vs.skip(j));
        assert(list_upd(upd, r, vs, j) == (PkgInfoView { checkdepend: r.checkdepend + vs.skip(j), ..r }));
    }
}

/// Iterated updates of the `backup` list append its members.
proof fn lemma_list_upd_backup(
    upd: spec_fn(PkgInfoView, Seq<char>) -> PkgInfoView,
    r: PkgInfoView,
    vs: Seq<Seq<char>>,
    j: int,
)
    requires
        0 <= j <= vs.len(),
        forall|a: PkgInfoView, v: Seq<char>| #[trigger] upd(a, v) == (PkgInfoView {
            backup: a.backup.push(v),
            ..a
        }),
    ensures
        list_upd(upd, r, vs, j) == (PkgInfoView { backup: r.backup + vs.skip(j), ..r }),
    decreases vs.len() - j,
{
    if j == vs.len() {
        assert(r.backup + vs.skip(j) =~= r.backup);
        assert((PkgInfoView { backup: r.backup + vs.skip(j), ..r }) == r);
    } else {
        lemma_list_upd_backup(upd, upd(r, vs[j]), vs, j + 1);
        assert(upd(r, vs[j]).backup + vs.skip(j + 1) =~= r.backup + vs.skip(j));
        assert(list_upd(upd, r, vs, j) == (PkgInfoView { backup: r.backup + vs.skip(j), ..r }));
    }
}

/// Iterated updates of the `group` list append its members.
proof fn lemma_list_upd_group(
    upd: spec_fn(PkgInfoView, Seq<char>) -> PkgInfoView,
    r: PkgInfoView,
    vs: Seq<Seq<char>>,
    j: int,
)
    requires
        0 <= j <= vs.len(),
        forall|a: PkgInfoView, v: Seq<char>| #[trigger] upd(a, v) == (PkgInfoView {
            group: a.group.push(v),
            ..a
        }),
    ensures
        list_upd(upd, r, vs, j) == (PkgInfoView { group: r.group + vs.skip(j), ..r }),
    decreases vs.len() - j,
{
    if j == vs.len() {
        assert(r.group + vs.skip(j) =~= r.group);
        assert((PkgInfoView { group: r.group + vs.skip(j), ..r }) == r);
    } else {
        lemma_list_upd_group(upd, upd(r, vs[j]), vs, j + 1);
        assert(upd(r, vs[j]).group + vs.skip(j + 1) =~= r.group + vs.skip(j));
        assert(list_upd(upd, r, vs, j) == (PkgInfoView { group: r.group + vs.skip(j), ..r }));
    }
}

/// What holds of every record the parser can produce: every string is
/// free of line feeds and of the delimiter, and the numbers fit `i32`.
pub open spec fn pkginfo_core_clean(p: PkgInfoView) -> bool {
    &&& clean_core(p.pkgname)
    &&& clean_core(p.pkgbase)
    &&& clean_core(p.pkgver)
    &&& clean_core(p.pkgdesc)
    &&& clean_core(p.url)
    &&& clean_core(p.packager)
    &&& clean_core(p.license)
    &&& i32::MIN <= p.builddate <= i32::MAX
    &&& i32::MIN <= p.size <= i32::MAX
    &&& core_values(p.arch)
    &&& core_values(p.conflict)
    &&& core_values(p.provides)
    &&& core_values(p.depend)
    &&& core_values(p.optdepend)
    &&& core_values(p.makedepend)
    &&& core_values(p.checkdepend)
    &&& core_values(p.backup)
    &&& core_values(p.group)
}

/// No value of the record ends in a carriage return: the one family of
/// accepted inputs whose regenerated text reparses differently, since a
/// carriage return just before a line feed is stripped.
pub open spec fn pkginfo_cr_free(p: PkgInfoView) -> bool {
    &&& (p.pkgname.len() > 0 ==> p.pkgname[p.pkgname.len() - 1] != '\r')
    &&& (p.pkgbase.len() > 0 ==> p.pkgbase[p.pkgbase.len() - 1] != '\r')
    &&& (p.pkgver.len() > 0 ==> p.pkgver[p.pkgver.len() - 1] != '\r')
    &&& (p.pkgdesc.len() > 0 ==> p.pkgdesc[p.pkgdesc.len() - 1] != '\r')
    &&& (p.url.len() > 0 ==> p.url[p.url.len() - 1] != '\r')
    &&& (p.packager.len() > 0 ==> p.packager[p.packager.len() - 1] != '\r')
    &&& (p.license.len() > 0 ==> p.license[p.license.len() - 1] != '\r')
    &&& cr_free_values(p.arch)
    &&& cr_free_values(p.conflict)
    &&& cr_free_values(p.provides)
    &&& cr_free_values(p.depend)
    &&& cr_free_values(p.optdepend)
    &&& cr_free_values(p.makedepend)
    &&& cr_free_values(p.checkdepend)
    &&& cr_free_values(p.backup)
    &&& cr_free_values(p.group)
}

/// One accepted line keeps the record clean.
#[verifier::rlimit(100)]
proof fn lemma_pkginfo_step_clean(r: PkgInfoView, line: Seq<char>)
    requires
        pkginfo_core_clean(r),
        forall|t: int| 0 <= t < line.len() ==> line[t] != '\n',
        pkginfo_step(r, line) is Ok,
    ensures
        pkginfo_core_clean(pkginfo_step(r, line)->Ok_0),
{
    if line.len() == 0 || line[0] == '#' {
    } else {
        match split_kv(line) {
            None => {},
            Some(kv) => {
                lemma_split_kv_value_clean(line);
                let v = kv.1;
                assert(clean_core(v));
                lemma_core_values_push(r.arch, v);
                lemma_core_values_push(r.conflict, v);
                lemma_core_values_push(r.provides, v);
                lemma_core_values_push(r.depend, v);
                lemma_core_values_push(r.optdepend, v);
                lemma_core_values_push(r.makedepend, v);
                lemma_core_values_push(r.checkdepend, v);
                lemma_core_values_push(r.backup, v);
                lemma_core_values_push(r.group, v);
            },
        }
    }
}

/// An accepted fold keeps the record clean.
proof fn lemma_pkginfo_fold_clean(r: PkgInfoView, lines: Seq<Seq<char>>, i: int)
    requires
        pkginfo_core_clean(r),
        0 <= i,
        forall|k: int, t: int|
            0 <= k < lines.len() && 0 <= t < lines[k].len() ==> #[trigger] lines[k][t] != '\n',
        pkginfo_fold(r, lines, i) is Ok,
    ensures
        pkginfo_core_clean(pkginfo_fold(r, lines, i)->Ok_0),
    decreases lines.len() - i,
{
    if i < lines.len() {
        assert(forall|t: int| 0 <= t < lines[i].len() ==> lines[i][t] != '\n');
        match pkginfo_step(r, lines[i]) {
            Ok(r2) => {
                lemma_pkginfo_step_clean(r, lines[i]);
                lemma_pkginfo_fold_clean(r2, lines, i + 1);
            },
            Err(_) => {},
        }
    }
}

/// Every record the parser returns is clean: its strings hold no line
/// feed and no delimiter, and its numbers fit `i32`.
pub proof fn lemma_pkginfo_parse_clean(t: Seq<char>)
    requires
        parse_pkginfo_text(t) is Ok,
    ensures
        pkginfo_core_clean(parse_pkginfo_text(t)->Ok_0),
{
    lemma_lines_no_newline(t, 0);
    lemma_pkginfo_fold_clean(init_pkginfo(), lines_of(t), 0);
}

/// The round trip over accepted text: whatever record some metadata
/// text parses to, the regenerated text parses back to that record —
/// for every record none of whose values ends in a carriage return.
pub proof fn lemma_pkginfo_text_round_trip(t: Seq<char>, p: PkgInfoView)
    requires
        parse_pkginfo_text(t) == Ok::<PkgInfoView, ErrView>(p),
        pkginfo_cr_free(p),
    ensures
        parse_pkginfo_text(render_pkginfo(p)) == Ok::<PkgInfoView, ErrView>(p),
{
    lemma_pkginfo_parse_clean(t);
    assert(pkginfo_renderable(p));
    lemma_pkginfo_round_trip(p);
}

} // verus!
