//! The package aggregate: a validated candidate directory wrapped into a
//! `Pkg` with its metadata, optional build record, manifest bytes, file
//! list and derived executable view.

use vstd::prelude::*;

use crate::buildinfo::parse_buildinfo_bytes;
use crate::buildinfo::BuildInfo;
use crate::buildinfo::BuildInfoView;
use crate::error::AetherError;
use crate::error::ErrView;
use crate::manifest::MTree;
use crate::pkginfo::parse_pkginfo_bytes;
use crate::pkginfo::PkgInfo;
use crate::pkginfo::PkgInfoView;
use crate::text::clone_bytes;
use crate::text::clone_strings;
use crate::text::find_char;
use crate::text::find_char_at;
use crate::text::str_eq;
use crate::text::str_starts_with;
use crate::text::vec_contains_str;

verus! {

/// Spec-level image of a [`PkgDir`] snapshot.
pub struct PkgDirView {
    pub path: Seq<char>,
    pub entries: Seq<Seq<char>>,
    pub files: Seq<Seq<char>>,
    pub pkginfo: Option<Seq<u8>>,
    pub buildinfo: Option<Seq<u8>>,
    pub mtree: Option<Seq<u8>>,
}

/// What a single reading of a candidate package directory found: the
/// directory's own entry names, every path the recursive walk collected,
/// and the payloads of the three well-known files where they could be
/// read (for the manifest: read and decompressed).
#[derive(Clone, Debug)]
pub struct PkgDir {
    pub path: String,
    pub entries: Vec<String>,
    pub files: Vec<String>,
    pub pkginfo: Option<Vec<u8>>,
    pub buildinfo: Option<Vec<u8>>,
    pub mtree: Option<Vec<u8>>,
}

impl View for PkgDir {
    type V = PkgDirView;

    open spec fn view(&self) -> PkgDirView {
        PkgDirView {
            path: self.path@,
            entries: self.entries.deep_view(),
            files: self.files.deep_view(),
            pkginfo: match self.pkginfo {
                Some(ref b) => Some(b@),
                None => None,
            },
            buildinfo: match self.buildinfo {
                Some(ref b) => Some(b@),
                None => None,
            },
            mtree: match self.mtree {
                Some(ref b) => Some(b@),
                None => None,
            },
        }
    }
}

impl DeepView for PkgDir {
    type V = PkgDirView;

    open spec fn deep_view(&self) -> PkgDirView {
        self.view()
    }
}

/// The four validity checks, in order, short-circuiting at the first
/// failure: some entry exists; the manifest and metadata files exist
/// under their fixed names; the manifest was read and decompressed; the
/// metadata parses.
pub open spec fn validate_dir(d: PkgDirView) -> Result<(), ErrView> {
    if d.entries.len() == 0 {
        Err(ErrView::InvalidPkg { path: d.path, note: "no data"@ })
    } else if !d.entries.contains(".MTREE"@) {
        Err(ErrView::InvalidPkg { path: d.path, note: "missing .MTREE file"@ })
    } else if !d.entries.contains(".PKGINFO"@) {
        Err(ErrView::InvalidPkg { path: d.path, note: "missing .PKGINFO file"@ })
    } else if d.mtree is None {
        Err(ErrView::InvalidPkg { path: d.path, note: "invalid .MTREE file"@ })
    } else if !(d.pkginfo matches Some(b) && parse_pkginfo_bytes(b) is Ok) {
        Err(ErrView::InvalidPkg { path: d.path, note: "invalid .PKGINFO file"@ })
    } else {
        Ok(())
    }
}

/// Spec-level image of a [`Pkg`].
pub struct PkgView {
    pub files: Seq<Seq<char>>,
    pub buildinfo: Option<BuildInfoView>,
    pub mtree: Seq<u8>,
    pub pkginfo: PkgInfoView,
    pub path: Seq<char>,
}

/// A single package: only built from a directory that passed validation,
/// so every live `Pkg` has parseable metadata and a readable manifest.
#[derive(Clone, Debug, PartialEq, Eq)]
pub struct Pkg {
    pub files: Vec<String>,
    pub buildinfo: Option<BuildInfo>,
    pub mtree: MTree,
    pub pkginfo: PkgInfo,
    pub path: String,
}

impl View for Pkg {
    type V = PkgView;

    open spec fn view(&self) -> PkgView {
        PkgView {
            files: self.files.deep_view(),
            buildinfo: match self.buildinfo {
                Some(ref b) => Some(b@),
                None => None,
            },
            mtree: self.mtree@,
            pkginfo: self.pkginfo@,
            path: self.path@,
        }
    }
}

impl DeepView for Pkg {
    type V = PkgView;

    open spec fn deep_view(&self) -> PkgView {
        self.view()
    }
}

/// What constructing a package from a directory snapshot returns: the
/// first validation error, or the fully populated package. An absent or
/// unparseable build record is tolerated and left out.
pub open spec fn pkg_from_dir(d: PkgDirView) -> Result<PkgView, ErrView> {
    match validate_dir(d) {
        Err(e) => Err(e),
        Ok(()) => Ok(
            PkgView {
                files: d.files,
                buildinfo: match d.buildinfo {
                    Some(b) => match parse_buildinfo_bytes(b) {
                        Ok(bi) => Some(bi),
                        Err(_) => None,
                    },
                    None => None,
                },
                mtree: match d.mtree {
                    Some(b) => b,
                    None => Seq::empty(),
                },
                pkginfo: match d.pkginfo {
                    Some(b) => match parse_pkginfo_bytes(b) {
                        Ok(p) => p,
                        Err(_) => crate::pkginfo::init_pkginfo(),
                    },
                    None => crate::pkginfo::init_pkginfo(),
                },
                path: d.path,
            },
        ),
    }
}

/// Validation and construction agree exactly: building a package
/// succeeds precisely where standalone validation does, with the same
/// error otherwise.
pub proof fn lemma_validate_construct_agree(d: PkgDirView)
    ensures
        pkg_from_dir(d) is Ok <==> validate_dir(d) is Ok,
        pkg_from_dir(d) matches Err(e) ==> validate_dir(d) == Err::<(), ErrView>(e),
{
}

/// The one-line account of a package: name, version, description, size.
pub open spec fn pkg_display_chars(p: PkgView) -> Seq<char> {
    "Pkg { name: "@ + p.pkginfo.pkgname + ", version: "@ + p.pkginfo.pkgver + ", desc: "@
        + p.pkginfo.pkgdesc + ", size: "@ + crate::text::i32_dec_str(p.pkginfo.size) + " }"@
}

/// The reference string of a name and version: the name, one dash, the
/// version, nothing else.
pub open spec fn refstr_chars(name: Seq<char>, ver: Seq<char>) -> Seq<char> {
    name + seq!['-'] + ver
}

/// Index of the last occurrence of `c` in `s`, or `-1`.
pub open spec fn find_last_char(s: Seq<char>, c: char) -> int
    decreases s.len(),
{
    if s.len() == 0 {
        -1
    } else if s.last() == c {
        s.len() - 1
    } else {
        find_last_char(s.drop_last(), c)
    }
}

/// The file name of a path: what follows the last slash; `None` for an
/// empty name and for the `.` and `..` components.
pub open spec fn base_name(f: Seq<char>) -> Option<Seq<char>> {
    let t = f.skip(find_last_char(f, '/') + 1);
    if t.len() == 0 || t == "."@ || t == ".."@ {
        None
    } else {
        Some(t)
    }
}

proof fn lemma_find_last_char(s: Seq<char>, c: char)
    ensures
        -1 <= find_last_char(s, c) < s.len(),
        find_last_char(s, c) >= 0 ==> s[find_last_char(s, c)] == c,
        forall|k: int| find_last_char(s, c) < k < s.len() ==> s[k] != c,
    decreases s.len(),
{
    if s.len() > 0 && s.last() != c {
        lemma_find_last_char(s.drop_last(), c);
        assert(forall|k: int| 0 <= k < s.len() - 1 ==> s[k] == s.drop_last()[k]);
    }
}

/// The file name of a path string, per [`base_name`].
pub fn base_name_of(f: &str) -> (r: Option<String>)
    ensures
        r is None <==> base_name(f@) is None,
        r matches Some(n) ==> base_name(f@) == Some(n@),
{
    let nf = f.unicode_len();
    let mut j = nf;
    proof {
        assert(f@.take(nf as int) =~= f@);
    }
    while j > 0
        invariant
            j <= nf,
            nf == f@.len(),
            find_last_char(f@, '/') == find_last_char(f@.take(j as int), '/'),
        ensures
            j <= nf,
            find_last_char(f@, '/') == j - 1,
        decreases j,
    {
        if f.get_char(j - 1) == '/' {
            proof {
                assert(f@.take(j as int).last() == f@[j as int - 1]);
            }
            break;
        }
        proof {
            assert(f@.take(j as int).drop_last() =~= f@.take(j - 1 as int));
        }
        j = j - 1;
        proof {
            if j == 0 {
                assert(f@.take(0) =~= Seq::<char>::empty());
            }
        }
    }
    proof {
        assert(f@.skip(j as int) =~= f@.skip(find_last_char(f@, '/') + 1));
    }
    let t = f.substring_char(j, nf).to_owned();
    if t.as_str().unicode_len() == 0 {
        return None;
    }
    if str_eq(t.as_str(), ".") || str_eq(t.as_str(), "..") {
        return None;
    }
    Some(t)
}

/// The entry name of `f` if `f` lies directly inside directory `d`.
pub open spec fn dir_child_name(f: Seq<char>, d: Seq<char>) -> Option<Seq<char>> {
    if f.len() > d.len() + 1 && f.take(d.len() + 1 as int) == d + seq!['/'] && find_char(
        f,
        '/',
        d.len() + 1 as int,
    ) == f.len() {
        Some(f.skip(d.len() + 1 as int))
    } else {
        None
    }
}

/// The names of the members of `files[i..]` that lie directly inside
/// directory `d`, in file order.
pub open spec fn execs_from(files: Seq<Seq<char>>, d: Seq<char>, i: int) -> Seq<Seq<char>>
    decreases files.len() - i,
{
    if i < 0 || i >= files.len() {
        Seq::empty()
    } else {
        match dir_child_name(files[i], d) {
            Some(n) => seq![n] + execs_from(files, d, i + 1),
            None => execs_from(files, d, i + 1),
        }
    }
}

/// The discovered executables of a package: the entries of its
/// `usr/bin` and `bin` subdirectories, in that order, not deduplicated.
pub open spec fn exec_names(p: PkgView) -> Seq<Seq<char>> {
    execs_from(p.files, p.path + "/usr/bin"@, 0) + execs_from(p.files, p.path + "/bin"@, 0)
}

/// The entry name of `f` if `f` lies directly inside `d`, per
/// [`dir_child_name`].
fn child_name(f: &str, d: &str) -> (r: Option<String>)
    ensures
        r is None <==> dir_child_name(f@, d@) is None,
        r matches Some(n) ==> dir_child_name(f@, d@) == Some(n@),
{
    let nf = f.unicode_len();
    let nd = d.unicode_len();
    if nf <= nd || nf - nd < 2 {
        return None;
    }
    if !str_starts_with(f, d) {
        proof {
            assert(f@.take(nd + 1 as int).take(nd as int) =~= f@.take(nd as int));
            assert((d@ + seq!['/']).take(nd as int) =~= d@);
            assert(f@.take(nd + 1 as int) != d@ + seq!['/']);
        }
        return None;
    }
    if f.get_char(nd) != '/' {
        proof {
            assert((d@ + seq!['/'])[nd as int] == '/');
            assert(f@.take(nd + 1 as int)[nd as int] == f@[nd as int]);
            assert(f@.take(nd + 1 as int) != d@ + seq!['/']);
        }
        return None;
    }
    proof {
        assert(f@.take(nd + 1 as int) =~= d@ + seq!['/']);
    }
    let e = find_char_at(f, '/', nd + 1);
    if e != nf {
        proof {
            crate::text::lemma_find_char(f@, '/', nd + 1 as int);
        }
        return None;
    }
    Some(f.substring_char(nd + 1, nf).to_owned())
}

/// Append the names of the members of `files` directly inside `d`.
fn collect_execs(files: &Vec<String>, d: &str, out: &mut Vec<String>)
    ensures
        final(out).deep_view() == old(out).deep_view() + execs_from(files.deep_view(), d@, 0),
{
    let ghost fv = files.deep_view();
    let ghost base = old(out).deep_view();
    let n = files.len();
    let mut i: usize = 0;
    while i < n
        invariant
            n == files.len(),
            i <= n,
            fv == files.deep_view(),
            base + execs_from(fv, d@, 0) == out.deep_view() + execs_from(fv, d@, i as int),
        decreases n - i,
    {
        proof {
            assert(fv[i as int] == files@[i as int]@);
        }
        let ghost prev = out.deep_view();
        match child_name(files[i].as_str(), d) {
            Some(name) => {
                let ghost nv = name@;
                out.push(name);
                proof {
                    assert(out.deep_view() =~= prev.push(nv));
                    assert(execs_from(fv, d@, i as int) =~= seq![nv] + execs_from(
                        fv,
                        d@,
                        i + 1 as int,
                    ));
                    assert(prev + execs_from(fv, d@, i as int) =~= out.deep_view() + execs_from(
                        fv,
                        d@,
                        i + 1 as int,
                    ));
                }
            },
            None => {},
        }
        i = i + 1;
    }
    proof {
        assert(execs_from(fv, d@, n as int) =~= Seq::<Seq<char>>::empty());
        assert(final(out).deep_view() =~= base + execs_from(fv, d@, 0));
    }
}

/// One name-check fold shared by `check_files` and `check_execs`: walk
/// `names[i..]`, sorting each into `checked` (present) or `missing`.
pub open spec fn presence_fold(
    names: Seq<Seq<char>>,
    present: Seq<Seq<char>>,
    i: int,
    checked: Seq<Seq<char>>,
    missing: Seq<Seq<char>>,
) -> (Seq<Seq<char>>, Seq<Seq<char>>)
    decreases names.len() - i,
{
    if i < 0 || i >= names.len() {
        (checked, missing)
    } else if present.contains(names[i]) {
        presence_fold(names, present, i + 1, checked.push(names[i]), missing)
    } else {
        presence_fold(names, present, i + 1, checked, missing.push(names[i]))
    }
}

/// The file names of `files[i..]`, or `None` when some member has no
/// file name.
pub open spec fn base_names_from(files: Seq<Seq<char>>, i: int) -> Option<Seq<Seq<char>>>
    decreases files.len() - i,
{
    if i < 0 || i >= files.len() {
        Some(Seq::empty())
    } else {
        match base_name(files[i]) {
            None => None,
            Some(n) => match base_names_from(files, i + 1) {
                None => None,
                Some(rest) => Some(seq![n] + rest),
            },
        }
    }
}

/// What `check_files` returns: `Unknown` when some recorded file has no
/// file name; else the present names when none is missing, or
/// `MissingFile` carrying every absent name.
pub open spec fn check_files_spec(p: PkgView, present: Seq<Seq<char>>) -> Result<
    Seq<Seq<char>>,
    ErrView,
> {
    match base_names_from(p.files, 0) {
        None => Err(ErrView::Unknown),
        Some(names) => {
            let r = presence_fold(names, present, 0, Seq::empty(), Seq::empty());
            if r.1.len() == 0 {
                Ok(r.0)
            } else {
                Err(ErrView::MissingFile(r.1))
            }
        },
    }
}

/// What `check_execs` returns: the present executable names when none
/// is missing, or `MissingExec` carrying every absent name.
pub open spec fn check_execs_spec(p: PkgView, present: Seq<Seq<char>>) -> Result<
    Seq<Seq<char>>,
    ErrView,
> {
    let r = presence_fold(exec_names(p), present, 0, Seq::empty(), Seq::empty());
    if r.1.len() == 0 {
        Ok(r.0)
    } else {
        Err(ErrView::MissingExec(r.1))
    }
}

impl Pkg {
    /// Validate a candidate directory snapshot without keeping anything,
    /// per [`validate_dir`].
    pub fn is_valid_dir(d: &PkgDir) -> (r: Result<(), AetherError>)
        ensures
            r is Ok <==> validate_dir(d@) is Ok,
            r matches Err(e) ==> validate_dir(d@) == Err::<(), ErrView>(e@),
    {
        if d.entries.len() == 0 {
            return Err(
                AetherError::InvalidPkg { path: d.path.clone(), note: "no data".to_owned() },
            );
        }
        if !vec_contains_str(&d.entries, ".MTREE") {
            return Err(
                AetherError::InvalidPkg {
                    path: d.path.clone(),
                    note: "missing .MTREE file".to_owned(),
                },
            );
        }
        if !vec_contains_str(&d.entries, ".PKGINFO") {
            return Err(
                AetherError::InvalidPkg {
                    path: d.path.clone(),
                    note: "missing .PKGINFO file".to_owned(),
                },
            );
        }
        match d.mtree {
            None => {
                return Err(
                    AetherError::InvalidPkg {
                        path: d.path.clone(),
                        note: "invalid .MTREE file".to_owned(),
                    },
                );
            },
            Some(_) => {},
        }
        match d.pkginfo {
            None => {
                return Err(
                    AetherError::InvalidPkg {
                        path: d.path.clone(),
                        note: "invalid .PKGINFO file".to_owned(),
                    },
                );
            },
            Some(ref bytes) => {
                match PkgInfo::parse(bytes.as_slice()) {
                    Ok(_) => {},
                    Err(_) => {
                        return Err(
                            AetherError::InvalidPkg {
                                path: d.path.clone(),
                                note: "invalid .PKGINFO file".to_owned(),
                            },
                        );
                    },
                }
            },
        }
        Ok(())
    }

    /// Build a package from a candidate directory snapshot, per
    /// [`pkg_from_dir`]: the same checks as [`Pkg::is_valid_dir`], keeping
    /// their intermediate results.
    pub fn from_dir(d: &PkgDir) -> (r: Result<Pkg, AetherError>)
        ensures
            r matches Ok(p) ==> pkg_from_dir(d@) == Ok::<PkgView, ErrView>(p@),
            r matches Err(e) ==> pkg_from_dir(d@) == Err::<PkgView, ErrView>(e@),
    {
        match Pkg::is_valid_dir(d) {
            Err(e) => {
                return Err(e);
            },
            Ok(()) => {},
        }
        let files = clone_strings(&d.files);
        let buildinfo = match d.buildinfo {
            Some(ref b) => match BuildInfo::parse(b.as_slice()) {
                Ok(bi) => Some(bi),
                Err(_) => None,
            },
            None => None,
        };
        let mtree = match d.mtree {
            Some(ref b) => MTree::new(clone_bytes(b)),
            None => {
                return Err(AetherError::Unknown);
            },
        };
        let pkginfo = match d.pkginfo {
            Some(ref b) => match PkgInfo::parse(b.as_slice()) {
                Ok(p) => p,
                Err(e) => {
                    return Err(e);
                },
            },
            None => {
                return Err(AetherError::Unknown);
            },
        };
        Ok(Pkg { files, buildinfo, mtree, pkginfo, path: d.path.clone() })
    }

    /// The package's identity key: `"{pkgname}-{pkgver}"`, nothing more.
    pub fn get_refstr(&self) -> (r: String)
        ensures
            r@ == refstr_chars(self.pkginfo.pkgname@, self.pkginfo.pkgver@),
    {
        let mut out = self.pkginfo.pkgname.clone();
        out.append("-");
        out.append(self.pkginfo.pkgver.as_str());
        proof {
            reveal_strlit("-");
            assert("-"@ =~= seq!['-']);
            assert(out@ =~= refstr_chars(self.pkginfo.pkgname@, self.pkginfo.pkgver@));
        }
        out
    }

    /// The one-line account of the package: name, version, description
    /// and size, per [`pkg_display_chars`].
    pub fn display_string(&self) -> (r: String)
        ensures
            r@ == pkg_display_chars(self@),
    {
        let mut out = String::from_str("Pkg { name: ");
        out.append(self.pkginfo.pkgname.as_str());
        out.append(", version: ");
        out.append(self.pkginfo.pkgver.as_str());
        out.append(", desc: ");
        out.append(self.pkginfo.pkgdesc.as_str());
        out.append(", size: ");
        let sz = crate::text::render_i32(self.pkginfo.size);
        out.append(sz.as_str());
        out.append(" }");
        proof {
            assert(out@ =~= pkg_display_chars(self@));
        }
        out
    }

    /// The names found in the package's `usr/bin` and `bin`
    /// subdirectories, in file order, per [`exec_names`].
    pub fn list_execs(&self) -> (r: Vec<String>)
        ensures
            r.deep_view() == exec_names(self@),
    {
        let mut out: Vec<String> = Vec::new();
        let usr_bin = self.path.clone().concat("/usr/bin");
        let bin = self.path.clone().concat("/bin");
        collect_execs(&self.files, usr_bin.as_str(), &mut out);
        collect_execs(&self.files, bin.as_str(), &mut out);
        out
    }

    /// Compare the package's recorded file names against the names
    /// `present` in the package store, per [`check_files_spec`].
    pub fn check_files(&self, present: &Vec<String>) -> (r: Result<Vec<String>, AetherError>)
        ensures
            r matches Ok(c) ==> check_files_spec(self@, present.deep_view()) == Ok::<
                Seq<Seq<char>>,
                ErrView,
            >(c.deep_view()),
            r matches Err(e) ==> check_files_spec(self@, present.deep_view()) == Err::<
                Seq<Seq<char>>,
                ErrView,
            >(e@),
    {
        let ghost fv = self.files.deep_view();
        let ghost pv = present.deep_view();
        let mut names: Vec<String> = Vec::new();
        proof {
            assert(names.deep_view() =~= Seq::<Seq<char>>::empty());
        }
        let n = self.files.len();
        let mut i: usize = 0;
        while i < n
            invariant
                n == self.files.len(),
                i <= n,
                fv == self.files.deep_view(),
                base_names_from(fv, 0) matches Some(all) ==> (base_names_from(fv, i as int)
                    matches Some(rest) && all == names.deep_view() + rest),
                base_names_from(fv, 0) is Some <==> base_names_from(fv, i as int) is Some,
            decreases n - i,
        {
            proof {
                assert(fv[i as int] == self.files@[i as int]@);
            }
            let ghost prev = names.deep_view();
            match base_name_of(self.files[i].as_str()) {
                None => {
                    return Err(AetherError::Unknown);
                },
                Some(name) => {
                    let ghost nv = name@;
                    names.push(name);
                    proof {
                        assert(names.deep_view() =~= prev.push(nv));
                        if base_names_from(fv, 0) is Some {
                            let all = base_names_from(fv, 0)->Some_0;
                            let rest = base_names_from(fv, i as int)->Some_0;
                            assert(rest =~= seq![nv] + base_names_from(fv, i + 1 as int)->Some_0);
                            assert(all =~= names.deep_view() + base_names_from(
                                fv,
                                i + 1 as int,
                            )->Some_0);
                        }
                    }
                },
            }
            i = i + 1;
        }
        proof {
            assert(base_names_from(fv, n as int) == Some(Seq::<Seq<char>>::empty()));
            assert(base_names_from(fv, 0)->Some_0 =~= names.deep_view());
        }
        let (checked, missing) = presence_split(&names, present);
        if missing.len() == 0 {
            proof {
                assert(missing.deep_view() =~= Seq::<Seq<char>>::empty());
            }
            Ok(checked)
        } else {
            Err(AetherError::MissingFile(missing))
        }
    }

    /// Compare the package's discovered executable names against the
    /// names `present` in the binary directory, per [`check_execs_spec`].
    pub fn check_execs(&self, present: &Vec<String>) -> (r: Result<Vec<String>, AetherError>)
        ensures
            r matches Ok(c) ==> check_execs_spec(self@, present.deep_view()) == Ok::<
                Seq<Seq<char>>,
                ErrView,
            >(c.deep_view()),
            r matches Err(e) ==> check_execs_spec(self@, present.deep_view()) == Err::<
                Seq<Seq<char>>,
                ErrView,
            >(e@),
    {
        let names = self.list_execs();
        let (checked, missing) = presence_split(&names, present);
        if missing.len() == 0 {
            proof {
                assert(missing.deep_view() =~= Seq::<Seq<char>>::empty());
            }
            Ok(checked)
        } else {
            Err(AetherError::MissingExec(missing))
        }
    }
}

/// Sort `names` into those present in `present` and those missing,
/// keeping file order, per [`presence_fold`].
fn presence_split(names: &Vec<String>, present: &Vec<String>) -> (r: (Vec<String>, Vec<String>))
    ensures
        (r.0.deep_view(), r.1.deep_view()) == presence_fold(
            names.deep_view(),
            present.deep_view(),
            0,
            Seq::<Seq<char>>::empty(),
            Seq::<Seq<char>>::empty(),
        ),
{
    let ghost nv = names.deep_view();
    let ghost pv = present.deep_view();
    let mut checked: Vec<String> = Vec::new();
    let mut missing: Vec<String> = Vec::new();
    proof {
        assert(checked.deep_view() =~= Seq::<Seq<char>>::empty());
        assert(missing.deep_view() =~= Seq::<Seq<char>>::empty());
    }
    let n = names.len();
    let mut i: usize = 0;
    while i < n
        invariant
            n == names.len(),
            i <= n,
            nv == names.deep_view(),
            pv == present.deep_view(),
            presence_fold(nv, pv, 0, Seq::<Seq<char>>::empty(), Seq::<Seq<char>>::empty())
                == presence_fold(nv, pv, i as int, checked.deep_view(), missing.deep_view()),
        decreases n - i,
    {
        proof {
            assert(nv[i as int] == names@[i as int]@);
        }
        let ghost pc = checked.deep_view();
        let ghost pm = missing.deep_view();
        if vec_contains_str(present, names[i].as_str()) {
            checked.push(names[i].clone());
            proof {
                assert(checked.deep_view() =~= pc.push(nv[i as int]));
            }
        } else {
            missing.push(names[i].clone());
            proof {
                assert(missing.deep_view() =~= pm.push(nv[i as int]));
            }
        }
        i = i + 1;
    }
    (checked, missing)
}

} // verus!
