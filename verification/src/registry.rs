//! The registry of installed packages: an ordered collection whose
//! members never share a reference string, with conflict-checked install
//! and tolerant, idempotence-safe remove. The registry decides; the
//! caller performs the directory copies, symlinks and deletions the
//! decisions call for.

use vstd::prelude::*;

use crate::error::AetherError;
use crate::error::ErrView;
use crate::pkg::check_execs_spec;
use crate::pkg::check_files_spec;
use crate::pkg::exec_names;
use crate::pkg::pkg_from_dir;
use crate::pkg::refstr_chars;
use crate::pkg::Pkg;
use crate::pkg::PkgDir;
use crate::pkg::PkgDirView;
use crate::pkg::PkgView;
use crate::text::str_eq;
use crate::text::vec_contains_str;

verus! {

/// The reference string of a package: its identity key.
pub open spec fn refstr_of(p: PkgView) -> Seq<char> {
    refstr_chars(p.pkginfo.pkgname, p.pkginfo.pkgver)
}

/// Does some member of `pkgs` carry the reference string `rs`?
pub open spec fn has_refstr(pkgs: Seq<PkgView>, rs: Seq<char>) -> bool {
    exists|i: int| 0 <= i < pkgs.len() && refstr_of(pkgs[i]) == rs
}

/// No two members share a reference string: the registry invariant.
pub open spec fn unique_refstrs(pkgs: Seq<PkgView>) -> bool {
    forall|i: int, j: int|
        0 <= i < j < pkgs.len() ==> refstr_of(pkgs[i]) != refstr_of(pkgs[j])
}

/// The discovered executable names of `pkgs[i..]`, concatenated in
/// member order.
pub open spec fn exec_names_from(pkgs: Seq<PkgView>, i: int) -> Seq<Seq<char>>
    decreases pkgs.len() - i,
{
    if i < 0 || i >= pkgs.len() {
        Seq::empty()
    } else {
        exec_names(pkgs[i]) + exec_names_from(pkgs, i + 1)
    }
}

/// Every discovered executable name of every member, in member order.
pub open spec fn all_exec_names(pkgs: Seq<PkgView>) -> Seq<Seq<char>> {
    exec_names_from(pkgs, 0)
}

/// Is `names[i]` a repeat of an earlier name? The first occurrence is
/// the owner; every later one is a conflict.
pub open spec fn is_dup_at(names: Seq<Seq<char>>, i: int) -> bool {
    exists|j: int| 0 <= j < i && names[j] == names[i]
}

/// The repeated names among `names[..k]`, in order of their repeats.
pub open spec fn dup_list(names: Seq<Seq<char>>, k: int) -> Seq<Seq<char>>
    decreases k,
{
    if k <= 0 {
        Seq::empty()
    } else {
        dup_list(names, k - 1) + (if is_dup_at(names, k - 1) {
            seq![names[k - 1]]
        } else {
            Seq::empty()
        })
    }
}

/// Every executable name that more than one member of `pkgs` provides,
/// one report per extra provider.
pub open spec fn conflict_names(pkgs: Seq<PkgView>) -> Seq<Seq<char>> {
    dup_list(all_exec_names(pkgs), all_exec_names(pkgs).len() as int)
}

/// What `install` returns and leaves behind: a duplicate reference
/// string or any executable conflict across the whole resulting set is
/// rejected and the set is unchanged; else the package is appended.
pub open spec fn install_result(pkgs: Seq<PkgView>, p: PkgView) -> Result<Seq<PkgView>, ErrView> {
    if has_refstr(pkgs, refstr_of(p)) {
        Err(ErrView::AlreadyExists(refstr_of(p)))
    } else if conflict_names(pkgs.push(p)).len() > 0 {
        Err(ErrView::ExecConflict(conflict_names(pkgs.push(p))))
    } else {
        Ok(pkgs.push(p))
    }
}

/// The members of `pkgs[i..]` whose reference string is not `rs`.
pub open spec fn without_refstr(pkgs: Seq<PkgView>, rs: Seq<char>, i: int) -> Seq<PkgView>
    decreases pkgs.len() - i,
{
    if i < 0 || i >= pkgs.len() {
        Seq::empty()
    } else if refstr_of(pkgs[i]) == rs {
        without_refstr(pkgs, rs, i + 1)
    } else {
        seq![pkgs[i]] + without_refstr(pkgs, rs, i + 1)
    }
}

/// Spec-level image of a [`RemovePlan`].
pub struct RemovePlanView {
    pub unlink: Seq<Seq<char>>,
    pub delete: Seq<Seq<char>>,
}

/// What a successful `remove` asks the caller to do: unlink these
/// symlinks from the binary directory, delete these files from the
/// package store. Either list is empty when its items were found
/// already missing.
#[derive(Clone, Debug, PartialEq, Eq)]
pub struct RemovePlan {
    pub unlink: Vec<String>,
    pub delete: Vec<String>,
}

impl View for RemovePlan {
    type V = RemovePlanView;

    open spec fn view(&self) -> RemovePlanView {
        RemovePlanView { unlink: self.unlink.deep_view(), delete: self.delete.deep_view() }
    }
}

/// What `remove` returns and leaves behind, given the names now present
/// in the binary directory and the package store: an absent reference
/// string is `MissingPkg`; partially missing executables or files are
/// tolerated (nothing of that kind is touched); on success the package
/// leaves the set and the plan lists what to unlink and delete.
pub open spec fn remove_result(
    pkgs: Seq<PkgView>,
    p: PkgView,
    bins: Seq<Seq<char>>,
    stores: Seq<Seq<char>>,
) -> Result<(Seq<PkgView>, RemovePlanView), ErrView> {
    if !has_refstr(pkgs, refstr_of(p)) {
        Err(ErrView::MissingPkg { name: p.pkginfo.pkgname, ver: p.pkginfo.pkgver })
    } else {
        let unlink = if check_execs_spec(p, bins) is Ok {
            exec_names(p)
        } else {
            Seq::empty()
        };
        match check_files_spec(p, stores) {
            Ok(c) => Ok(
                (without_refstr(pkgs, refstr_of(p), 0), RemovePlanView { unlink, delete: c }),
            ),
            Err(ErrView::MissingFile(_)) => Ok(
                (
                    without_refstr(pkgs, refstr_of(p), 0),
                    RemovePlanView { unlink, delete: Seq::empty() },
                ),
            ),
            Err(e) => Err(e),
        }
    }
}

/// What loading a list of candidate directory snapshots returns: every
/// snapshot built into a package, or the first failure — all or nothing.
pub open spec fn load_dirs(ds: Seq<PkgDirView>, i: int) -> Result<Seq<PkgView>, ErrView>
    decreases ds.len() - i,
{
    if i < 0 || i >= ds.len() {
        Ok(Seq::empty())
    } else {
        match pkg_from_dir(ds[i]) {
            Err(e) => Err(e),
            Ok(p) => match load_dirs(ds, i + 1) {
                Err(e) => Err(e),
                Ok(rest) => Ok(seq![p] + rest),
            },
        }
    }
}

/// The collection of installed packages.
#[derive(Clone, Debug)]
pub struct PkgList {
    pkgs: Vec<Pkg>,
}

impl View for PkgList {
    type V = Seq<PkgView>;

    closed spec fn view(&self) -> Seq<PkgView> {
        self.pkgs.deep_view()
    }
}

/// The repeated names in `names`, first occurrences owning.
fn find_dups(names: &Vec<String>) -> (r: Vec<String>)
    ensures
        r.deep_view() == dup_list(names.deep_view(), names.deep_view().len() as int),
{
    let ghost nv = names.deep_view();
    let mut checked: Vec<String> = Vec::new();
    let mut conflicts: Vec<String> = Vec::new();
    proof {
        assert(checked.deep_view() =~= Seq::<Seq<char>>::empty());
        assert(conflicts.deep_view() =~= Seq::<Seq<char>>::empty());
    }
    let n = names.len();
    let mut i: usize = 0;
    while i < n
        invariant
            n == names.len(),
            i <= n,
            nv == names.deep_view(),
            conflicts.deep_view() == dup_list(nv, i as int),
            forall|x: Seq<char>| #[trigger]
                checked.deep_view().contains(x) <==> (exists|j: int| 0 <= j < i && nv[j] == x),
        decreases n - i,
    {
        proof {
            assert(nv[i as int] == names@[i as int]@);
        }
        let ghost pc = checked.deep_view();
        let ghost pf = conflicts.deep_view();
        if vec_contains_str(&checked, names[i].as_str()) {
            proof {
                assert(is_dup_at(nv, i as int));
            }
            conflicts.push(names[i].clone());
            proof {
                assert(conflicts.deep_view() =~= pf.push(nv[i as int]));
                assert(conflicts.deep_view() =~= dup_list(nv, i + 1 as int));
                assert(forall|x: Seq<char>| #[trigger]
                    checked.deep_view().contains(x) ==> (exists|j: int|
                        0 <= j < i + 1 && nv[j] == x)) by {
                    assert(forall|x: Seq<char>| #[trigger]
                        checked.deep_view().contains(x) ==> (exists|j: int|
                            0 <= j < i && nv[j] == x));
                }
                assert(forall|x: Seq<char>|
                    (exists|j: int| 0 <= j < i + 1 && nv[j] == x) ==> #[trigger]
                        checked.deep_view().contains(x)) by {
                    assert(checked.deep_view().contains(nv[i as int]));
                }
            }
        } else {
            proof {
                assert(!is_dup_at(nv, i as int));
                assert(dup_list(nv, i + 1 as int) =~= dup_list(nv, i as int));
            }
            checked.push(names[i].clone());
            proof {
                assert(checked.deep_view() =~= pc.push(nv[i as int]));
                let cd = checked.deep_view();
                assert forall|x: Seq<char>| #[trigger] cd.contains(x) implies (exists|j: int|
                    0 <= j < i + 1 && nv[j] == x) by {
                    let k = choose|k: int| 0 <= k < cd.len() && cd[k] == x;
                    if k < pc.len() {
                        assert(pc[k] == x);
                        assert(pc.contains(x));
                    } else {
                        assert(0 <= i < i + 1 && nv[i as int] == x);
                    }
                }
                assert forall|x: Seq<char>| (exists|j: int| 0 <= j < i + 1 && nv[j] == x)
                    implies #[trigger] cd.contains(x) by {
                    let j = choose|j: int| 0 <= j < i + 1 && nv[j] == x;
                    if j < i {
                        assert(pc.contains(x));
                        let k = choose|k: int| 0 <= k < pc.len() && pc[k] == x;
                        assert(cd[k] == x);
                    } else {
                        assert(cd[pc.len() as int] == x);
                    }
                }
            }
        }
        i = i + 1;
    }
    proof {
        assert(conflicts.deep_view() == dup_list(nv, nv.len() as int));
    }
    conflicts
}

/// `all_exec_names` grows by the appended member's names.
pub proof fn lemma_exec_names_push(pkgs: Seq<PkgView>, p: PkgView, i: int)
    requires
        0 <= i <= pkgs.len(),
    ensures
        exec_names_from(pkgs.push(p), i) == exec_names_from(pkgs, i) + exec_names(p),
    decreases pkgs.len() - i,
{
    if i == pkgs.len() {
        assert(exec_names_from(pkgs.push(p), i + 1) =~= Seq::<Seq<char>>::empty());
        assert(pkgs.push(p)[i] == p);
        assert(exec_names_from(pkgs.push(p), i) =~= exec_names(p) + Seq::<Seq<char>>::empty());
        assert(exec_names_from(pkgs, i) =~= Seq::<Seq<char>>::empty());
        assert(exec_names_from(pkgs.push(p), i) =~= exec_names_from(pkgs, i) + exec_names(p));
    } else {
        lemma_exec_names_push(pkgs, p, i + 1);
        assert(pkgs.push(p)[i] == pkgs[i]);
        assert(exec_names_from(pkgs.push(p), i) =~= exec_names_from(pkgs, i) + exec_names(p));
    }
}

impl PkgList {
    /// An empty registry to load into, shared by every caller that
    /// scans a store; loading is all-or-nothing, per [`load_dirs`].
    pub fn new_from(dirs: &Vec<PkgDir>) -> (r: Result<PkgList, AetherError>)
        ensures
            r matches Ok(l) ==> load_dirs(dirs.deep_view(), 0) == Ok::<Seq<PkgView>, ErrView>(l@),
            r matches Err(e) ==> load_dirs(dirs.deep_view(), 0) == Err::<Seq<PkgView>, ErrView>(
                e@,
            ),
    {
        let ghost dv = dirs.deep_view();
        let mut pkgs: Vec<Pkg> = Vec::new();
        proof {
            assert(pkgs.deep_view() =~= Seq::<PkgView>::empty());
        }
        let n = dirs.len();
        let mut i: usize = 0;
        while i < n
            invariant
                n == dirs.len(),
                i <= n,
                dv == dirs.deep_view(),
                load_dirs(dv, 0) is Ok <==> load_dirs(dv, i as int) is Ok,
                load_dirs(dv, i as int) matches Err(e) ==> load_dirs(dv, 0) == Err::<
                    Seq<PkgView>,
                    ErrView,
                >(e),
                load_dirs(dv, 0) matches Ok(all) ==> (load_dirs(dv, i as int) matches Ok(rest)
                    && all == pkgs.deep_view() + rest),
            decreases n - i,
        {
            proof {
                assert(dv[i as int] == dirs@[i as int]@);
            }
            let ghost prev = pkgs.deep_view();
            match Pkg::from_dir(&dirs[i]) {
                Err(e) => {
                    return Err(e);
                },
                Ok(p) => {
                    let ghost pv = p@;
                    pkgs.push(p);
                    proof {
                        assert(pkgs.deep_view() =~= prev.push(pv));
                        if load_dirs(dv, 0) is Ok {
                            let all = load_dirs(dv, 0)->Ok_0;
                            let rest = load_dirs(dv, i as int)->Ok_0;
                            assert(rest =~= seq![pv] + load_dirs(dv, i + 1 as int)->Ok_0);
                            assert(all =~= pkgs.deep_view() + load_dirs(dv, i + 1 as int)->Ok_0);
                        }
                    }
                },
            }
            i = i + 1;
        }
        proof {
            assert(load_dirs(dv, n as int) == Ok::<Seq<PkgView>, ErrView>(Seq::empty()));
            if load_dirs(dv, 0) is Ok {
                assert(load_dirs(dv, 0)->Ok_0 =~= pkgs.deep_view());
            }
        }
        Ok(PkgList { pkgs })
    }

    /// The installed packages, in order.
    pub fn pkgs(&self) -> (r: &Vec<Pkg>)
        ensures
            r.deep_view() == self@,
    {
        &self.pkgs
    }

    /// Does a package with this reference string stand in the registry?
    pub fn pkg_exists(&self, pkg: &Pkg) -> (r: bool)
        ensures
            r == has_refstr(self@, refstr_of(pkg@)),
    {
        let rs = pkg.get_refstr();
        let n = self.pkgs.len();
        let mut i: usize = 0;
        while i < n
            invariant
                n == self.pkgs.len(),
                i <= n,
                rs@ == refstr_of(pkg@),
                forall|k: int| 0 <= k < i ==> refstr_of(self@[k]) != rs@,
            decreases n - i,
        {
            proof {
                assert(self@[i as int] == self.pkgs@[i as int]@);
            }
            let other = self.pkgs[i].get_refstr();
            if str_eq(other.as_str(), rs.as_str()) {
                proof {
                    assert(refstr_of(self@[i as int]) == rs@);
                }
                return true;
            }
            i = i + 1;
        }
        false
    }

    /// Every executable name of every member, in member order.
    fn collect_names(&self) -> (r: Vec<String>)
        ensures
            r.deep_view() == all_exec_names(self@),
    {
        let ghost pv = self@;
        let mut out: Vec<String> = Vec::new();
        proof {
            assert(out.deep_view() =~= Seq::<Seq<char>>::empty());
        }
        let n = self.pkgs.len();
        let mut i: usize = 0;
        while i < n
            invariant
                n == self.pkgs.len(),
                i <= n,
                pv == self@,
                all_exec_names(pv) == out.deep_view() + exec_names_from(pv, i as int),
            decreases n - i,
        {
            proof {
                assert(pv[i as int] == self.pkgs@[i as int]@);
            }
            let ghost prev = out.deep_view();
            let mut more = self.pkgs[i].list_execs();
            let ghost mv = more.deep_view();
            out.append(&mut more);
            proof {
                assert(out.deep_view() =~= prev + mv);
                assert(exec_names_from(pv, i as int) == exec_names(pv[i as int])
                    + exec_names_from(pv, i + 1 as int));
                assert(prev + exec_names_from(pv, i as int) =~= out.deep_view()
                    + exec_names_from(pv, i + 1 as int));
            }
            i = i + 1;
        }
        proof {
            assert(exec_names_from(pv, n as int) =~= Seq::<Seq<char>>::empty());
            assert(out.deep_view() =~= all_exec_names(pv));
        }
        out
    }

    /// The conflicts across the current members: every executable name
    /// provided more than once, or `None` when there is none.
    pub fn exec_conflicts(&self) -> (r: Option<Vec<String>>)
        ensures
            r is None <==> conflict_names(self@).len() == 0,
            r matches Some(v) ==> v.deep_view() == conflict_names(self@) && v@.len() > 0,
    {
        let names = self.collect_names();
        let dups = find_dups(&names);
        if dups.len() == 0 {
            proof {
                assert(dups.deep_view() =~= Seq::<Seq<char>>::empty());
            }
            None
        } else {
            Some(dups)
        }
    }

    /// The conflicts the registry would have if `pkg` were appended;
    /// the registry itself is left as it was.
    pub fn check_exec_conflicts(&mut self, pkg: Pkg) -> (r: Option<Vec<String>>)
        ensures
            final(self)@ == old(self)@,
            r is None <==> conflict_names(old(self)@.push(pkg@)).len() == 0,
            r matches Some(v) ==> v.deep_view() == conflict_names(old(self)@.push(pkg@))
                && v@.len() > 0,
    {
        let mut names = self.collect_names();
        let mut more = pkg.list_execs();
        let ghost mv = more.deep_view();
        let ghost prev = names.deep_view();
        names.append(&mut more);
        proof {
            lemma_exec_names_push(self@, pkg@, 0);
            assert(names.deep_view() =~= prev + mv);
            assert(names.deep_view() =~= all_exec_names(self@.push(pkg@)));
        }
        let dups = find_dups(&names);
        if dups.len() == 0 {
            proof {
                assert(dups.deep_view() =~= Seq::<Seq<char>>::empty());
            }
            None
        } else {
            Some(dups)
        }
    }

    /// Install a package, per [`install_result`]: reject a duplicate
    /// reference string, reject any executable conflict across the whole
    /// resulting set, else register the package. On success the caller
    /// copies the package's directory into the store and links its
    /// executables; on failure there is nothing to do.
    pub fn install(&mut self, pkg: Pkg) -> (r: Result<(), AetherError>)
        ensures
            r is Ok ==> install_result(old(self)@, pkg@) == Ok::<Seq<PkgView>, ErrView>(
                final(self)@,
            ),
            r matches Err(e) ==> install_result(old(self)@, pkg@) == Err::<Seq<PkgView>, ErrView>(
                e@,
            ) && final(self)@ == old(self)@,
    {
        if self.pkg_exists(&pkg) {
            return Err(AetherError::AlreadyExists(pkg.get_refstr()));
        }
        let mut names = self.collect_names();
        let mut more = pkg.list_execs();
        let ghost mv = more.deep_view();
        let ghost prefix = names.deep_view();
        names.append(&mut more);
        proof {
            lemma_exec_names_push(self@, pkg@, 0);
            assert(names.deep_view() =~= prefix + mv);
            assert(names.deep_view() =~= all_exec_names(self@.push(pkg@)));
        }
        let dups = find_dups(&names);
        if dups.len() > 0 {
            return Err(AetherError::ExecConflict(dups));
        }
        proof {
            assert(dups.deep_view() =~= Seq::<Seq<char>>::empty());
        }
        let ghost prev = self@;
        let ghost pv = pkg@;
        self.pkgs.push(pkg);
        proof {
            assert(self@ =~= prev.push(pv));
        }
        Ok(())
    }

    /// Remove a package, per [`remove_result`], given the names now
    /// present in the binary directory and the package store: reject an
    /// absent reference string; tolerate already-missing executables or
    /// files by leaving them out of the plan; else drop the package from
    /// the registry and hand back what to unlink and delete.
    pub fn remove(&mut self, pkg: &Pkg, bins: &Vec<String>, stores: &Vec<String>) -> (r: Result<
        RemovePlan,
        AetherError,
    >)
        ensures
            r matches Ok(plan) ==> remove_result(
                old(self)@,
                pkg@,
                bins.deep_view(),
                stores.deep_view(),
            ) == Ok::<(Seq<PkgView>, RemovePlanView), ErrView>((final(self)@, plan@)),
            r matches Err(e) ==> remove_result(
                old(self)@,
                pkg@,
                bins.deep_view(),
                stores.deep_view(),
            ) == Err::<(Seq<PkgView>, RemovePlanView), ErrView>(e@) && final(self)@ == old(self)@,
    {
        if !self.pkg_exists(pkg) {
            return Err(
                AetherError::MissingPkg {
                    name: pkg.pkginfo.pkgname.clone(),
                    ver: pkg.pkginfo.pkgver.clone(),
                },
            );
        }
        let unlink = match pkg.check_execs(bins) {
            Ok(_) => pkg.list_execs(),
            Err(_) => {
                let none: Vec<String> = Vec::new();
                proof {
                    assert(none.deep_view() =~= Seq::<Seq<char>>::empty());
                }
                none
            },
        };
        let delete = match pkg.check_files(stores) {
            Ok(c) => c,
            Err(AetherError::MissingFile(_)) => {
                let none: Vec<String> = Vec::new();
                proof {
                    assert(none.deep_view() =~= Seq::<Seq<char>>::empty());
                }
                none
            },
            Err(e) => {
                return Err(e);
            },
        };
        let rs = pkg.get_refstr();
        let ghost prev = self@;
        let mut i: usize = 0;
        let ghost mut j: int = 0;
        while i < self.pkgs.len()
            invariant
                i <= self.pkgs.len(),
                0 <= j <= prev.len(),
                self.pkgs.len() == i + prev.len() - j,
                rs@ == refstr_of(pkg@),
                self.pkgs.deep_view() =~= self.pkgs.deep_view().take(i as int) + prev.skip(j),
                without_refstr(prev, rs@, 0) == self.pkgs.deep_view().take(i as int)
                    + without_refstr(prev, rs@, j),
            decreases prev.len() - j,
        {
            let ghost cur = self.pkgs.deep_view();
            proof {
                assert(cur[i as int] == cur.take(i as int).add(prev.skip(j))[i as int]);
                assert(cur[i as int] == prev[j]);
                assert(cur[i as int] == self.pkgs@[i as int]@);
            }
            let other = self.pkgs[i].get_refstr();
            if str_eq(other.as_str(), rs.as_str()) {
                self.pkgs.remove(i);
                proof {
                    assert(self.pkgs.deep_view() =~= cur.remove(i as int));
                    assert(self.pkgs.deep_view().take(i as int) =~= cur.take(i as int));
                    assert(self.pkgs.deep_view() =~= self.pkgs.deep_view().take(i as int)
                        + prev.skip(j + 1));
                }
            } else {
                proof {
                    assert(without_refstr(prev, rs@, j) =~= seq![prev[j]] + without_refstr(
                        prev,
                        rs@,
                        j + 1,
                    ));
                    assert(cur.take(i + 1 as int) =~= cur.take(i as int).push(prev[j]));
                    assert(without_refstr(prev, rs@, 0) =~= cur.take(i + 1 as int)
                        + without_refstr(prev, rs@, j + 1));
                }
                i = i + 1;
            }
            proof {
                j = j + 1;
            }
        }
        proof {
            assert(without_refstr(prev, rs@, prev.len() as int) =~= Seq::<PkgView>::empty());
            assert(self.pkgs.deep_view().take(i as int) =~= self.pkgs.deep_view());
            assert(self@ =~= without_refstr(prev, rs@, 0));
        }
        Ok(RemovePlan { unlink, delete })
    }
}

/// One display line per member: its reference string and description.
pub open spec fn pkglist_lines(pkgs: Seq<PkgView>, i: int) -> Seq<char>
    decreases pkgs.len() - i,
{
    if i < 0 || i >= pkgs.len() {
        Seq::empty()
    } else {
        "    "@ + refstr_of(pkgs[i]) + ": \""@ + pkgs[i].pkginfo.pkgdesc + "\",\n"@
            + pkglist_lines(pkgs, i + 1)
    }
}

/// The multi-line account of a registry: every member's reference
/// string and description between brackets.
pub open spec fn pkglist_display_chars(pkgs: Seq<PkgView>) -> Seq<char> {
    "packages [\n"@ + pkglist_lines(pkgs, 0) + "]"@
}

impl PkgList {
    /// The multi-line account of the registry, per
    /// [`pkglist_display_chars`].
    pub fn display_string(&self) -> (r: String)
        ensures
            r@ == pkglist_display_chars(self@),
    {
        let ghost pv = self@;
        let mut out = String::from_str("packages [\n");
        let n = self.pkgs.len();
        let mut i: usize = 0;
        while i < n
            invariant
                n == self.pkgs.len(),
                i <= n,
                pv == self@,
                out@ + pkglist_lines(pv, i as int) == "packages [\n"@ + pkglist_lines(pv, 0),
            decreases n - i,
        {
            proof {
                assert(pv[i as int] == self.pkgs@[i as int]@);
            }
            let ghost prev = out@;
            out.append("    ");
            let rs = self.pkgs[i].get_refstr();
            out.append(rs.as_str());
            out.append(": \"");
            out.append(self.pkgs[i].pkginfo.pkgdesc.as_str());
            out.append("\",\n");
            proof {
                assert(pkglist_lines(pv, i as int) == "    "@ + refstr_of(pv[i as int]) + ": \""@
                    + pv[i as int].pkginfo.pkgdesc + "\",\n"@ + pkglist_lines(pv, i + 1 as int));
                assert(out@ + pkglist_lines(pv, i + 1 as int) =~= prev + pkglist_lines(
                    pv,
                    i as int,
                ));
            }
            i = i + 1;
        }
        proof {
            assert(pkglist_lines(pv, n as int) =~= Seq::<char>::empty());
            assert(out@ =~= "packages [\n"@ + pkglist_lines(pv, 0));
        }
        out.append("]");
        proof {
            assert(out@ =~= pkglist_display_chars(pv));
        }
        out
    }
}

/// Every member the removal keeps has another reference string, so a
/// second removal of the same package finds nothing.
pub proof fn lemma_without_refstr(pkgs: Seq<PkgView>, rs: Seq<char>, i: int)
    ensures
        forall|k: int|
            0 <= k < without_refstr(pkgs, rs, i).len() ==> refstr_of(
                #[trigger] without_refstr(pkgs, rs, i)[k],
            ) != rs,
    decreases pkgs.len() - i,
{
    if 0 <= i < pkgs.len() {
        lemma_without_refstr(pkgs, rs, i + 1);
        let w = without_refstr(pkgs, rs, i);
        let wn = without_refstr(pkgs, rs, i + 1);
        assert forall|k: int| 0 <= k < w.len() implies refstr_of(#[trigger] w[k]) != rs by {
            if refstr_of(pkgs[i]) == rs {
                assert(w[k] == wn[k]);
            } else if k == 0 {
                assert(w[0] == pkgs[i]);
            } else {
                assert(w[k] == wn[k - 1]);
            }
        }
    }
}

/// Removing a package twice: once the first removal has emptied the
/// registry of its reference string, the second always fails with
/// `MissingPkg`, whatever the directories now hold.
pub proof fn lemma_remove_idempotent(
    pkgs: Seq<PkgView>,
    p: PkgView,
    bins: Seq<Seq<char>>,
    stores: Seq<Seq<char>>,
    bins2: Seq<Seq<char>>,
    stores2: Seq<Seq<char>>,
)
    requires
        remove_result(pkgs, p, bins, stores) is Ok,
    ensures
        remove_result(remove_result(pkgs, p, bins, stores)->Ok_0.0, p, bins2, stores2) == Err::<
            (Seq<PkgView>, RemovePlanView),
            ErrView,
        >(ErrView::MissingPkg { name: p.pkginfo.pkgname, ver: p.pkginfo.pkgver }),
{
    let kept = remove_result(pkgs, p, bins, stores)->Ok_0.0;
    assert(kept == without_refstr(pkgs, refstr_of(p), 0));
    lemma_without_refstr(pkgs, refstr_of(p), 0);
    assert(!has_refstr(kept, refstr_of(p)));
}

/// A removal whose package is still registered succeeds whenever every
/// recorded file has a file name, however many of its files or
/// executables are already gone: missing items are tolerated.
pub proof fn lemma_remove_tolerates_missing(
    pkgs: Seq<PkgView>,
    p: PkgView,
    bins: Seq<Seq<char>>,
    stores: Seq<Seq<char>>,
)
    requires
        has_refstr(pkgs, refstr_of(p)),
        crate::pkg::base_names_from(p.files, 0) is Some,
    ensures
        remove_result(pkgs, p, bins, stores) is Ok,
{
}

/// Appending a package with a fresh reference string keeps the
/// registry invariant: install never creates a duplicate.
pub proof fn lemma_install_keeps_unique(pkgs: Seq<PkgView>, p: PkgView)
    requires
        unique_refstrs(pkgs),
        install_result(pkgs, p) is Ok,
    ensures
        unique_refstrs(install_result(pkgs, p)->Ok_0),
{
    let r = install_result(pkgs, p)->Ok_0;
    assert(r == pkgs.push(p));
    assert forall|i: int, j: int| 0 <= i < j < r.len() implies refstr_of(r[i]) != refstr_of(
        r[j],
    ) by {
        if j == pkgs.len() {
            assert(r[i] == pkgs[i]);
            assert(!has_refstr(pkgs, refstr_of(p)));
            assert(refstr_of(pkgs[i]) != refstr_of(p));
        } else {
            assert(r[i] == pkgs[i] && r[j] == pkgs[j]);
        }
    }
}

/// A successful install leaves no two members providing one executable
/// name: the whole resulting set was checked, not just the newcomer.
pub proof fn lemma_install_keeps_conflict_free(pkgs: Seq<PkgView>, p: PkgView)
    requires
        install_result(pkgs, p) is Ok,
    ensures
        conflict_names(install_result(pkgs, p)->Ok_0) == Seq::<Seq<char>>::empty(),
{
    assert(conflict_names(pkgs.push(p)) =~= Seq::<Seq<char>>::empty());
}

/// What removal keeps is still duplicate-free, and every kept
/// reference string was already present from index `i` on.
proof fn lemma_without_refstr_unique(pkgs: Seq<PkgView>, rs: Seq<char>, i: int)
    requires
        unique_refstrs(pkgs),
        0 <= i,
    ensures
        unique_refstrs(without_refstr(pkgs, rs, i)),
        forall|k: int|
            0 <= k < without_refstr(pkgs, rs, i).len() ==> exists|j: int|
                i <= j < pkgs.len() && refstr_of(#[trigger] without_refstr(pkgs, rs, i)[k])
                    == refstr_of(pkgs[j]),
    decreases pkgs.len() - i,
{
    if 0 <= i < pkgs.len() {
        lemma_without_refstr_unique(pkgs, rs, i + 1);
        let w = without_refstr(pkgs, rs, i);
        let wn = without_refstr(pkgs, rs, i + 1);
        if refstr_of(pkgs[i]) == rs {
            assert(forall|k: int| 0 <= k < w.len() ==> w[k] == wn[k]);
        } else {
            assert(w[0] == pkgs[i]);
            assert(forall|k: int| 1 <= k < w.len() ==> w[k] == wn[k - 1]);
            assert forall|a: int, b: int| 0 <= a < b < w.len() implies refstr_of(w[a])
                != refstr_of(w[b]) by {
                if a == 0 {
                    let j = choose|j: int|
                        i + 1 <= j < pkgs.len() && refstr_of(wn[b - 1]) == refstr_of(pkgs[j]);
                    assert(refstr_of(pkgs[i]) != refstr_of(pkgs[j]));
                }
            }
            assert forall|k: int| 0 <= k < w.len() implies exists|j: int|
                i <= j < pkgs.len() && refstr_of(#[trigger] w[k]) == refstr_of(pkgs[j]) by {
                if k == 0 {
                    assert(refstr_of(w[0]) == refstr_of(pkgs[i]));
                }
            }
        }
    }
}

/// A successful removal keeps the registry free of duplicate reference
/// strings.
pub proof fn lemma_remove_keeps_unique(
    pkgs: Seq<PkgView>,
    p: PkgView,
    bins: Seq<Seq<char>>,
    stores: Seq<Seq<char>>,
)
    requires
        unique_refstrs(pkgs),
        remove_result(pkgs, p, bins, stores) is Ok,
    ensures
        unique_refstrs(remove_result(pkgs, p, bins, stores)->Ok_0.0),
{
    lemma_without_refstr_unique(pkgs, refstr_of(p), 0);
}

/// Two providers of one executable name can never both be installed:
/// installing the second is rejected, and when the reference strings
/// differ the error is the conflict report and it names the executable.
pub proof fn lemma_conflict_reported(pkgs: Seq<PkgView>, p: PkgView, name: Seq<char>, i: int)
    requires
        0 <= i < pkgs.len(),
        exec_names(pkgs[i]).contains(name),
        exec_names(p).contains(name),
    ensures
        install_result(pkgs, p) is Err,
        !has_refstr(pkgs, refstr_of(p)) ==> install_result(pkgs, p) == Err::<
            Seq<PkgView>,
            ErrView,
        >(ErrView::ExecConflict(conflict_names(pkgs.push(p)))) && conflict_names(
            pkgs.push(p),
        ).contains(name),
{
    let all = all_exec_names(pkgs.push(p));
    lemma_exec_names_push(pkgs, p, 0);
    let first = all_exec_names(pkgs);
    lemma_exec_names_contains(pkgs, i, name);
    let a = choose|a: int| 0 <= a < first.len() && first[a] == name;
    let b = choose|b: int| 0 <= b < exec_names(p).len() && exec_names(p)[b] == name;
    assert(all[a] == name);
    assert(all[first.len() + b] == name);
    assert(is_dup_at(all, first.len() + b));
    lemma_dup_list_contains(all, all.len() as int, first.len() + b);
    assert(conflict_names(pkgs.push(p)).contains(name));
}

/// A name inside some member's executables stands in the concatenation.
proof fn lemma_exec_names_contains(pkgs: Seq<PkgView>, i: int, name: Seq<char>)
    requires
        0 <= i < pkgs.len(),
        exec_names(pkgs[i]).contains(name),
    ensures
        all_exec_names(pkgs).contains(name),
    decreases i,
{
    if i == 0 {
        let b = choose|b: int| 0 <= b < exec_names(pkgs[0]).len() && exec_names(pkgs[0])[b]
            == name;
        assert(exec_names_from(pkgs, 0)[b] == name);
    } else {
        lemma_exec_names_suffix_contains(pkgs, 0, i, name);
    }
}

/// A name inside `pkgs[i]`'s executables stands in the concatenation
/// from any `j <= i`.
proof fn lemma_exec_names_suffix_contains(pkgs: Seq<PkgView>, j: int, i: int, name: Seq<char>)
    requires
        0 <= j <= i < pkgs.len(),
        exec_names(pkgs[i]).contains(name),
    ensures
        exec_names_from(pkgs, j).contains(name),
    decreases i - j,
{
    if j == i {
        let b = choose|b: int| 0 <= b < exec_names(pkgs[i]).len() && exec_names(pkgs[i])[b]
            == name;
        assert(exec_names_from(pkgs, j)[b] == name);
    } else {
        lemma_exec_names_suffix_contains(pkgs, j + 1, i, name);
        let rest = exec_names_from(pkgs, j + 1);
        let b = choose|b: int| 0 <= b < rest.len() && rest[b] == name;
        assert(exec_names_from(pkgs, j)[exec_names(pkgs[j]).len() + b] == name);
    }
}

/// A repeated name within the scanned prefix is reported.
proof fn lemma_dup_list_contains(names: Seq<Seq<char>>, k: int, i: int)
    requires
        0 <= i < k <= names.len(),
        is_dup_at(names, i),
    ensures
        dup_list(names, k).contains(names[i]),
    decreases k,
{
    if i == k - 1 {
        assert(dup_list(names, k)[dup_list(names, k - 1).len() as int] == names[i]);
    } else {
        lemma_dup_list_contains(names, k - 1, i);
        let shorter = dup_list(names, k - 1);
        let a = choose|a: int| 0 <= a < shorter.len() && shorter[a] == names[i];
        assert(dup_list(names, k)[a] == names[i]);
    }
}

} // verus!
