use crate::paths::{base_name, existing_path, file_name, lookup_path};
use crate::worker::{Host, HostError, HostOp, Worker};
use vstd::prelude::*;
use vstd::string::StringExecFns;

verus! {

/// An experiment that installs a package of replacement binaries and
/// redirects each existing command of the same name to it, or to one
/// unified multi-call binary when one is configured.
pub struct UutilsExperiment {
    name: String,
    package: String,
    supported_releases: Vec<String>,
    unified_binary: Option<String>,
    bin_directory: String,
}

/// `after` is `before` followed by one installed query for `package`, and
/// `r` holds exactly when that query answered installed.
pub open spec fn installed_recorded(
    package: Seq<char>,
    before: Seq<HostOp>,
    after: Seq<HostOp>,
    r: bool,
) -> bool {
    &&& after.len() == before.len() + 1
    &&& after.drop_last() == before
    &&& after.last() is InstalledQuery
    &&& after.last()->InstalledQuery_package == package
    &&& r == (after.last()->InstalledQuery_answer == Some(true))
}

/// Whether a recorded link or restore request was carried out.
pub open spec fn done_ok(op: HostOp) -> bool {
    match op {
        HostOp::Link { ok, .. } => ok,
        HostOp::Restore { ok, .. } => ok,
        _ => false,
    }
}

proof fn lemma_prefix_push(a: Seq<HostOp>, b: Seq<HostOp>, x: HostOp)
    requires
        a.is_prefix_of(b),
    ensures
        a.is_prefix_of(b.push(x)),
{
    assert(b.push(x).subrange(0, a.len() as int) =~= b.subrange(0, a.len() as int));
}


impl UutilsExperiment {
    /// The experiment's name.
    pub closed spec fn name_view(&self) -> Seq<char> {
        self.name@
    }

    /// The package that holds the replacement binaries.
    pub closed spec fn package_view(&self) -> Seq<char> {
        self.package@
    }

    /// The supported releases, in configuration order.
    pub closed spec fn releases(&self) -> Seq<Seq<char>> {
        self.supported_releases@.map_values(|s: String| s@)
    }

    /// The multi-call binary every command is redirected to, if any.
    pub closed spec fn unified_view(&self) -> Option<Seq<char>> {
        match self.unified_binary {
            Some(u) => Some(u@),
            None => None,
        }
    }

    /// The directory that holds the replacement binaries.
    pub closed spec fn bin_dir_view(&self) -> Seq<char> {
        self.bin_directory@
    }

    /// Where a listed replacement file's command gets redirected to.
    pub open spec fn link_target(&self, entry: Seq<char>) -> Seq<char> {
        match self.unified_view() {
            Some(u) => u,
            None => entry,
        }
    }

    /// The link requests for the listed entries and their existing paths.

    /// `lookup` then `act` are the requests made for one listed `entry`:
    /// the lookup of its file name, then a link (or, when `restoring`, a
    /// restore) of the path the lookup leads to.
    pub open spec fn step_fits(
        &self,
        entry: Seq<char>,
        lookup: HostOp,
        act: HostOp,
        restoring: bool,
    ) -> bool {
        &&& lookup is Lookup
        &&& lookup->Lookup_name == file_name(entry)
        &&& lookup_path(file_name(entry), lookup->Lookup_answer) matches Some(path)
        &&& if restoring {
            act is Restore && act->Restore_path == path
        } else {
            act is Link && act->Link_path == path && act->Link_target == self.link_target(entry)
        }
    }

    /// Walking the listed `entries` in order produced exactly `ops`: for
    /// each entry its lookup and its link (or restore), ending right after
    /// the first failed request. `Some(true)` when every entry was done,
    /// `Some(false)` when the walk stopped on a failure, `None` when `ops`
    /// is no such walk.
    pub open spec fn walk(&self, entries: Seq<Seq<char>>, ops: Seq<HostOp>, restoring: bool) -> Option<
        bool,
    >
        decreases entries.len(),
    {
        if entries.len() == 0 {
            if ops.len() == 0 {
                Some(true)
            } else {
                None
            }
        } else if ops.len() == 1 && ops[0] is Lookup && ops[0]->Lookup_name == file_name(entries[0])
            && lookup_path(file_name(entries[0]), ops[0]->Lookup_answer) is None {
            Some(false)
        } else if ops.len() >= 2 && self.step_fits(entries[0], ops[0], ops[1], restoring) {
            if done_ok(ops[1]) {
                self.walk(entries.drop_first(), ops.subrange(2, ops.len() as int), restoring)
            } else if ops.len() == 2 {
                Some(false)
            } else {
                None
            }
        } else {
            None
        }
    }

    /// `ops` are exactly the requests of an `enable` run: the install;
    /// unless it failed, the listing of the replacement directory; unless
    /// that failed, the walk over the listing. `Some(true)` when every
    /// request succeeded, `Some(false)` when the run ended on a failure.
    pub open spec fn enable_steps(&self, ops: Seq<HostOp>) -> Option<bool> {
        if ops.len() == 0 || !(ops[0] == HostOp::Install {
            package: self.package_view(),
            ok: ops[0]->Install_ok,
        }) {
            None
        } else if !ops[0]->Install_ok {
            if ops.len() == 1 {
                Some(false)
            } else {
                None
            }
        } else if ops.len() < 2 || !(ops[1] is Listed && ops[1]->Listed_directory
            == self.bin_dir_view()) {
            None
        } else {
            match ops[1]->Listed_answer {
                None => if ops.len() == 2 {
                    Some(false)
                } else {
                    None
                },
                Some(entries) => self.walk(entries, ops.subrange(2, ops.len() as int), false),
            }
        }
    }

    /// `ops` are exactly the requests of a `disable` run: the listing of
    /// the replacement directory; unless it failed, the restoring walk over
    /// the listing; and only if every restore succeeded, the removal of the
    /// package. `Some(true)` when every request succeeded, `Some(false)`
    /// when the run ended on a failure.
    pub open spec fn disable_steps(&self, ops: Seq<HostOp>) -> Option<bool> {
        if ops.len() == 0 || !(ops[0] is Listed && ops[0]->Listed_directory == self.bin_dir_view()) {
            None
        } else {
            match ops[0]->Listed_answer {
                None => if ops.len() == 1 {
                    Some(false)
                } else {
                    None
                },
                Some(entries) => {
                    let rest = ops.subrange(1, ops.len() as int);
                    if rest.len() > 0 && rest.last() is Remove {
                        if rest.last()->Remove_package == self.package_view() && self.walk(
                            entries,
                            rest.drop_last(),
                            true,
                        ) == Some(true) {
                            Some(rest.last()->Remove_ok)
                        } else {
                            None
                        }
                    } else if self.walk(entries, rest, true) == Some(false) {
                        Some(false)
                    } else {
                        None
                    }
                },
            }
        }
    }

    /// A walk that has done the first `i` entries continues, on the rest of
    /// the requests, as a walk over the remaining entries.
    pub proof fn lemma_walk_split(
        &self,
        entries: Seq<Seq<char>>,
        i: int,
        done: Seq<HostOp>,
        rest: Seq<HostOp>,
        restoring: bool,
    )
        requires
            0 <= i <= entries.len(),
            self.walk(entries.take(i), done, restoring) == Some(true),
        ensures
            self.walk(entries, done + rest, restoring) == self.walk(entries.skip(i), rest, restoring),
        decreases i,
    {
        if i == 0 {
            assert(done.len() == 0);
            assert(done + rest =~= rest);
            assert(entries.skip(0) =~= entries);
        } else {
            let e = entries.take(i);
            assert(e[0] == entries[0]);
            assert(done.len() >= 2);
            let all = done + rest;
            assert(all[0] == done[0] && all[1] == done[1]);
            assert(all.subrange(2, all.len() as int) =~= done.subrange(2, done.len() as int) + rest);
            assert(e.drop_first() =~= entries.drop_first().take(i - 1));
            self.lemma_walk_split(
                entries.drop_first(),
                i - 1,
                done.subrange(2, done.len() as int),
                rest,
                restoring,
            );
            assert(entries.drop_first().skip(i - 1) =~= entries.skip(i));
        }
    }

    /// Creates an experiment from its configuration.
    pub fn new(
        name: &str,
        package: &str,
        supported_releases: &[&str],
        unified_binary: Option<String>,
        bin_directory: String,
    ) -> (r: Self)
        ensures
            r.name_view() == name@,
            r.package_view() == package@,
            r.releases() == supported_releases@.map_values(|s: &str| s@),
            r.unified_view() == (match unified_binary {
                Some(u) => Some(u@),
                None => None::<Seq<char>>,
            }),
            r.bin_dir_view() == bin_directory@,
    {
        let mut releases: Vec<String> = Vec::new();
        let mut i: usize = 0;
        while i < supported_releases.len()
            invariant
                i <= supported_releases@.len(),
                releases@.len() == i,
                forall|j: int| 0 <= j < i ==> releases@[j]@ == supported_releases@[j]@,
            decreases supported_releases@.len() - i,
        {
            let s: &str = supported_releases[i];
            let t = String::from_str(s);
            assert(t@ == supported_releases@[i as int]@);
            let ghost before = releases@;
            releases.push(t);
            assert(releases@ == before.push(t));
            i = i + 1;
        }
        assert(releases@.map_values(|s: String| s@) =~= supported_releases@.map_values(
            |s: &str| s@,
        ));
        UutilsExperiment {
            name: String::from_str(name),
            package: String::from_str(package),
            supported_releases: releases,
            unified_binary,
            bin_directory,
        }
    }

    /// Whether `release` is one of the supported releases (exact match).
    pub fn supports_release(&self, release: &str) -> (r: bool)
        ensures
            r == self.releases().contains(release@),
    {
        let wanted = String::from_str(release);
        let mut i: usize = 0;
        while i < self.supported_releases.len()
            invariant
                i <= self.supported_releases@.len(),
                wanted@ == release@,
                forall|j: int| 0 <= j < i ==> self.supported_releases@[j]@ != release@,
            decreases self.supported_releases@.len() - i,
        {
            if self.supported_releases[i] == wanted {
                assert(self.releases()[i as int] == release@);
                return true;
            }
            i = i + 1;
        }
        assert(!self.releases().contains(release@)) by {
            if self.releases().contains(release@) {
                let j = choose|j: int| 0 <= j < self.releases().len() && self.releases()[j] == release@;
                assert(self.supported_releases@[j]@ == release@);
            }
        }
        false
    }

    /// `after` is `before` followed by one release query, and `r` is what
    /// the compatibility check answers on that reported release.
    pub open spec fn compatibility_recorded(
        &self,
        before: Seq<HostOp>,
        after: Seq<HostOp>,
        r: Result<bool, HostError>,
    ) -> bool {
        &&& after.len() == before.len() + 1
        &&& after.drop_last() == before
        &&& after.last() is ReleaseQuery
        &&& match after.last()->ReleaseQuery_0 {
            Some(rel) => r matches Ok(b) && b == self.releases().contains(rel),
            None => r is Err,
        }
    }

    /// Whether the host's reported release is supported. Fails when the
    /// distribution cannot be determined.
    pub fn check_compatible<W: Worker>(&self, system: &mut Host<W>) -> (r: Result<bool, HostError>)
        ensures
            self.compatibility_recorded(old(system).journal(), final(system).journal(), r),
    {
        let d = system.distribution();
        assert(system.journal().drop_last() =~= old(system).journal());
        match d {
            Ok(d) => Ok(self.supports_release(d.release.as_str())),
            Err(e) => Err(e),
        }
    }

    /// The supported releases, in configuration order.
    pub fn supported_releases(&self) -> (r: Vec<String>)
        ensures
            r@.map_values(|s: String| s@) == self.releases(),
    {
        let mut out: Vec<String> = Vec::new();
        let mut i: usize = 0;
        while i < self.supported_releases.len()
            invariant
                i <= self.supported_releases@.len(),
                out@.len() == i,
                forall|j: int| 0 <= j < i ==> out@[j]@ == self.supported_releases@[j]@,
            decreases self.supported_releases@.len() - i,
        {
            out.push(self.supported_releases[i].clone());
            i = i + 1;
        }
        assert(out@.map_values(|s: String| s@) =~= self.releases());
        out
    }

    /// Whether the package is installed; a failed query counts as not.
    pub fn check_installed<W: Worker>(&self, system: &mut Host<W>) -> (r: bool)
        ensures
            installed_recorded(self.package_view(), old(system).journal(), final(system).journal(), r),
    {
        let q = system.check_installed(self.package.as_str());
        let ghost answer: Option<bool> = if q is Ok {
            Some(q->Ok_0)
        } else {
            None
        };
        let r = match q {
            Ok(b) => b,
            Err(_) => false,
        };
        assert(system.journal().last() == HostOp::InstalledQuery {
            package: self.package_view(),
            answer,
        });
        assert(system.journal().drop_last() =~= old(system).journal());
        r
    }

    /// The experiment's name.
    pub fn name(&self) -> (r: String)
        ensures
            r@ == self.name_view(),
    {
        self.name.clone()
    }

    /// Installs the package, then redirects the existing path of every
    /// file in the replacement directory, in listing order. The first
    /// failing request ends the run, and its error is returned; what was
    /// done before it stays done, so the requests made always form a

    /// Installs the package, then for every file in the replacement
    /// directory, in listing order, looks up its name and redirects the
    /// path found (or the fallback) to the link target. The first failing
    /// request ends the run, with its error; what was done before it stays.
    pub fn enable<W: Worker>(&self, system: &mut Host<W>) -> (r: Result<(), HostError>)
        ensures
            old(system).journal().is_prefix_of(final(system).journal()),
            self.enable_steps(
                final(system).journal().subrange(
                    old(system).journal().len() as int,
                    final(system).journal().len() as int,
                ),
            ) == Some(r is Ok),
    {
        let ghost j0 = system.journal();
        let installed = system.install_package(self.package.as_str());
        proof {
            assert(j0.subrange(0, j0.len() as int) =~= j0);
            lemma_prefix_push(j0, j0, system.journal().last());
        }
        if let Err(e) = installed {
            proof {
                assert(system.journal().subrange(j0.len() as int, system.journal().len() as int)
                    =~= seq![HostOp::Install { package: self.package_view(), ok: false }]);
            }
            return Err(e);
        }
        let ghost j1 = system.journal();
        let listed = system.list_files(self.bin_directory.as_str());
        proof {
            lemma_prefix_push(j0, j1, system.journal().last());
        }
        let files = match listed {
            Ok(fs) => fs,
            Err(e) => {
                proof {
                    assert(system.journal().subrange(j0.len() as int, system.journal().len() as int)
                        =~= seq![
                        HostOp::Install { package: self.package_view(), ok: true },
                        HostOp::Listed { directory: self.bin_dir_view(), answer: None },
                    ]);
                }
                return Err(e);
            },
        };
        let ghost entries = files@.map_values(|f: String| f@);
        let ghost head = seq![
            HostOp::Install { package: self.package_view(), ok: true },
            HostOp::Listed { directory: self.bin_dir_view(), answer: Some(entries) },
        ];
        let ghost mut done: Seq<HostOp> = Seq::empty();
        proof {
            assert(system.journal() =~= j0 + head + done);
            assert(entries.take(0) =~= Seq::<Seq<char>>::empty());
        }
        let mut i: usize = 0;
        while i < files.len()
            invariant
                i <= files@.len(),
                entries == files@.map_values(|f: String| f@),
                head == seq![
                    HostOp::Install { package: self.package_view(), ok: true },
                    HostOp::Listed { directory: self.bin_dir_view(), answer: Some(entries) },
                ],
                j0 == old(system).journal(),
                j0.is_prefix_of(system.journal()),
                system.journal() == j0 + head + done,
                self.walk(entries.take(i as int), done, false) == Some(true),
            decreases files@.len() - i,
        {
            let name = base_name(files[i].as_str());
            let ghost before = system.journal();
            let lookup = system.which(name.as_str());
            let ghost lk = system.journal().last();
            proof {
                lemma_prefix_push(j0, before, lk);
            }
            let existing = match existing_path(name.as_str(), lookup) {
                Ok(p) => p,
                Err(e) => {
                    proof {
                        self.lemma_walk_split(entries, i as int, done, seq![lk], false);
                        assert(entries.skip(i as int)[0] == entries[i as int]);
                        assert(system.journal().subrange(j0.len() as int, system.journal().len() as int)
                            =~= head + (done + seq![lk]));
                        assert((head + (done + seq![lk])).subrange(2, (head + (done + seq![lk])).len() as int)
                            =~= done + seq![lk]);
                    }
                    return Err(e);
                },
            };
            let ghost mid = system.journal();
            let res = match &self.unified_binary {
                Some(u) => system.replace_file_with_symlink(u.as_str(), existing.as_str()),
                None => system.replace_file_with_symlink(files[i].as_str(), existing.as_str()),
            };
            let ghost act = system.journal().last();
            proof {
                lemma_prefix_push(j0, mid, act);
                assert(self.step_fits(entries[i as int], lk, act, false));
                let tail = seq![lk, act];
                self.lemma_walk_split(entries, i as int, done, tail, false);
                assert(entries.skip(i as int)[0] == entries[i as int]);
                assert(tail.subrange(2, 2) =~= Seq::<HostOp>::empty());
                assert(entries.skip(i as int).drop_first() =~= entries.skip(i + 1));
                assert(system.journal() =~= j0 + head + (done + tail));
                assert(system.journal().subrange(j0.len() as int, system.journal().len() as int)
                    =~= head + (done + tail));
                assert((head + (done + tail)).subrange(2, (head + (done + tail)).len() as int)
                    =~= done + tail);
                if done_ok(act) {
                    let e1 = entries.take(i + 1);
                    assert(e1.take(i as int) =~= entries.take(i as int));
                    self.lemma_walk_split(e1, i as int, done, tail, false);
                    let one = e1.skip(i as int);
                    assert(one =~= seq![entries[i as int]]);
                    assert(one.drop_first() =~= Seq::<Seq<char>>::empty());
                    assert(self.walk(one.drop_first(), tail.subrange(2, 2), false) == Some(true));
                    assert(self.walk(one, tail, false) == Some(true));
                }
                done = done + tail;
            }
            if let Err(e) = res {
                return Err(e);
            }
            i = i + 1;
        }
        proof {
            assert(entries.take(i as int) =~= entries);
            assert(system.journal().subrange(j0.len() as int, system.journal().len() as int)
                =~= head + done);
            assert((head + done).subrange(2, (head + done).len() as int) =~= done);
        }
        Ok(())
    }

    /// For every file in the replacement directory, in listing order,
    /// looks up its name and restores the path found (or the fallback), by
    /// the same rule as `enable`; once every restore succeeded, removes the
    /// package. The first failing request ends the run, with its error.
    pub fn disable<W: Worker>(&self, system: &mut Host<W>) -> (r: Result<(), HostError>)
        ensures
            old(system).journal().is_prefix_of(final(system).journal()),
            self.disable_steps(
                final(system).journal().subrange(
                    old(system).journal().len() as int,
                    final(system).journal().len() as int,
                ),
            ) == Some(r is Ok),
    {
        let ghost j0 = system.journal();
        let listed = system.list_files(self.bin_directory.as_str());
        proof {
            assert(j0.subrange(0, j0.len() as int) =~= j0);
            lemma_prefix_push(j0, j0, system.journal().last());
        }
        let files = match listed {
            Ok(fs) => fs,
            Err(e) => {
                proof {
                    assert(system.journal().subrange(j0.len() as int, system.journal().len() as int)
                        =~= seq![HostOp::Listed { directory: self.bin_dir_view(), answer: None }]);
                }
                return Err(e);
            },
        };
        let ghost entries = files@.map_values(|f: String| f@);
        let ghost head = seq![HostOp::Listed { directory: self.bin_dir_view(), answer: Some(entries) }];
        let ghost mut done: Seq<HostOp> = Seq::empty();
        proof {
            assert(system.journal() =~= j0 + head + done);
            assert(entries.take(0) =~= Seq::<Seq<char>>::empty());
        }
        let mut i: usize = 0;
        while i < files.len()
            invariant
                i <= files@.len(),
                entries == files@.map_values(|f: String| f@),
                head == seq![HostOp::Listed { directory: self.bin_dir_view(), answer: Some(entries) }],
                j0 == old(system).journal(),
                j0.is_prefix_of(system.journal()),
                system.journal() == j0 + head + done,
                self.walk(entries.take(i as int), done, true) == Some(true),
            decreases files@.len() - i,
        {
            let name = base_name(files[i].as_str());
            let ghost before = system.journal();
            let lookup = system.which(name.as_str());
            let ghost lk = system.journal().last();
            proof {
                lemma_prefix_push(j0, before, lk);
            }
            let existing = match existing_path(name.as_str(), lookup) {
                Ok(p) => p,
                Err(e) => {
                    proof {
                        self.lemma_walk_split(entries, i as int, done, seq![lk], true);
                        assert(entries.skip(i as int)[0] == entries[i as int]);
                        let ops = head + (done + seq![lk]);
                        assert(system.journal().subrange(j0.len() as int, system.journal().len() as int)
                            =~= ops);
                        assert(ops.subrange(1, ops.len() as int) =~= done + seq![lk]);
                    }
                    return Err(e);
                },
            };
            let ghost mid = system.journal();
            let res = system.restore_file(existing.as_str());
            let ghost act = system.journal().last();
            proof {
                lemma_prefix_push(j0, mid, act);
                assert(self.step_fits(entries[i as int], lk, act, true));
                let tail = seq![lk, act];
                self.lemma_walk_split(entries, i as int, done, tail, true);
                assert(entries.skip(i as int)[0] == entries[i as int]);
                assert(tail.subrange(2, 2) =~= Seq::<HostOp>::empty());
                assert(system.journal() =~= j0 + head + (done + tail));
                let ops = head + (done + tail);
                assert(system.journal().subrange(j0.len() as int, system.journal().len() as int)
                    =~= ops);
                assert(ops.subrange(1, ops.len() as int) =~= done + tail);
                if done_ok(act) {
                    let e1 = entries.take(i + 1);
                    assert(e1.take(i as int) =~= entries.take(i as int));
                    self.lemma_walk_split(e1, i as int, done, tail, true);
                    let one = e1.skip(i as int);
                    assert(one =~= seq![entries[i as int]]);
                    assert(one.drop_first() =~= Seq::<Seq<char>>::empty());
                    assert(self.walk(one.drop_first(), tail.subrange(2, 2), true) == Some(true));
                    assert(self.walk(one, tail, true) == Some(true));
                }
                done = done + tail;
            }
            if let Err(e) = res {
                return Err(e);
            }
            i = i + 1;
        }
        let ghost prev = system.journal();
        let res = system.remove_package(self.package.as_str());
        proof {
            lemma_prefix_push(j0, prev, system.journal().last());
            assert(entries.take(i as int) =~= entries);
            let ops = head + done.push(system.journal().last());
            assert(system.journal().subrange(j0.len() as int, system.journal().len() as int) =~= ops);
            assert(ops.subrange(1, ops.len() as int) =~= done.push(system.journal().last()));
            assert(done.push(system.journal().last()).drop_last() =~= done);
        }
        res
    }
}

} // verus!
