use crate::paths::base_name;
use crate::worker::{Distribution, ErrorKind, HostError, Worker};
use vstd::prelude::*;
use vstd::string::StringExecFns;

verus! {

/// A file of the virtual host.
struct MockFile {
    path: String,
    on_search_path: bool,
}

/// A virtual host that performs nothing and records every request.
///
/// Seeded files are either on the search path (found by `which` through
/// their last path component) or shipped by a replacement package: the
/// listing of a replacement directory is every seeded file of the latter
/// kind, in seeding order. Originals are not stored, so a restore is
/// recorded and always succeeds; a second link of a path that has not been
/// restored in between fails.
pub struct MockSystem {
    distribution: Distribution,
    files: Vec<MockFile>,
    installed: Vec<String>,
    linked: Vec<String>,
    commands: Vec<String>,
    backed_up_files: Vec<String>,
    created_symlinks: Vec<(String, String)>,
    restored_files: Vec<String>,
}

fn copy_strings(v: &Vec<String>) -> (r: Vec<String>)
    ensures
        r@ == v@,
{
    let mut r: Vec<String> = Vec::new();
    let mut i: usize = 0;
    while i < v.len()
        invariant
            i <= v@.len(),
            r@ == v@.subrange(0, i as int),
        decreases v@.len() - i,
    {
        r.push(v[i].clone());
        i = i + 1;
        assert(r@ =~= v@.subrange(0, i as int));
    }
    assert(v@.subrange(0, i as int) =~= v@);
    r
}

fn position(v: &Vec<String>, s: &String) -> (r: Option<usize>)
    ensures
        match r {
            Some(i) => i < v@.len() && v@[i as int]@ == s@,
            None => forall|i: int| 0 <= i < v@.len() ==> v@[i]@ != s@,
        },
{
    let mut i: usize = 0;
    while i < v.len()
        invariant
            i <= v@.len(),
            forall|j: int| 0 <= j < i ==> v@[j]@ != s@,
        decreases v@.len() - i,
    {
        if v[i] == *s {
            return Some(i);
        }
        i = i + 1;
    }
    None
}

impl MockSystem {
    /// The release this virtual host reports.
    pub closed spec fn release_view(&self) -> Seq<char> {
        self.distribution.release@
    }

    /// The seeded files as (path, on the search path), in seeding order.
    pub closed spec fn files_view(&self) -> Seq<(Seq<char>, bool)> {
        self.files@.map_values(|f: MockFile| (f.path@, f.on_search_path))
    }

    /// Whether a package is installed on this virtual host.
    pub closed spec fn is_installed(&self, package: Seq<char>) -> bool {
        exists|i: int| 0 <= i < self.installed@.len() && self.installed@[i]@ == package
    }

    /// An empty virtual host that reports `distribution`.
    pub fn new(distribution: Distribution) -> (r: Self)
        ensures
            r.release_view() == distribution.release@,
    {
        MockSystem {
            distribution,
            files: Vec::new(),
            installed: Vec::new(),
            linked: Vec::new(),
            commands: Vec::new(),
            backed_up_files: Vec::new(),
            created_symlinks: Vec::new(),
            restored_files: Vec::new(),
        }
    }

    /// Seeds files, each as (path, contents, on the search path).
    pub fn mock_files(&mut self, files: Vec<(&str, &str, bool)>)
        ensures
            final(self).release_view() == old(self).release_view(),
            final(self).files_view() == old(self).files_view() + files@.map_values(
                |f: (&str, &str, bool)| (f.0@, f.2),
            ),
    {
        let mut i: usize = 0;
        while i < files.len()
            invariant
                i <= files@.len(),
                self.release_view() == old(self).release_view(),
                self.files_view() == old(self).files_view() + files@.subrange(0, i as int).map_values(
                    |f: (&str, &str, bool)| (f.0@, f.2),
                ),
            decreases files@.len() - i,
        {
            let (path, _contents, on_search_path) = files[i];
            let ghost prev = self.files_view();
            let f = MockFile { path: String::from_str(path), on_search_path };
            assert(f.path@ == files@[i as int].0@ && f.on_search_path == files@[i as int].2);
            self.files.push(f);
            assert(self.files_view() =~= prev.push((files@[i as int].0@, files@[i as int].2)));
            assert(files@.subrange(0, i + 1) =~= files@.subrange(0, i as int).push(files@[i as int]));
            i = i + 1;
            assert(self.files_view() =~= old(self).files_view() + files@.subrange(
                0,
                i as int,
            ).map_values(|f: (&str, &str, bool)| (f.0@, f.2)));
        }
        assert(files@.subrange(0, i as int) =~= files@);
    }

    /// Marks a package as installed without recording a command.
    pub fn mock_install_package(&mut self, package: &str)
        ensures
            final(self).is_installed(package@),
            final(self).release_view() == old(self).release_view(),
    {
        let p = String::from_str(package);
        if position(&self.installed, &p).is_none() {
            self.installed.push(p);
        }
        assert(self.installed@[self.installed@.len() - 1]@ == package@ || exists|i: int|
            0 <= i < self.installed@.len() && self.installed@[i]@ == package@);
    }

    /// The package-manager commands recorded so far, oldest first.
    pub closed spec fn commands_view(&self) -> Seq<String> {
        self.commands@
    }

    /// The backed-up paths recorded so far, oldest first.
    pub closed spec fn backed_up_view(&self) -> Seq<String> {
        self.backed_up_files@
    }

    /// The restored paths recorded so far, oldest first.
    pub closed spec fn restored_view(&self) -> Seq<String> {
        self.restored_files@
    }

    /// The symlinks recorded so far as (target, path), oldest first.
    pub closed spec fn symlinks_view(&self) -> Seq<(Seq<char>, Seq<char>)> {
        self.created_symlinks@.map_values(|l: (String, String)| (l.0@, l.1@))
    }

    /// The package-manager commands run so far.
    pub fn commands(&self) -> (r: Vec<String>)
        ensures
            r@ == self.commands_view(),
    {
        copy_strings(&self.commands)
    }

    /// The paths backed up so far.
    pub fn backed_up_files(&self) -> (r: Vec<String>)
        ensures
            r@ == self.backed_up_view(),
    {
        copy_strings(&self.backed_up_files)
    }

    /// The paths restored so far.
    pub fn restored_files(&self) -> (r: Vec<String>)
        ensures
            r@ == self.restored_view(),
    {
        copy_strings(&self.restored_files)
    }

    /// The symlinks created so far, as (target, path), oldest first.
    pub fn created_symlinks(&self) -> (r: Vec<(String, String)>)
        ensures
            r@.len() == self.symlinks_view().len(),
            forall|i: int|
                0 <= i < r@.len() ==> #[trigger] r@[i].0@ == self.symlinks_view()[i].0
                    && r@[i].1@ == self.symlinks_view()[i].1,
    {
        let mut r: Vec<(String, String)> = Vec::new();
        let mut i: usize = 0;
        while i < self.created_symlinks.len()
            invariant
                i <= self.created_symlinks@.len(),
                r@.len() == i,
                forall|j: int|
                    0 <= j < i ==> #[trigger] r@[j].0@ == self.created_symlinks@[j].0@
                        && r@[j].1@ == self.created_symlinks@[j].1@,
            decreases self.created_symlinks@.len() - i,
        {
            let (t, p) = &self.created_symlinks[i];
            let pair = (t.clone(), p.clone());
            assert(pair.0@ == self.created_symlinks@[i as int].0@);
            assert(pair.1@ == self.created_symlinks@[i as int].1@);
            let ghost old_r = r@;
            r.push(pair);
            assert(r@ == old_r.push(pair));
            assert forall|j: int| 0 <= j < i + 1 implies #[trigger] r@[j].0@
                == self.created_symlinks@[j].0@ && r@[j].1@ == self.created_symlinks@[j].1@ by {
                if j < i {
                    assert(r@[j] == old_r[j]);
                }
            }
            i = i + 1;
        }
        r
    }
}

impl Default for MockSystem {
    /// An empty virtual host that reports Fedora 42.
    fn default() -> (r: Self)
        ensures
            r.release_view() == "42"@,
    {
        MockSystem::new(
            Distribution { id: String::from_str("Fedora"), release: String::from_str("42") },
        )
    }
}

impl Worker for MockSystem {
    fn distribution(&self) -> (r: Result<Distribution, HostError>) {
        Ok(
            Distribution {
                id: self.distribution.id.clone(),
                release: self.distribution.release.clone(),
            },
        )
    }

    fn check_installed(&self, package: &str) -> (r: Result<bool, HostError>) {
        let p = String::from_str(package);
        Ok(position(&self.installed, &p).is_some())
    }

    fn install_package(&mut self, package: &str) -> (r: Result<(), HostError>) {
        self.commands.push(String::from_str("dnf install -y ").concat(package));
        let p = String::from_str(package);
        if position(&self.installed, &p).is_none() {
            self.installed.push(p);
        }
        Ok(())
    }

    fn remove_package(&mut self, package: &str) -> (r: Result<(), HostError>) {
        self.commands.push(String::from_str("dnf remove -y ").concat(package));
        let p = String::from_str(package);
        if let Some(i) = position(&self.installed, &p) {
            self.installed.remove(i);
        }
        Ok(())
    }

    fn list_files(&self, directory: &str) -> (r: Result<Vec<String>, HostError>) {
        let mut r: Vec<String> = Vec::new();
        let mut i: usize = 0;
        while i < self.files.len()
            invariant
                i <= self.files@.len(),
            decreases self.files@.len() - i,
        {
            if !self.files[i].on_search_path {
                r.push(self.files[i].path.clone());
            }
            i = i + 1;
        }
        if r.len() == 0 {
            Err(
                HostError {
                    kind: ErrorKind::Detection,
                    detail: String::from_str("no such directory: ").concat(directory),
                },
            )
        } else {
            Ok(r)
        }
    }

    fn which(&self, name: &str) -> (r: Result<String, HostError>) {
        let wanted = String::from_str(name);
        let mut i: usize = 0;
        while i < self.files.len()
            invariant
                i <= self.files@.len(),
            decreases self.files@.len() - i,
        {
            if self.files[i].on_search_path && base_name(self.files[i].path.as_str()) == wanted {
                return Ok(self.files[i].path.clone());
            }
            i = i + 1;
        }
        Err(
            HostError {
                kind: ErrorKind::Resolution,
                detail: String::from_str("command not found: ").concat(name),
            },
        )
    }

    fn replace_file_with_symlink(&mut self, target: &str, path: &str) -> (r: Result<
        (),
        HostError,
    >) {
        let p = String::from_str(path);
        if position(&self.linked, &p).is_some() {
            return Err(
                HostError {
                    kind: ErrorKind::Mutation,
                    detail: String::from_str("already replaced: ").concat(path),
                },
            );
        }
        self.backed_up_files.push(String::from_str(path));
        self.created_symlinks.push((String::from_str(target), String::from_str(path)));
        self.linked.push(p);
        Ok(())
    }

    fn restore_file(&mut self, path: &str) -> (r: Result<(), HostError>) {
        let p = String::from_str(path);
        if let Some(i) = position(&self.linked, &p) {
            self.linked.remove(i);
        }
        self.restored_files.push(p);
        Ok(())
    }
}

} // verus!
