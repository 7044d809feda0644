use vstd::prelude::*;

verus! {

/// The identity of the host operating system.
pub struct Distribution {
    pub id: String,
    pub release: String,
}

/// What went wrong at the host boundary.
#[derive(Clone, Copy, Debug, PartialEq, Eq, Structural)]
pub enum ErrorKind {
    /// The distribution or the installed state could not be determined.
    Detection,
    /// No command of that name is on the search path.
    Resolution,
    /// Installing, removing, linking or restoring failed.
    Mutation,
    /// A restore was asked for a path that has no recorded backup.
    MissingBackup,
}

/// A failed host operation, with a human-readable context.
#[derive(Debug)]
pub struct HostError {
    pub kind: ErrorKind,
    pub detail: String,
}

/// A request to the host, as recorded in a [`Host`]'s journal together
/// with what the host answered or whether it carried the request out.
pub enum HostOp {
    Install { package: Seq<char>, ok: bool },
    Remove { package: Seq<char>, ok: bool },
    /// The listing of a directory; `None` when it could not be listed.
    Listed { directory: Seq<char>, answer: Option<Seq<Seq<char>>> },
    /// A search-path lookup of a command name: the path, or the error kind.
    Lookup { name: Seq<char>, answer: Result<Seq<char>, ErrorKind> },
    /// Back up `path` and replace it with a symlink to `target`.
    Link { target: Seq<char>, path: Seq<char>, ok: bool },
    /// Put the backed-up original of a path back in place.
    Restore { path: Seq<char>, ok: bool },
    /// The release the host reported; `None` when it could not be told.
    ReleaseQuery(Option<Seq<char>>),
    /// Whether a package was reported installed; `None` on a failed query.
    InstalledQuery { package: Seq<char>, answer: Option<bool> },
}

/// The listing that a `list_files` outcome records.
pub open spec fn listing_of(r: Result<Vec<String>, HostError>) -> Option<Seq<Seq<char>>> {
    match r {
        Ok(v) => Some(v@.map_values(|s: String| s@)),
        Err(_) => None,
    }
}

/// The answer that a `which` outcome records.
pub open spec fn answer_of(r: Result<String, HostError>) -> Result<Seq<char>, ErrorKind> {
    match r {
        Ok(p) => Ok(p@),
        Err(e) => Err(e.kind),
    }
}

/// The host capabilities that experiments use.
pub trait Worker {
    fn distribution(&self) -> Result<Distribution, HostError>;

    fn check_installed(&self, package: &str) -> Result<bool, HostError>;

    fn install_package(&mut self, package: &str) -> Result<(), HostError>;

    fn remove_package(&mut self, package: &str) -> Result<(), HostError>;

    /// The paths of the files in `directory`; fails when it does not exist.
    fn list_files(&self, directory: &str) -> Result<Vec<String>, HostError>;

    /// The path that a command name resolves to on the search path.
    fn which(&self, name: &str) -> Result<String, HostError>;

    /// Backs up `path` and replaces it with a symlink to `target`.
    fn replace_file_with_symlink(&mut self, target: &str, path: &str) -> Result<(), HostError>;

    /// Puts the backed-up original of `path` back in place.
    fn restore_file(&mut self, path: &str) -> Result<(), HostError>;
}

/// A worker together with the journal of the requests made through it.
pub struct Host<W: Worker> {
    pub worker: W,
    journal: Ghost<Seq<HostOp>>,
}

impl<W: Worker> Host<W> {
    pub closed spec fn journal(&self) -> Seq<HostOp> {
        self.journal@
    }

    pub closed spec fn worker_view(&self) -> W {
        self.worker
    }

    /// A host with an empty journal.
    pub fn new(worker: W) -> (r: Self)
        ensures
            r.worker_view() == worker,
            r.journal() == Seq::<HostOp>::empty(),
    {
        Host { worker, journal: Ghost(Seq::empty()) }
    }

    pub fn distribution(&mut self) -> (r: Result<Distribution, HostError>)
        ensures
            final(self).journal() == old(self).journal().push(
                HostOp::ReleaseQuery(
                    match r {
                        Ok(d) => Some(d.release@),
                        Err(_) => None,
                    },
                ),
            ),
    {
        let r = self.worker.distribution();
        let ghost reported: Option<Seq<char>> = if r is Ok {
            Some(r->Ok_0.release@)
        } else {
            None
        };
        self.journal = Ghost(self.journal@.push(HostOp::ReleaseQuery(reported)));
        r
    }

    pub fn check_installed(&mut self, package: &str) -> (r: Result<bool, HostError>)
        ensures
            final(self).journal() == old(self).journal().push(
                HostOp::InstalledQuery {
                    package: package@,
                    answer: match r {
                        Ok(b) => Some(b),
                        Err(_) => None,
                    },
                },
            ),
    {
        let r = self.worker.check_installed(package);
        let ghost answer: Option<bool> = if r is Ok {
            Some(r->Ok_0)
        } else {
            None
        };
        self.journal = Ghost(
            self.journal@.push(HostOp::InstalledQuery { package: package@, answer }),
        );
        r
    }

    pub fn install_package(&mut self, package: &str) -> (r: Result<(), HostError>)
        ensures
            final(self).journal() == old(self).journal().push(
                HostOp::Install { package: package@, ok: r is Ok },
            ),
    {
        let r = self.worker.install_package(package);
        self.journal = Ghost(self.journal@.push(HostOp::Install { package: package@, ok: r is Ok }));
        r
    }

    pub fn remove_package(&mut self, package: &str) -> (r: Result<(), HostError>)
        ensures
            final(self).journal() == old(self).journal().push(
                HostOp::Remove { package: package@, ok: r is Ok },
            ),
    {
        let r = self.worker.remove_package(package);
        self.journal = Ghost(self.journal@.push(HostOp::Remove { package: package@, ok: r is Ok }));
        r
    }

    pub fn list_files(&mut self, directory: &str) -> (r: Result<Vec<String>, HostError>)
        ensures
            final(self).journal() == old(self).journal().push(
                HostOp::Listed { directory: directory@, answer: listing_of(r) },
            ),
    {
        let r = self.worker.list_files(directory);
        self.journal = Ghost(
            self.journal@.push(HostOp::Listed { directory: directory@, answer: listing_of(r) }),
        );
        r
    }

    pub fn which(&mut self, name: &str) -> (r: Result<String, HostError>)
        ensures
            final(self).journal() == old(self).journal().push(
                HostOp::Lookup { name: name@, answer: answer_of(r) },
            ),
    {
        let r = self.worker.which(name);
        self.journal = Ghost(self.journal@.push(HostOp::Lookup { name: name@, answer: answer_of(r) }));
        r
    }

    pub fn replace_file_with_symlink(&mut self, target: &str, path: &str) -> (r: Result<
        (),
        HostError,
    >)
        ensures
            final(self).journal() == old(self).journal().push(
                HostOp::Link { target: target@, path: path@, ok: r is Ok },
            ),
    {
        let r = self.worker.replace_file_with_symlink(target, path);
        self.journal = Ghost(
            self.journal@.push(HostOp::Link { target: target@, path: path@, ok: r is Ok }),
        );
        r
    }

    pub fn restore_file(&mut self, path: &str) -> (r: Result<(), HostError>)
        ensures
            final(self).journal() == old(self).journal().push(
                HostOp::Restore { path: path@, ok: r is Ok },
            ),
    {
        let r = self.worker.restore_file(path);
        self.journal = Ghost(self.journal@.push(HostOp::Restore { path: path@, ok: r is Ok }));
        r
    }
}

} // verus!
