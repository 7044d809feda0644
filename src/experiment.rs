use crate::uutils::{installed_recorded, UutilsExperiment};
use crate::worker::{Host, HostError, HostOp, Worker};
use vstd::prelude::*;
use vstd::string::StringExecFns;

verus! {

/// The closed set of experiment kinds, behind one lifecycle.
pub enum Experiment {
    Uutils(UutilsExperiment),
}

impl Experiment {
    pub open spec fn name_view(&self) -> Seq<char> {
        match self {
            Experiment::Uutils(e) => e.name_view(),
        }
    }

    pub open spec fn package_view(&self) -> Seq<char> {
        match self {
            Experiment::Uutils(e) => e.package_view(),
        }
    }

    pub open spec fn releases(&self) -> Seq<Seq<char>> {
        match self {
            Experiment::Uutils(e) => e.releases(),
        }
    }

    /// `after` extends `before` by exactly the requests of a run of the
    /// variant's `enable`, which returned `r`.
    pub open spec fn enable_done(&self, before: Seq<HostOp>, after: Seq<HostOp>, r: Result<(), HostError>) -> bool {
        &&& before.is_prefix_of(after)
        &&& match self {
            Experiment::Uutils(e) => e.enable_steps(
                after.subrange(before.len() as int, after.len() as int),
            ) == Some(r is Ok),
        }
    }

    /// `after` extends `before` by exactly the requests of a run of the
    /// variant's `disable`, which returned `r`.
    pub open spec fn disable_done(&self, before: Seq<HostOp>, after: Seq<HostOp>, r: Result<(), HostError>) -> bool {
        &&& before.is_prefix_of(after)
        &&& match self {
            Experiment::Uutils(e) => e.disable_steps(
                after.subrange(before.len() as int, after.len() as int),
            ) == Some(r is Ok),
        }
    }

    /// What `enable` did, as the journal shows it. With the check, the
    /// first request is a release query: an undetermined release is an
    /// error and an unsupported one a successful no-op, with nothing more
    /// requested; a supported one is followed by the variant's `enable`,
    /// as it is when the check is skipped, and its result is returned.
    pub open spec fn enable_outcome(
        &self,
        no_compatibility_check: bool,
        before: Seq<HostOp>,
        after: Seq<HostOp>,
        r: Result<(), HostError>,
    ) -> bool {
        if no_compatibility_check {
            self.enable_done(before, after, r)
        } else {
            &&& after.len() > before.len()
            &&& after[before.len() as int] is ReleaseQuery
            &&& {
                let reported = after[before.len() as int]->ReleaseQuery_0;
                let checked = before.push(HostOp::ReleaseQuery(reported));
                &&& checked.is_prefix_of(after)
                &&& match reported {
                    None => r is Err && after == checked,
                    Some(rel) => if self.releases().contains(rel) {
                        self.enable_done(checked, after, r)
                    } else {
                        r is Ok && after == checked
                    },
                }
            }
        }
    }

    /// What `disable` did, as the journal shows it: first an installed
    /// query for the package; unless it answered installed, a successful
    /// no-op with nothing more requested, else the variant's `disable`,
    /// whose result is returned.
    pub open spec fn disable_outcome(
        &self,
        before: Seq<HostOp>,
        after: Seq<HostOp>,
        r: Result<(), HostError>,
    ) -> bool {
        &&& after.len() > before.len()
        &&& after[before.len() as int] is InstalledQuery
        &&& after[before.len() as int]->InstalledQuery_package == self.package_view()
        &&& {
            let checked = before.push(after[before.len() as int]);
            &&& checked.is_prefix_of(after)
            &&& if after[before.len() as int]->InstalledQuery_answer == Some(true) {
                self.disable_done(checked, after, r)
            } else {
                r is Ok && after == checked
            }
        }
    }

    /// The experiment's name.
    pub fn name(&self) -> (r: String)
        ensures
            r@ == self.name_view(),
    {
        match self {
            Experiment::Uutils(e) => e.name(),
        }
    }

    /// Enables the experiment. Unless the check is skipped, an unsupported
    /// release makes this a successful no-op, and a release that cannot be
    /// determined is an error, before any change to the host.
    pub fn enable<W: Worker>(&self, system: &mut Host<W>, no_compatibility_check: bool) -> (r:
        Result<(), HostError>)
        ensures
            self.enable_outcome(
                no_compatibility_check,
                old(system).journal(),
                final(system).journal(),
                r,
            ),
    {
        let ghost j0 = system.journal();
        if !no_compatibility_check {
            let c = self.check_compatible(system);
            let ghost j1 = system.journal();
            proof {
                assert(j1[j0.len() as int] == j1.last());
                assert(j1.subrange(0, j1.len() as int) =~= j1);
            }
            match c {
                Err(e) => {
                    return Err(e);
                },
                Ok(false) => {
                    return Ok(());
                },
                Ok(true) => {},
            }
            let r = match self {
                Experiment::Uutils(e) => e.enable(system),
            };
            proof {
                assert(j1 =~= j0.push(HostOp::ReleaseQuery(j1.last()->ReleaseQuery_0)));
                assert(system.journal()[j0.len() as int] == j1[j0.len() as int]);
            }
            return r;
        }
        match self {
            Experiment::Uutils(e) => e.enable(system),
        }
    }

    /// Disables the experiment. When the package is not known to be
    /// installed this is a successful no-op.
    pub fn disable<W: Worker>(&self, system: &mut Host<W>) -> (r: Result<(), HostError>)
        ensures
            self.disable_outcome(old(system).journal(), final(system).journal(), r),
    {
        let ghost j0 = system.journal();
        let installed = self.check_installed(system);
        let ghost j1 = system.journal();
        proof {
            assert(j1[j0.len() as int] == j1.last());
            assert(j1.subrange(0, j1.len() as int) =~= j1);
            assert(j0.push(j1[j0.len() as int]) =~= j1);
        }
        if !installed {
            return Ok(());
        }
        let r = match self {
            Experiment::Uutils(e) => e.disable(system),
        };
        proof {
            assert(system.journal()[j0.len() as int] == j1[j0.len() as int]);
        }
        r
    }

    /// Whether the host's release is supported; fails when it cannot be
    /// determined.
    pub fn check_compatible<W: Worker>(&self, system: &mut Host<W>) -> (r: Result<bool, HostError>)
        ensures
            match self {
                Experiment::Uutils(e) => e.compatibility_recorded(
                    old(system).journal(),
                    final(system).journal(),
                    r,
                ),
            },
    {
        match self {
            Experiment::Uutils(e) => e.check_compatible(system),
        }
    }

    /// The supported releases, in configuration order.
    pub fn supported_releases(&self) -> (r: Vec<String>)
        ensures
            r@.map_values(|s: String| s@) == self.releases(),
    {
        match self {
            Experiment::Uutils(e) => e.supported_releases(),
        }
    }

    /// Whether the package is installed; a failed query counts as not.
    pub fn check_installed<W: Worker>(&self, system: &mut Host<W>) -> (r: bool)
        ensures
            installed_recorded(self.package_view(), old(system).journal(), final(system).journal(), r),
    {
        match self {
            Experiment::Uutils(e) => e.check_installed(system),
        }
    }
}

/// The experiment's configuration, as views.
pub open spec fn configured(
    e: Experiment,
    name: Seq<char>,
    package: Seq<char>,
    releases: Seq<Seq<char>>,
    unified: Option<Seq<char>>,
    dir: Seq<char>,
) -> bool {
    match e {
        Experiment::Uutils(u) => u.name_view() == name && u.package_view() == package
            && u.releases() == releases && u.unified_view() == unified && u.bin_dir_view() == dir,
    }
}

/// Every experiment known to this host, in a fixed order.
pub fn all_experiments() -> (r: Vec<Experiment>)
    ensures
        r@.len() == 3,
        configured(
            r@[0],
            "coreutils"@,
            "uutils-coreutils"@,
            seq!["42"@],
            Some("/usr/bin/coreutils"@),
            "/usr/libexec/uutils-coreutils"@,
        ),
        configured(
            r@[1],
            "diffutils"@,
            "uutils-diffutils"@,
            seq!["42"@],
            Some("/usr/libexec/uutils-diffutils"@),
            "/usr/libexec/uutils-diffutils"@,
        ),
        configured(
            r@[2],
            "findutils"@,
            "uutils-findutils"@,
            seq!["42"@],
            None,
            "/usr/libexec/uutils-findutils"@,
        ),
{
    let supported: [&str; 1] = ["42"];
    let releases: &[&str] = supported.as_slice();
    let coreutils = UutilsExperiment::new(
        "coreutils",
        "uutils-coreutils",
        releases,
        Some(String::from_str("/usr/bin/coreutils")),
        String::from_str("/usr/libexec/uutils-coreutils"),
    );
    let diffutils = UutilsExperiment::new(
        "diffutils",
        "uutils-diffutils",
        releases,
        Some(String::from_str("/usr/libexec/uutils-diffutils")),
        String::from_str("/usr/libexec/uutils-diffutils"),
    );
    let findutils = UutilsExperiment::new(
        "findutils",
        "uutils-findutils",
        releases,
        None,
        String::from_str("/usr/libexec/uutils-findutils"),
    );
    proof {
        assert(releases@.map_values(|s: &str| s@) =~= seq!["42"@]);
    }
    vec![
        Experiment::Uutils(coreutils),
        Experiment::Uutils(diffutils),
        Experiment::Uutils(findutils),
    ]
}

} // verus!
