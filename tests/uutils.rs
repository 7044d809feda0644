use oxidizr::{
    all_experiments, base_name, existing_path, Distribution, ErrorKind, Experiment, Host,
    HostError, MockSystem, UutilsExperiment,
};

fn vecs_eq<T: Ord + Clone>(a: Vec<T>, b: Vec<T>) -> bool {
    let mut a = a.clone();
    let mut b = b.clone();
    a.sort();
    b.sort();
    a == b
}

fn coreutils_fixture() -> UutilsExperiment {
    UutilsExperiment::new(
        "coreutils",
        "uutils-coreutils",
        &["42", "24.10", "25.04"],
        Some("/usr/bin/coreutils".to_string()),
        "/usr/libexec/uutils-coreutils".to_string(),
    )
}

fn coreutils_compatible_runner() -> Host<MockSystem> {
    let mut runner = MockSystem::default();
    runner.mock_files(vec![
        ("/usr/libexec/uutils-coreutils/date", "", false),
        ("/usr/libexec/uutils-oreutils/sort", "", false),
        ("/usr/bin/sort", "", true),
        ("/usr/bin/date", "", true),
    ]);
    Host::new(runner)
}

fn incompatible_runner() -> Host<MockSystem> {
    Host::new(MockSystem::new(Distribution {
        id: "Fedora".to_string(),
        release: "41".to_string(),
    }))
}

#[test]
fn test_uutils_incompatible_distribution() {
    let mut runner = incompatible_runner();
    let coreutils = coreutils_fixture();
    assert!(!coreutils.check_compatible(&mut runner).unwrap());
}

#[test]
fn test_uutils_install_success_unified_binary() {
    let mut runner = coreutils_compatible_runner();
    let coreutils = coreutils_fixture();

    assert!(coreutils.enable(&mut runner).is_ok());

    let commands = runner.worker.commands();
    assert_eq!(commands, &["dnf install -y uutils-coreutils"]);

    let backed_up_files = runner.worker.backed_up_files();
    let expected = vec!["/usr/bin/date".to_string(), "/usr/bin/sort".to_string()];
    assert!(vecs_eq(backed_up_files, expected));

    let created_symlinks = runner.worker.created_symlinks();
    let expected = vec![
        ("/usr/bin/coreutils".to_string(), "/usr/bin/sort".to_string()),
        ("/usr/bin/coreutils".to_string(), "/usr/bin/date".to_string()),
    ];
    assert!(vecs_eq(created_symlinks, expected));
    assert_eq!(runner.worker.restored_files().len(), 0);
}

#[test]
fn test_uutils_restore_installed() {
    let mut runner = coreutils_compatible_runner();
    runner.worker.mock_install_package("uutils-coreutils");

    let coreutils = coreutils_fixture();
    assert!(coreutils.disable(&mut runner).is_ok());

    assert_eq!(runner.worker.created_symlinks().len(), 0);
    assert_eq!(runner.worker.backed_up_files().len(), 0);

    let commands = runner.worker.commands();
    assert_eq!(commands.len(), 1);
    assert!(commands.contains(&"dnf remove -y uutils-coreutils".to_string()));

    let restored_files = runner.worker.restored_files();
    let expected = vec!["/usr/bin/date".to_string(), "/usr/bin/sort".to_string()];
    assert!(vecs_eq(restored_files, expected));
}

#[test]
fn compatible_release_is_supported() {
    let mut runner = Host::new(MockSystem::default());
    let coreutils = coreutils_fixture();
    assert!(coreutils.check_compatible(&mut runner).unwrap());
    assert!(coreutils.supports_release("24.10"));
    assert!(!coreutils.supports_release("24.1"));
    assert!(!coreutils.supports_release(""));
}

#[test]
fn experiment_skips_incompatible_release() {
    let mut runner = incompatible_runner();
    runner.worker.mock_files(vec![
        ("/usr/libexec/uutils-coreutils/date", "", false),
        ("/usr/bin/date", "", true),
    ]);
    let e = Experiment::Uutils(UutilsExperiment::new(
        "coreutils",
        "uutils-coreutils",
        &["42"],
        Some("/usr/bin/coreutils".to_string()),
        "/usr/libexec/uutils-coreutils".to_string(),
    ));
    assert!(!e.check_compatible(&mut runner).unwrap());
    assert!(e.enable(&mut runner, false).is_ok());
    assert!(runner.worker.commands().is_empty());
    assert!(runner.worker.backed_up_files().is_empty());
    assert!(runner.worker.created_symlinks().is_empty());

    assert!(e.enable(&mut runner, true).is_ok());
    assert_eq!(runner.worker.commands(), vec!["dnf install -y uutils-coreutils".to_string()]);
    assert_eq!(
        runner.worker.created_symlinks(),
        vec![("/usr/bin/coreutils".to_string(), "/usr/bin/date".to_string())]
    );
}

#[test]
fn experiment_disable_skips_when_not_installed() {
    let mut runner = coreutils_compatible_runner();
    let e = Experiment::Uutils(coreutils_fixture());
    assert!(!e.check_installed(&mut runner));
    assert!(e.disable(&mut runner).is_ok());
    assert!(runner.worker.commands().is_empty());
    assert!(runner.worker.restored_files().is_empty());
}

#[test]
fn enable_then_disable_restores_every_path() {
    let mut runner = coreutils_compatible_runner();
    let e = Experiment::Uutils(coreutils_fixture());
    assert!(e.enable(&mut runner, false).is_ok());
    assert!(e.check_installed(&mut runner));
    assert!(e.disable(&mut runner).is_ok());
    assert!(!e.check_installed(&mut runner));
    assert!(vecs_eq(runner.worker.backed_up_files(), runner.worker.restored_files()));
    assert_eq!(
        runner.worker.commands(),
        vec![
            "dnf install -y uutils-coreutils".to_string(),
            "dnf remove -y uutils-coreutils".to_string()
        ]
    );
}

#[test]
fn enable_without_unified_binary_links_each_file() {
    let mut mock = MockSystem::default();
    mock.mock_files(vec![
        ("/usr/libexec/uutils-findutils/find", "", false),
        ("/usr/libexec/uutils-findutils/xargs", "", false),
        ("/usr/bin/find", "", true),
    ]);
    let mut runner = Host::new(mock);
    let findutils = UutilsExperiment::new(
        "findutils",
        "uutils-findutils",
        &["42"],
        None,
        "/usr/libexec/uutils-findutils".to_string(),
    );
    assert!(findutils.enable(&mut runner).is_ok());
    assert_eq!(
        runner.worker.created_symlinks(),
        vec![
            (
                "/usr/libexec/uutils-findutils/find".to_string(),
                "/usr/bin/find".to_string()
            ),
            (
                "/usr/libexec/uutils-findutils/xargs".to_string(),
                "/usr/bin/xargs".to_string()
            ),
        ]
    );
}

#[test]
fn enable_twice_fails_on_second_link() {
    let mut runner = coreutils_compatible_runner();
    let coreutils = coreutils_fixture();
    assert!(coreutils.enable(&mut runner).is_ok());
    let err = coreutils.enable(&mut runner).unwrap_err();
    assert_eq!(err.kind, ErrorKind::Mutation);
}

#[test]
fn enable_fails_without_replacement_directory() {
    let mut runner = Host::new(MockSystem::default());
    let coreutils = coreutils_fixture();
    assert!(coreutils.enable(&mut runner).is_err());
    assert_eq!(runner.worker.commands(), vec!["dnf install -y uutils-coreutils".to_string()]);
    assert!(runner.worker.created_symlinks().is_empty());
}

#[test]
fn base_name_takes_last_component() {
    assert_eq!(base_name("/usr/libexec/uutils-coreutils/date"), "date");
    assert_eq!(base_name("date"), "date");
    assert_eq!(base_name("/usr/bin/"), "");
    assert_eq!(base_name(""), "");
}

#[test]
fn existing_path_resolution_rule() {
    let found = existing_path("date", Ok("/bin/date".to_string()));
    assert_eq!(found.unwrap(), "/bin/date");
    let missing = existing_path(
        "date",
        Err(HostError { kind: ErrorKind::Resolution, detail: "no date".to_string() }),
    );
    assert_eq!(missing.unwrap(), "/usr/bin/date");
    let broken = existing_path(
        "date",
        Err(HostError { kind: ErrorKind::Detection, detail: "broken".to_string() }),
    );
    assert_eq!(broken.unwrap_err().kind, ErrorKind::Detection);
}

#[test]
fn registry_lists_configured_experiments() {
    let all = all_experiments();
    let names: Vec<String> = all.iter().map(|e| e.name()).collect();
    assert_eq!(names, vec!["coreutils", "diffutils", "findutils"]);
    for e in &all {
        assert_eq!(e.supported_releases(), vec!["42".to_string()]);
    }
}
