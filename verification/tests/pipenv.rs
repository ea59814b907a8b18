use spec_topics::pipenv::{
    install_pipenv_binary, install_project_packages, setup_pipenv, CommandLine, Package, Pipfile, SetupError,
};

fn pipfile(entries: &[(&str, &str)]) -> Pipfile {
    Pipfile {
        packages: entries
            .iter()
            .map(|(n, v)| Package { name: n.to_string(), version: v.to_string() })
            .collect(),
    }
}

fn parts(c: &CommandLine) -> (String, Vec<String>) {
    (c.program.clone(), c.args.clone())
}

#[test]
fn pipenv_binary_at_pinned_version() {
    let p = pipfile(&[("black", "==23.1"), ("pipenv", "==2023.10.24")]);
    let c = install_pipenv_binary(&p).ok().unwrap();
    assert_eq!(parts(&c), ("pip3".to_string(), vec!["install".to_string(), "pipenv==2023.10.24".to_string()]));
}

#[test]
fn pipenv_missing_is_an_error() {
    let p = pipfile(&[("black", "==23.1"), ("Pipenv", "==1")]);
    match install_pipenv_binary(&p) {
        Err(SetupError::PipenvNotInPipfile) => {}
        Ok(_) => panic!("expected an error"),
    }
    let e = SetupError::PipenvNotInPipfile;
    assert_eq!(e.message(), "Failed to find 'pipenv' in 'Pipfile' packages.");
}

#[test]
fn pipenv_first_entry_counts() {
    let p = pipfile(&[("pipenv", "==1"), ("pipenv", "==2")]);
    let c = install_pipenv_binary(&p).ok().unwrap();
    assert_eq!(c.args[1], "pipenv==1");
}

#[test]
fn project_packages_outside_ci() {
    let c = install_project_packages(false);
    assert_eq!(
        parts(&c),
        ("python3".to_string(), vec!["-m".to_string(), "pipenv".to_string(), "install".to_string()])
    );
}

#[test]
fn project_packages_in_ci() {
    let c = install_project_packages(true);
    assert_eq!(
        parts(&c),
        (
            "python3".to_string(),
            vec!["-m".to_string(), "pipenv".to_string(), "install".to_string(), "--deploy".to_string()]
        )
    );
}

#[test]
fn setup_plans_both_commands_in_order() {
    let p = pipfile(&[("pipenv", "==2024.0.1")]);
    let cs = setup_pipenv(&p, true).ok().unwrap();
    assert_eq!(cs.len(), 2);
    assert_eq!(parts(&cs[0]), ("pip3".to_string(), vec!["install".to_string(), "pipenv==2024.0.1".to_string()]));
    assert_eq!(cs[1].program, "python3");
    assert_eq!(cs[1].args.last().unwrap(), "--deploy");
}

#[test]
fn setup_fails_before_any_command() {
    let p = pipfile(&[]);
    assert!(matches!(setup_pipenv(&p, false), Err(SetupError::PipenvNotInPipfile)));
}
