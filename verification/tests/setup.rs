use latex_generator::setup::{GitSetup, GitStage};

fn run(setup: &mut GitSetup, outcomes: &[Result<(), &str>]) -> (Vec<String>, Result<(), String>) {
    let mut commands = Vec::new();
    for outcome in outcomes {
        let args = setup.command().expect("a command is left");
        commands.push(args.join(" "));
        let result = setup.record(outcome.map_err(|e| e.to_string()));
        if result.is_err() {
            return (commands, result);
        }
    }
    assert!(setup.command().is_none());
    (commands, Ok(()))
}

#[test]
fn runs_every_command_when_asked() {
    let mut setup = GitSetup::new(Some("git@example.org:r.git".to_string()), true);
    let (commands, result) = run(&mut setup, &[Ok(()), Ok(()), Ok(()), Ok(())]);
    assert_eq!(
        commands,
        vec![
            "init -b main",
            "remote add origin git@example.org:r.git",
            "add --all",
            "commit -m Initial commit",
        ]
    );
    assert!(result.is_ok());
    assert_eq!(setup.configured_remote.as_deref(), Some("git@example.org:r.git"));
    assert!(setup.warnings.is_empty());
}

#[test]
fn skips_what_was_not_asked() {
    let mut setup = GitSetup::new(None, false);
    let (commands, _) = run(&mut setup, &[Ok(())]);
    assert_eq!(commands, vec!["init -b main"]);
    assert!(matches!(setup.stage, GitStage::Done));
    assert!(setup.configured_remote.is_none());
}

#[test]
fn a_failed_init_fails_the_creation() {
    let mut setup = GitSetup::new(Some("r".to_string()), true);
    let (commands, result) = run(&mut setup, &[Err("not a git binary")]);
    assert_eq!(commands, vec!["init -b main"]);
    assert_eq!(result, Err("not a git binary".to_string()));
}

#[test]
fn later_failures_become_warnings() {
    let mut setup = GitSetup::new(Some("r".to_string()), true);
    let (commands, result) = run(&mut setup, &[Ok(()), Err("bad remote"), Err("nothing to add")]);
    assert_eq!(commands, vec!["init -b main", "remote add origin r", "add --all"]);
    assert!(result.is_ok());
    assert!(setup.configured_remote.is_none());
    assert_eq!(
        setup.warnings,
        vec![
            "Could not configure origin: bad remote".to_string(),
            "Could not create the initial commit: nothing to add".to_string(),
        ]
    );

    let mut setup = GitSetup::new(None, true);
    let (_, result) = run(&mut setup, &[Ok(()), Ok(()), Err("no identity")]);
    assert!(result.is_ok());
    assert_eq!(setup.warnings, vec!["Could not create the initial commit: no identity".to_string()]);
}

#[test]
fn configures_the_remote_without_commit() {
    let remote = "git@github.com:example/sample-report.git";
    let mut setup = GitSetup::new(Some(remote.to_string()), false);
    let (commands, result) = run(&mut setup, &[Ok(()), Ok(())]);
    assert_eq!(commands, vec!["init -b main".to_string(), format!("remote add origin {remote}")]);
    assert!(result.is_ok());
    assert_eq!(setup.configured_remote.as_deref(), Some(remote));
}
