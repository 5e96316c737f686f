use zilch::action::{Action, Dialect, Phase, ShellRunError, Step, dialect_for_api};
use zilch::listview::State;
use zilch::package::Package;
use zilch::sync::{ActionQueue, CycleWork};

fn pkg(id: &str, path: &str) -> Package {
    Package { id: id.to_string(), path: path.to_string(), name: None }
}

fn run_of(step: Result<Step, ShellRunError>) -> (String, Phase) {
    match step {
        Ok(Step::Run(cmd, ph)) => (cmd, ph),
        other => panic!("expected a command to run, got {:?}", describe(&other)),
    }
}

fn describe(step: &Result<Step, ShellRunError>) -> &'static str {
    match step {
        Ok(Step::Run(_, _)) => "run",
        Ok(Step::Done) => "done",
        Err(_) => "error",
    }
}

#[test]
fn api_level_selects_the_dialect() {
    assert_eq!(dialect_for_api(19), Dialect::Legacy);
    assert_eq!(dialect_for_api(20), Dialect::Modern);
    assert_eq!(dialect_for_api(34), Dialect::Modern);
}

#[test]
fn uninstall_backs_up_then_uninstalls_then_wants_the_marker() {
    let a = Action::Uninstall(pkg("com.foo", "/data/app/foo.apk"));
    let (cmd, ph) = run_of(a.first_step(Dialect::Modern));
    assert_eq!(cmd, "cp /data/app/foo.apk /data/local/tmp/com.foo.apk");
    assert_eq!(ph, Phase::Backup);
    // the backup's output is never inspected
    let (cmd2, ph2) = run_of(a.on_output(Dialect::Modern, ph, "whatever"));
    assert_eq!(cmd2, "pm uninstall --user 0 -k com.foo");
    assert_eq!(ph2, Phase::Main);
    assert!(matches!(a.on_output(Dialect::Modern, ph2, "Success"), Ok(Step::Done)));
    match a.on_output(Dialect::Modern, ph2, "Failure [DELETE_FAILED]") {
        Err(ShellRunError::UnsuccessfulOperation(id)) => assert_eq!(id, "com.foo"),
        _ => panic!("marker missing must fail the uninstall"),
    }
}

#[test]
fn uninstall_without_a_path_cannot_be_backed_up() {
    let a = Action::Uninstall(pkg("com.foo", ""));
    match a.first_step(Dialect::Modern) {
        Err(ShellRunError::BackupNotPossible(id)) => assert_eq!(id, "com.foo"),
        _ => panic!("an empty path must refuse the backup"),
    }
}

#[test]
fn legacy_uninstall_blocks_and_takes_any_output() {
    let a = Action::Uninstall(pkg("com.foo", "/a.apk"));
    let (_, ph) = run_of(a.first_step(Dialect::Legacy));
    let (cmd, ph2) = run_of(a.on_output(Dialect::Legacy, ph, ""));
    assert_eq!(cmd, "pm block --user 0 com.foo");
    assert!(matches!(a.on_output(Dialect::Legacy, ph2, "anything"), Ok(Step::Done)));
}

#[test]
fn disable_wants_its_marker_on_modern_devices() {
    let a = Action::Disable("com.foo".to_string());
    let (cmd, ph) = run_of(a.first_step(Dialect::Modern));
    assert_eq!(cmd, "pm disable-user com.foo");
    assert!(matches!(
        a.on_output(Dialect::Modern, ph, "Package com.foo new state: disabled-user"),
        Ok(Step::Done)
    ));
    match a.on_output(Dialect::Modern, ph, "nope") {
        Err(ShellRunError::UnsuccessfulOperation(id)) => assert_eq!(id, "com.foo"),
        _ => panic!("marker missing must fail the disable"),
    }
    let (legacy_cmd, _) = run_of(a.first_step(Dialect::Legacy));
    assert_eq!(legacy_cmd, "pm block --user 0 com.foo");
}

#[test]
fn reverting_a_disabled_package_enables_it() {
    let a = Action::Revert("com.foo".to_string(), State::Disabled);
    let (cmd, ph) = run_of(a.first_step(Dialect::Modern));
    assert_eq!(cmd, "pm enable com.foo");
    assert!(matches!(
        a.on_output(Dialect::Modern, ph, "Package com.foo new state: enabled"),
        Ok(Step::Done)
    ));
    match a.on_output(Dialect::Modern, ph, "new state: disabled-user") {
        Err(ShellRunError::RevertFailed(id)) => assert_eq!(id, "com.foo"),
        _ => panic!("marker missing must fail the revert"),
    }
    let (legacy_cmd, _) = run_of(a.first_step(Dialect::Legacy));
    assert_eq!(legacy_cmd, "pm unblock --user 0 com.foo");
}

#[test]
fn reverting_an_uninstalled_package_falls_back_to_the_backup() {
    let a = Action::Revert("com.foo".to_string(), State::Uninstalled);
    let (cmd, ph) = run_of(a.first_step(Dialect::Modern));
    assert_eq!(cmd, "pm install-existing com.foo");
    // a reachable package reference: done at once
    assert!(matches!(a.on_output(Dialect::Modern, ph, "Package com.foo installed"), Ok(Step::Done)));
    // an unreachable reference: install the backup taken earlier
    let (cmd2, ph2) = run_of(a.on_output(
        Dialect::Modern,
        ph,
        "Package com.foo is inaccessible or not found",
    ));
    assert_eq!(cmd2, "pm install -r --user 0 /data/local/tmp/com.foo.apk");
    assert_eq!(ph2, Phase::Fallback);
    assert!(matches!(a.on_output(Dialect::Modern, ph2, "Success"), Ok(Step::Done)));
    match a.on_output(Dialect::Modern, ph2, "Unable to open file") {
        Err(ShellRunError::RevertFailed(id)) => assert_eq!(id, "com.foo"),
        _ => panic!("a failed fallback install must fail the revert"),
    }
}

#[test]
fn reverting_a_still_enabled_package_does_nothing() {
    let a = Action::Revert("com.foo".to_string(), State::Enabled);
    assert!(matches!(a.first_step(Dialect::Modern), Ok(Step::Done)));
}

#[test]
fn queued_actions_run_in_enqueue_order_before_enumeration() {
    let mut q = ActionQueue::new(vec![
        Action::Disable("com.a".to_string()),
        Action::Disable("com.b".to_string()),
    ]);
    match q.next_work() {
        CycleWork::Apply(Action::Disable(id)) => assert_eq!(id, "com.a"),
        _ => panic!("the first queued action comes first"),
    }
    match q.next_work() {
        CycleWork::Apply(Action::Disable(id)) => assert_eq!(id, "com.b"),
        _ => panic!("the second queued action comes second"),
    }
    assert!(matches!(q.next_work(), CycleWork::Enumerate));
    assert!(matches!(q.next_work(), CycleWork::Enumerate));
}
