//! Mutating actions against the device, planned as a small step
//! machine: each action yields a first shell command, and each
//! command's output decides whether another command follows, the
//! action is done, or it failed.
//!
//! The command dialect depends on the device's API level: before
//! level 20 packages are blocked and unblocked; from level 20 on they
//! are uninstalled, disabled per user, enabled and re-installed.
//! Success is recognised by a marker in the command output. The
//! legacy commands have no documented marker, so their completion
//! counts as success; a failed backup copy does not abort the
//! uninstall that follows it.

use vstd::prelude::*;
use vstd::string::StringExecFns;

use crate::listview::State;
use crate::package::{Package, PackageV};
use crate::strutil::{has_substring, str_contains};

verus! {

/// A request against one package, consumed exactly once.
pub enum Action {
    Uninstall(Package),
    Revert(String, State),
    Disable(String),
}

/// The mathematical value of an `Action`.
pub enum ActionV {
    Uninstall(PackageV),
    Revert(Seq<char>, State),
    Disable(Seq<char>),
}

impl View for Action {
    type V = ActionV;

    open spec fn view(&self) -> ActionV {
        match self {
            Action::Uninstall(p) => ActionV::Uninstall(p@),
            Action::Revert(id, prior) => ActionV::Revert(id@, *prior),
            Action::Disable(id) => ActionV::Disable(id@),
        }
    }
}

/// How running a shell command against the device can fail.
pub enum ShellRunError {
    Timeout,
    ParseError,
    Unrecoverable,
    UnsuccessfulOperation(String),
    BackupNotPossible(String),
    RevertFailed(String),
}

/// The mathematical value of a `ShellRunError`.
pub enum ShellRunErrorV {
    Timeout,
    ParseError,
    Unrecoverable,
    UnsuccessfulOperation(Seq<char>),
    BackupNotPossible(Seq<char>),
    RevertFailed(Seq<char>),
}

impl View for ShellRunError {
    type V = ShellRunErrorV;

    open spec fn view(&self) -> ShellRunErrorV {
        match self {
            ShellRunError::Timeout => ShellRunErrorV::Timeout,
            ShellRunError::ParseError => ShellRunErrorV::ParseError,
            ShellRunError::Unrecoverable => ShellRunErrorV::Unrecoverable,
            ShellRunError::UnsuccessfulOperation(id) => ShellRunErrorV::UnsuccessfulOperation(
                id@,
            ),
            ShellRunError::BackupNotPossible(id) => ShellRunErrorV::BackupNotPossible(id@),
            ShellRunError::RevertFailed(id) => ShellRunErrorV::RevertFailed(id@),
        }
    }
}

/// The command dialect the device's API level selects.
#[derive(PartialEq, Eq, Structural, Clone, Copy, Debug)]
pub enum Dialect {
    Legacy,
    Modern,
}

/// Levels before 20 speak the legacy block/unblock dialect.
pub open spec fn spec_dialect(level: u32) -> Dialect {
    if level < 20 {
        Dialect::Legacy
    } else {
        Dialect::Modern
    }
}

pub fn dialect_for_api(level: u32) -> (r: Dialect)
    ensures
        r == spec_dialect(level),
{
    if level < 20 {
        Dialect::Legacy
    } else {
        Dialect::Modern
    }
}

/// Where an action stands after its last command.
#[derive(PartialEq, Eq, Structural, Clone, Copy, Debug)]
pub enum Phase {
    Backup,
    Main,
    Fallback,
}

/// What to do next: run one more command, or nothing.
pub enum Step {
    Run(String, Phase),
    Done,
}

/// The mathematical value of a `Step`.
pub enum StepV {
    Run(Seq<char>, Phase),
    Done,
}

impl View for Step {
    type V = StepV;

    open spec fn view(&self) -> StepV {
        match self {
            Step::Run(cmd, ph) => StepV::Run(cmd@, *ph),
            Step::Done => StepV::Done,
        }
    }
}

/// The value of a step result.
pub open spec fn step_result_view(r: Result<Step, ShellRunError>) -> Result<
    StepV,
    ShellRunErrorV,
> {
    match r {
        Ok(s) => Ok(s@),
        Err(e) => Err(e@),
    }
}

/// Copy the installer aside before destroying anything.
pub open spec fn backup_command(path: Seq<char>, id: Seq<char>) -> Seq<char> {
    "cp "@ + path + " /data/local/tmp/"@ + id + ".apk"@
}

pub open spec fn uninstall_command(d: Dialect, id: Seq<char>) -> Seq<char> {
    match d {
        Dialect::Modern => "pm uninstall --user 0 -k "@ + id,
        Dialect::Legacy => "pm block --user 0 "@ + id,
    }
}

pub open spec fn disable_command(d: Dialect, id: Seq<char>) -> Seq<char> {
    match d {
        Dialect::Modern => "pm disable-user "@ + id,
        Dialect::Legacy => "pm block --user 0 "@ + id,
    }
}

pub open spec fn enable_command(d: Dialect, id: Seq<char>) -> Seq<char> {
    match d {
        Dialect::Modern => "pm enable "@ + id,
        Dialect::Legacy => "pm unblock --user 0 "@ + id,
    }
}

pub open spec fn reinstall_command(d: Dialect, id: Seq<char>) -> Seq<char> {
    match d {
        Dialect::Modern => "pm install-existing "@ + id,
        Dialect::Legacy => "pm unblock --user 0 "@ + id,
    }
}

/// Install back from the backup taken before the uninstall.
pub open spec fn fallback_install_command(id: Seq<char>) -> Seq<char> {
    "pm install -r --user 0 /data/local/tmp/"@ + id + ".apk"@
}

/// The first command of an action. An uninstall with no recorded
/// installer path cannot be backed up and fails at once; reverting a
/// package that was never taken away has nothing to run.
pub open spec fn spec_first_step(a: ActionV, d: Dialect) -> Result<StepV, ShellRunErrorV> {
    match a {
        ActionV::Uninstall(p) => if p.path.len() == 0 {
            Err(ShellRunErrorV::BackupNotPossible(p.id))
        } else {
            Ok(StepV::Run(backup_command(p.path, p.id), Phase::Backup))
        },
        ActionV::Disable(id) => Ok(StepV::Run(disable_command(d, id), Phase::Main)),
        ActionV::Revert(id, prior) => match prior {
            State::Disabled => Ok(StepV::Run(enable_command(d, id), Phase::Main)),
            State::Uninstalled => Ok(StepV::Run(reinstall_command(d, id), Phase::Main)),
            State::Enabled => Ok(StepV::Done),
        },
    }
}

/// What one command's output decides. The backup copy's output is
/// never inspected; the modern dialect's markers are required
/// exactly; a reinstall whose package reference is out of reach falls
/// back to installing the backup.
pub open spec fn spec_on_output(a: ActionV, d: Dialect, ph: Phase, out: Seq<char>) -> Result<
    StepV,
    ShellRunErrorV,
> {
    match a {
        ActionV::Uninstall(p) => match ph {
            Phase::Backup => Ok(StepV::Run(uninstall_command(d, p.id), Phase::Main)),
            Phase::Main => match d {
                Dialect::Modern => if has_substring(out, "Success"@) {
                    Ok(StepV::Done)
                } else {
                    Err(ShellRunErrorV::UnsuccessfulOperation(p.id))
                },
                Dialect::Legacy => Ok(StepV::Done),
            },
            Phase::Fallback => Ok(StepV::Done),
        },
        ActionV::Disable(id) => match ph {
            Phase::Main => match d {
                Dialect::Modern => if has_substring(out, "new state: disabled-user"@) {
                    Ok(StepV::Done)
                } else {
                    Err(ShellRunErrorV::UnsuccessfulOperation(id))
                },
                Dialect::Legacy => Ok(StepV::Done),
            },
            _ => Ok(StepV::Done),
        },
        ActionV::Revert(id, prior) => match prior {
            State::Disabled => match ph {
                Phase::Main => match d {
                    Dialect::Modern => if has_substring(out, "new state: enabled"@) {
                        Ok(StepV::Done)
                    } else {
                        Err(ShellRunErrorV::RevertFailed(id))
                    },
                    Dialect::Legacy => Ok(StepV::Done),
                },
                _ => Ok(StepV::Done),
            },
            State::Uninstalled => match ph {
                Phase::Main => if has_substring(out, "inaccessible or not found"@) {
                    Ok(StepV::Run(fallback_install_command(id), Phase::Fallback))
                } else {
                    Ok(StepV::Done)
                },
                Phase::Fallback => if has_substring(out, "Success"@) {
                    Ok(StepV::Done)
                } else {
                    Err(ShellRunErrorV::RevertFailed(id))
                },
                Phase::Backup => Ok(StepV::Done),
            },
            State::Enabled => Ok(StepV::Done),
        },
    }
}

impl Action {
    /// Plan the action's first command.
    pub fn first_step(&self, d: Dialect) -> (r: Result<Step, ShellRunError>)
        ensures
            step_result_view(r) == spec_first_step(self@, d),
    {
        match self {
            Action::Uninstall(p) => {
                if p.path.as_str().is_empty() {
                    Err(ShellRunError::BackupNotPossible(p.id.clone()))
                } else {
                    let cmd = "cp ".to_owned().concat(p.path.as_str()).concat(
                        " /data/local/tmp/",
                    ).concat(p.id.as_str()).concat(".apk");
                    Ok(Step::Run(cmd, Phase::Backup))
                }
            },
            Action::Disable(id) => {
                let cmd = match d {
                    Dialect::Modern => "pm disable-user ".to_owned().concat(id.as_str()),
                    Dialect::Legacy => "pm block --user 0 ".to_owned().concat(id.as_str()),
                };
                Ok(Step::Run(cmd, Phase::Main))
            },
            Action::Revert(id, prior) => match prior {
                State::Disabled => {
                    let cmd = match d {
                        Dialect::Modern => "pm enable ".to_owned().concat(id.as_str()),
                        Dialect::Legacy => "pm unblock --user 0 ".to_owned().concat(
                            id.as_str(),
                        ),
                    };
                    Ok(Step::Run(cmd, Phase::Main))
                },
                State::Uninstalled => {
                    let cmd = match d {
                        Dialect::Modern => "pm install-existing ".to_owned().concat(
                            id.as_str(),
                        ),
                        Dialect::Legacy => "pm unblock --user 0 ".to_owned().concat(
                            id.as_str(),
                        ),
                    };
                    Ok(Step::Run(cmd, Phase::Main))
                },
                State::Enabled => Ok(Step::Done),
            },
        }
    }

    /// Read one command's output and plan what follows.
    pub fn on_output(&self, d: Dialect, ph: Phase, out: &str) -> (r: Result<
        Step,
        ShellRunError,
    >)
        ensures
            step_result_view(r) == spec_on_output(self@, d, ph, out@),
    {
        match self {
            Action::Uninstall(p) => match ph {
                Phase::Backup => {
                    let cmd = match d {
                        Dialect::Modern => "pm uninstall --user 0 -k ".to_owned().concat(
                            p.id.as_str(),
                        ),
                        Dialect::Legacy => "pm block --user 0 ".to_owned().concat(
                            p.id.as_str(),
                        ),
                    };
                    Ok(Step::Run(cmd, Phase::Main))
                },
                Phase::Main => match d {
                    Dialect::Modern => {
                        if str_contains(out, "Success") {
                            Ok(Step::Done)
                        } else {
                            Err(ShellRunError::UnsuccessfulOperation(p.id.clone()))
                        }
                    },
                    Dialect::Legacy => Ok(Step::Done),
                },
                Phase::Fallback => Ok(Step::Done),
            },
            Action::Disable(id) => match ph {
                Phase::Main => match d {
                    Dialect::Modern => {
                        if str_contains(out, "new state: disabled-user") {
                            Ok(Step::Done)
                        } else {
                            Err(ShellRunError::UnsuccessfulOperation(id.clone()))
                        }
                    },
                    Dialect::Legacy => Ok(Step::Done),
                },
                _ => Ok(Step::Done),
            },
            Action::Revert(id, prior) => match prior {
                State::Disabled => match ph {
                    Phase::Main => match d {
                        Dialect::Modern => {
                            if str_contains(out, "new state: enabled") {
                                Ok(Step::Done)
                            } else {
                                Err(ShellRunError::RevertFailed(id.clone()))
                            }
                        },
                        Dialect::Legacy => Ok(Step::Done),
                    },
                    _ => Ok(Step::Done),
                },
                State::Uninstalled => match ph {
                    Phase::Main => {
                        if str_contains(out, "inaccessible or not found") {
                            let cmd = "pm install -r --user 0 /data/local/tmp/".to_owned()
                                .concat(id.as_str()).concat(".apk");
                            Ok(Step::Run(cmd, Phase::Fallback))
                        } else {
                            Ok(Step::Done)
                        }
                    },
                    Phase::Fallback => {
                        if str_contains(out, "Success") {
                            Ok(Step::Done)
                        } else {
                            Err(ShellRunError::RevertFailed(id.clone()))
                        }
                    },
                    Phase::Backup => Ok(Step::Done),
                },
                State::Enabled => Ok(Step::Done),
            },
        }
    }
}

} // verus!
