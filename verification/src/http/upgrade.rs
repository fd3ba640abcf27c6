//! How the gateway replaces the program of the installer.
use crate::http::body::{detail_body, json_detail};
use crate::http::proxy::{Answer, AnswerView};
use crate::paths::{join_path, joined_path};
use crate::text::{cat2, cat4};
use vstd::prelude::*;

verus! {

/// The longest program that is accepted, in bytes.
pub const MAX_INSTALLER_BINARY_BYTES: usize = 67108864;

/// The answer to an upgrade that comes with no program, or nothing where there
/// is one. `program` holds the bytes, or why they could not be read.
pub open spec fn program_refusal(program: Result<Seq<u8>, Seq<char>>) -> Option<AnswerView> {
    match program {
        Ok(bytes) => if bytes.len() == 0 {
            Some(AnswerView { status: 400, body: detail_body("replacement binary is empty"@) })
        } else {
            None
        },
        Err(err) => Some(
            AnswerView {
                status: 400,
                body: detail_body("failed to read replacement binary: "@ + err),
            },
        ),
    }
}

/// Accepts a program that can be read and has something in it.
pub fn check_program(program: Result<Vec<u8>, String>) -> (out: Result<Vec<u8>, Answer>)
    ensures
        match program_refusal(
            match program {
                Ok(bytes) => Ok(bytes@),
                Err(err) => Err(err@),
            },
        ) {
            Some(refusal) => out matches Err(answer) && answer@ == refusal,
            None => program is Ok && out == Ok::<Vec<u8>, Answer>(program->Ok_0),
        },
{
    match program {
        Ok(bytes) => {
            if bytes.len() == 0 {
                Err(Answer { status: 400, body: json_detail("replacement binary is empty") })
            } else {
                Ok(bytes)
            }
        },
        Err(err) => {
            let detail = cat2("failed to read replacement binary: ", err.as_str());
            Err(Answer { status: 400, body: json_detail(detail.as_str()) })
        },
    }
}

/// The file that the new program is written to, in the directory of the old
/// one.
pub fn temporary_program(parent: &str) -> (out: String)
    ensures
        out@ == join_path(parent@, ".kaonic-installer.upgrade.tmp"@),
{
    joined_path(parent, ".kaonic-installer.upgrade.tmp")
}

/// A step of an upgrade.
#[derive(Debug, Clone, Copy, PartialEq, Eq, Structural)]
pub enum UpgradeStep {
    /// Write the new program to the temporary file.
    Write,
    /// Make the temporary file executable.
    MakeExecutable,
    /// Stop the service.
    StopService,
    /// Move the temporary file over the old program.
    Replace,
    /// Start the service.
    StartService,
}

/// What follows a step.
#[derive(Debug, Clone, Copy, PartialEq, Eq, Structural)]
pub enum UpgradeMove {
    /// Go on with a step.
    Go(UpgradeStep),
    /// The upgrade is done.
    Done,
    /// The upgrade failed. First the service is started if it has to be, then
    /// the temporary file is removed if it has to be.
    Fail { start_service: bool, remove_temporary: bool },
}

/// What follows a step that succeeded or failed.
pub open spec fn move_after(step: UpgradeStep, ok: bool) -> UpgradeMove {
    if ok {
        match step {
            UpgradeStep::Write => UpgradeMove::Go(UpgradeStep::MakeExecutable),
            UpgradeStep::MakeExecutable => UpgradeMove::Go(UpgradeStep::StopService),
            UpgradeStep::StopService => UpgradeMove::Go(UpgradeStep::Replace),
            UpgradeStep::Replace => UpgradeMove::Go(UpgradeStep::StartService),
            UpgradeStep::StartService => UpgradeMove::Done,
        }
    } else {
        UpgradeMove::Fail {
            start_service: step == UpgradeStep::Replace,
            remove_temporary: step != UpgradeStep::Write && step != UpgradeStep::StartService,
        }
    }
}

/// What follows a step of an upgrade that succeeded or failed.
pub fn replace_installer_binary(step: UpgradeStep, ok: bool) -> (out: UpgradeMove)
    ensures
        out == move_after(step, ok),
{
    if ok {
        match step {
            UpgradeStep::Write => UpgradeMove::Go(UpgradeStep::MakeExecutable),
            UpgradeStep::MakeExecutable => UpgradeMove::Go(UpgradeStep::StopService),
            UpgradeStep::StopService => UpgradeMove::Go(UpgradeStep::Replace),
            UpgradeStep::Replace => UpgradeMove::Go(UpgradeStep::StartService),
            UpgradeStep::StartService => UpgradeMove::Done,
        }
    } else {
        UpgradeMove::Fail {
            start_service: step == UpgradeStep::Replace,
            remove_temporary: step != UpgradeStep::Write && step != UpgradeStep::StartService,
        }
    }
}

/// The answer to an upgrade whose step failed. `target` is the program that was
/// to be replaced.
pub fn upgrade_failure(step: UpgradeStep, target: &str, err: &str) -> (out: Answer)
    ensures
        out@ == (AnswerView {
            status: 500,
            body: detail_body(
                match step {
                    UpgradeStep::Write => "write replacement installer binary: "@ + err@,
                    UpgradeStep::Replace => "replace installer binary "@ + target@ + ": "@ + err@,
                    _ => err@,
                },
            ),
        }),
{
    let detail = match step {
        UpgradeStep::Write => cat2("write replacement installer binary: ", err),
        UpgradeStep::Replace => cat4("replace installer binary ", target, ": ", err),
        _ => err.to_owned(),
    };
    Answer { status: 500, body: json_detail(detail.as_str()) }
}

/// The answer to an upgrade that is done.
pub fn upgrade_done() -> (out: Answer)
    ensures
        out@ == (AnswerView {
            status: 200,
            body: detail_body("kaonic-installer binary upgraded."@),
        }),
{
    Answer { status: 200, body: json_detail("kaonic-installer binary upgraded.") }
}

// ── Laws ─────────────────────────────────────────────────────────────────────

/// What an upgrade works on: whether the temporary file is there, whether the
/// program is the new one, and whether the service runs.
pub struct Machine {
    pub temporary: bool,
    pub replaced: bool,
    pub running: bool,
}

/// The machine after a step that succeeded.
pub open spec fn machine_after(m: Machine, step: UpgradeStep) -> Machine {
    match step {
        UpgradeStep::Write => Machine { temporary: true, ..m },
        UpgradeStep::MakeExecutable => m,
        UpgradeStep::StopService => Machine { running: false, ..m },
        UpgradeStep::Replace => Machine { temporary: false, replaced: true, ..m },
        UpgradeStep::StartService => Machine { running: true, ..m },
    }
}

/// How many steps are left, the one given counted.
pub open spec fn steps_left(step: UpgradeStep) -> nat {
    match step {
        UpgradeStep::Write => 5,
        UpgradeStep::MakeExecutable => 4,
        UpgradeStep::StopService => 3,
        UpgradeStep::Replace => 2,
        UpgradeStep::StartService => 1,
    }
}

/// The machine after an upgrade that goes on with `step` and fails at
/// `failing`, if at all. What is done about a failure succeeds, and a step that
/// fails changes nothing.
pub open spec fn upgraded(m: Machine, step: UpgradeStep, failing: Option<UpgradeStep>) -> Machine
    decreases steps_left(step),
{
    let ok = failing != Some(step);
    match move_after(step, ok) {
        UpgradeMove::Go(next) => if steps_left(next) < steps_left(step) {
            upgraded(machine_after(m, step), next, failing)
        } else {
            m
        },
        UpgradeMove::Done => machine_after(m, step),
        UpgradeMove::Fail { start_service, remove_temporary } => Machine {
            temporary: m.temporary && !remove_temporary,
            running: m.running || start_service,
            ..m
        },
    }
}

/// An upgrade of a running installer replaces its program unless a step before
/// that fails. It leaves no temporary file, and the installer runs afterwards
/// unless it is its start that fails.
pub proof fn upgrades_leave_nothing_behind(m: Machine, failing: Option<UpgradeStep>)
    requires
        m.running,
        !m.temporary,
        !m.replaced,
    ensures
        ({
            let after = upgraded(m, UpgradeStep::Write, failing);
            &&& after.replaced <==> (failing is None || failing == Some(
                UpgradeStep::StartService,
            ))
            &&& !after.temporary
            &&& after.running <==> failing != Some(UpgradeStep::StartService)
        }),
{
    reveal_with_fuel(upgraded, 6);
    match failing {
        None => {},
        Some(step) => match step {
            UpgradeStep::Write => {},
            UpgradeStep::MakeExecutable => {},
            UpgradeStep::StopService => {},
            UpgradeStep::Replace => {},
            UpgradeStep::StartService => {},
        },
    }
}

/// A program is taken if and only if it could be read and is not empty; else the
/// request is a bad one.
pub proof fn programs_that_are_not_empty_are_taken(program: Result<Seq<u8>, Seq<char>>)
    ensures
        program_refusal(program) is None <==> (program matches Ok(bytes) && bytes.len() > 0),
        program_refusal(program) matches Some(answer) ==> answer.status == 400,
{
}

/// An upgrade goes through its steps in order: the new program is written, made
/// executable, put in place of the old one while the service is stopped, and run.
pub proof fn upgrades_go_step_by_step()
    ensures
        move_after(UpgradeStep::Write, true) == UpgradeMove::Go(UpgradeStep::MakeExecutable),
        move_after(UpgradeStep::MakeExecutable, true) == UpgradeMove::Go(UpgradeStep::StopService),
        move_after(UpgradeStep::StopService, true) == UpgradeMove::Go(UpgradeStep::Replace),
        move_after(UpgradeStep::Replace, true) == UpgradeMove::Go(UpgradeStep::StartService),
        move_after(UpgradeStep::StartService, true) == UpgradeMove::Done,
        forall|step: UpgradeStep| (#[trigger] move_after(step, false)) is Fail,
{
}

} // verus!
