//! Updates of the programs of the system.
use crate::http::body::json_detail;
use crate::http::proxy::Answer;
use crate::http::upload::says;
use crate::paths::{
    file_name, is_plain_name, join_path, joined_names_lie_in_their_directory, joined_path,
};
use crate::text::{cat2, same};
use vstd::prelude::*;

verus! {

/// A program of the system that can be updated.
#[derive(Debug)]
pub struct UpdateTarget {
    pub name: String,
    pub bin_path: String,
    pub service: String,
    pub meta_dir: String,
}

/// What an update target holds.
pub struct UpdateTargetView {
    pub name: Seq<char>,
    pub bin_path: Seq<char>,
    pub service: Seq<char>,
    pub meta_dir: Seq<char>,
}

impl View for UpdateTarget {
    type V = UpdateTargetView;

    open spec fn view(&self) -> UpdateTargetView {
        UpdateTargetView {
            name: self.name@,
            bin_path: self.bin_path@,
            service: self.service@,
            meta_dir: self.meta_dir@,
        }
    }
}

/// The update target `name` of the program `program`.
pub open spec fn update_target(
    name: Seq<char>,
    program: Seq<char>,
    meta_dir: Seq<char>,
    bin_dir: Seq<char>,
) -> UpdateTargetView {
    UpdateTargetView {
        name,
        bin_path: join_path(bin_dir, program),
        service: program + ".service"@,
        meta_dir,
    }
}

/// The update target `name` of the program `program`.
fn make_target(name: &str, program: &str, meta_dir: &str, bin_dir: &str) -> (out: UpdateTarget)
    ensures
        out@ == update_target(name@, program@, meta_dir@, bin_dir@),
{
    UpdateTarget {
        name: name.to_owned(),
        bin_path: joined_path(bin_dir, program),
        service: cat2(program, ".service"),
        meta_dir: meta_dir.to_owned(),
    }
}

/// The programs of the system that can be updated.
pub fn make_targets(meta_dir: &str, bin_dir: &str) -> (out: (UpdateTarget, UpdateTarget))
    ensures
        out.0@ == update_target("commd"@, "kaonic-commd"@, meta_dir@, bin_dir@),
        out.1@ == update_target("gateway"@, "kaonic-gateway"@, meta_dir@, bin_dir@),
{
    (
        make_target("commd", "kaonic-commd", meta_dir, bin_dir),
        make_target("gateway", "kaonic-gateway", meta_dir, bin_dir),
    )
}

/// The target with a name, if there is one.
pub fn resolve_target<'a>(
    commd: &'a UpdateTarget,
    gateway: &'a UpdateTarget,
    name: &str,
) -> (out: Option<&'a UpdateTarget>)
    ensures
        out == (if name@ == "commd"@ {
            Some(commd)
        } else if name@ == "gateway"@ {
            Some(gateway)
        } else {
            None
        }),
{
    if same(name, "commd") {
        Some(commd)
    } else if same(name, "gateway") {
        Some(gateway)
    } else {
        None
    }
}

/// The answer to an upload for a target that is not there.
pub fn unknown_target() -> (out: Answer)
    ensures
        out@ == says(404, "unknown target"@),
{
    Answer { status: 404, body: json_detail("unknown target") }
}

/// What became of an update: it was made or it failed, or its task broke down.
#[derive(Debug)]
pub enum UpdateOutcome {
    Made(String),
    Failed(String),
    Broken(String),
}

/// The answer to an upload, from what became of the update.
pub fn handle_upload(outcome: UpdateOutcome) -> (out: Answer)
    ensures
        out@ == (match outcome {
            UpdateOutcome::Made(message) => says(200, message@),
            UpdateOutcome::Failed(message) => says(500, message@),
            UpdateOutcome::Broken(err) => says(500, "task panic: "@ + err@),
        }),
{
    match outcome {
        UpdateOutcome::Made(message) => Answer {
            status: 200,
            body: json_detail(message.as_str()),
        },
        UpdateOutcome::Failed(message) => Answer {
            status: 500,
            body: json_detail(message.as_str()),
        },
        UpdateOutcome::Broken(err) => {
            let detail = cat2("task panic: ", err.as_str());
            Answer { status: 500, body: json_detail(detail.as_str()) }
        },
    }
}

// ── Laws ─────────────────────────────────────────────────────────────────────

/// A program that is updated lies in the directory of programs and runs as the
/// service that is named after it.
pub proof fn targets_are_named_after_their_program(
    name: Seq<char>,
    program: Seq<char>,
    meta_dir: Seq<char>,
    bin_dir: Seq<char>,
)
    requires
        is_plain_name(program),
        bin_dir.len() > 0,
        bin_dir.last() != '/',
    ensures
        ({
            let target = update_target(name, program, meta_dir, bin_dir);
            &&& target.name == name
            &&& target.meta_dir == meta_dir
            &&& target.bin_path == bin_dir + "/"@ + program
            &&& file_name(target.bin_path) == Some(program)
            &&& target.service == program + ".service"@
        }),
{
    joined_names_lie_in_their_directory(bin_dir, program);
}

} // verus!
