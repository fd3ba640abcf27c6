//! The state of a plugin's service, as systemd reports it.
use crate::command::CommandOutput;
use crate::text::{
    after_prefix, cat2, cat3, decimal, decimal_reads_back, is_digit, lemma_decimal_digits,
    lemma_trimmed, lines, number, parse_number, same, split_lines, strip_prefix, trim, trimmed,
    views,
};
use crate::utf8::{lossy_text, read_lossy};
use vstd::prelude::*;

verus! {

// ── Actions ──────────────────────────────────────────────────────────────────

/// What can be done with the service of a plugin.
#[derive(Debug, Clone, Copy, PartialEq, Eq, Structural)]
pub enum PluginAction {
    Start,
    Stop,
    Restart,
}

impl PluginAction {
    /// The word that systemctl knows for the action.
    pub open spec fn word(self) -> Seq<char> {
        match self {
            PluginAction::Start => "start"@,
            PluginAction::Stop => "stop"@,
            PluginAction::Restart => "restart"@,
        }
    }

    /// The word that systemctl knows for the action.
    pub fn as_str(self) -> (out: &'static str)
        ensures
            out@ == self.word(),
    {
        match self {
            PluginAction::Start => "start",
            PluginAction::Stop => "stop",
            PluginAction::Restart => "restart",
        }
    }
}

// ── Status ───────────────────────────────────────────────────────────────────

/// The state of a service.
#[derive(Debug)]
pub struct PluginSystemdStatus {
    pub active_state: String,
    pub sub_state: String,
    pub unit_file_state: String,
    pub main_pid: Option<u32>,
    pub tasks_current: Option<u64>,
    pub memory_current: Option<u64>,
}

/// What the state of a service holds.
pub struct SystemdView {
    pub active_state: Seq<char>,
    pub sub_state: Seq<char>,
    pub unit_file_state: Seq<char>,
    pub main_pid: Option<u32>,
    pub tasks_current: Option<u64>,
    pub memory_current: Option<u64>,
}

impl View for PluginSystemdStatus {
    type V = SystemdView;

    open spec fn view(&self) -> SystemdView {
        SystemdView {
            active_state: self.active_state@,
            sub_state: self.sub_state@,
            unit_file_state: self.unit_file_state@,
            main_pid: self.main_pid,
            tasks_current: self.tasks_current,
            memory_current: self.memory_current,
        }
    }
}

impl PluginSystemdStatus {
    /// A copy of the state.
    pub fn copy(&self) -> (out: PluginSystemdStatus)
        ensures
            out@ == self@,
    {
        PluginSystemdStatus {
            active_state: self.active_state.clone(),
            sub_state: self.sub_state.clone(),
            unit_file_state: self.unit_file_state.clone(),
            main_pid: self.main_pid,
            tasks_current: self.tasks_current,
            memory_current: self.memory_current,
        }
    }
}

/// The state of a service of which nothing is known.
pub open spec fn unknown_status() -> SystemdView {
    SystemdView {
        active_state: "unknown"@,
        sub_state: "unknown"@,
        unit_file_state: "unknown"@,
        main_pid: None,
        tasks_current: None,
        memory_current: None,
    }
}

/// The state of a service of which nothing is known.
pub fn unknown_systemd_status() -> (out: PluginSystemdStatus)
    ensures
        out@ == unknown_status(),
{
    PluginSystemdStatus {
        active_state: "unknown".to_owned(),
        sub_state: "unknown".to_owned(),
        unit_file_state: "unknown".to_owned(),
        main_pid: None,
        tasks_current: None,
        memory_current: None,
    }
}

/// The state of a service in a word or two.
pub open spec fn status_summary(status: SystemdView) -> Seq<char> {
    if status.active_state == "unknown"@ && status.sub_state == "unknown"@ {
        "unknown"@
    } else if status.sub_state.len() == 0 || status.sub_state == "unknown"@ || status.sub_state
        == status.active_state {
        status.active_state
    } else {
        status.active_state + "/"@ + status.sub_state
    }
}

/// The state of a service in a word or two.
pub fn summarize_service_status(status: &PluginSystemdStatus) -> (out: String)
    ensures
        out@ == status_summary(status@),
{
    if same(status.active_state.as_str(), "unknown") && same(
        status.sub_state.as_str(),
        "unknown",
    ) {
        return "unknown".to_owned();
    }
    if status.sub_state.as_str().is_empty() || same(status.sub_state.as_str(), "unknown") || same(
        status.sub_state.as_str(),
        status.active_state.as_str(),
    ) {
        status.active_state.clone()
    } else {
        cat3(status.active_state.as_str(), "/", status.sub_state.as_str())
    }
}

// ── Reports ──────────────────────────────────────────────────────────────────

/// A number in a report of systemd; `[not set]` and an empty value are none.
pub open spec fn systemd_number(value: Seq<char>) -> Option<u64> {
    if trim(value).len() == 0 || trim(value) == "[not set]"@ {
        None
    } else {
        match number(trim(value), u64::MAX as nat) {
            Some(n) => Some(n as u64),
            None => None,
        }
    }
}

/// A number in a report of systemd.
pub fn parse_systemd_number(value: &str) -> (out: Option<u64>)
    ensures
        out == systemd_number(value@),
{
    let text = trimmed(value);
    if text.as_str().is_empty() || same(text.as_str(), "[not set]") {
        None
    } else {
        parse_number(text.as_str(), u64::MAX)
    }
}

/// The process that a report names; zero stands for none.
pub open spec fn process_id(value: Seq<char>) -> Option<u32> {
    match systemd_number(value) {
        Some(n) => if 0 < n <= u32::MAX {
            Some(n as u32)
        } else {
            None
        },
        None => None,
    }
}

/// The process that a report names.
fn parse_process_id(value: &str) -> (out: Option<u32>)
    ensures
        out == process_id(value@),
{
    match parse_systemd_number(value) {
        Some(n) => if n == 0 || n > u32::MAX as u64 {
            None
        } else {
            Some(n as u32)
        },
        None => None,
    }
}

/// A value of a report, or the state before where the value is blank.
pub open spec fn reported(before: Seq<char>, value: Seq<char>) -> Seq<char> {
    if trim(value).len() == 0 {
        before
    } else {
        trim(value)
    }
}

/// A value of a report, or the state before.
fn take_reported(before: String, value: &str) -> (out: String)
    ensures
        out@ == reported(before@, value@),
{
    let text = trimmed(value);
    if text.as_str().is_empty() {
        before
    } else {
        text
    }
}

/// The state after one more line of a report: `Property=value`.
pub open spec fn report_line(state: SystemdView, line: Seq<char>) -> SystemdView {
    if let Some(value) = after_prefix(line, "ActiveState="@) {
        SystemdView { active_state: reported(state.active_state, value), ..state }
    } else if let Some(value) = after_prefix(line, "SubState="@) {
        SystemdView { sub_state: reported(state.sub_state, value), ..state }
    } else if let Some(value) = after_prefix(line, "UnitFileState="@) {
        SystemdView { unit_file_state: reported(state.unit_file_state, value), ..state }
    } else if let Some(value) = after_prefix(line, "MainPID="@) {
        SystemdView { main_pid: process_id(value), ..state }
    } else if let Some(value) = after_prefix(line, "TasksCurrent="@) {
        SystemdView { tasks_current: systemd_number(value), ..state }
    } else if let Some(value) = after_prefix(line, "MemoryCurrent="@) {
        SystemdView { memory_current: systemd_number(value), ..state }
    } else {
        state
    }
}

/// The state that the lines of a report tell; what they do not tell is unknown.
pub open spec fn report_lines(ls: Seq<Seq<char>>) -> SystemdView
    decreases ls.len(),
{
    if ls.len() == 0 {
        unknown_status()
    } else {
        report_line(report_lines(ls.drop_last()), ls.last())
    }
}

/// The state after one more line of a report.
fn take_report_line(state: PluginSystemdStatus, line: &str) -> (out: PluginSystemdStatus)
    ensures
        out@ == report_line(state@, line@),
{
    let mut state = state;
    if let Some(value) = strip_prefix(line, "ActiveState=") {
        state.active_state = take_reported(state.active_state, value.as_str());
    } else if let Some(value) = strip_prefix(line, "SubState=") {
        state.sub_state = take_reported(state.sub_state, value.as_str());
    } else if let Some(value) = strip_prefix(line, "UnitFileState=") {
        state.unit_file_state = take_reported(state.unit_file_state, value.as_str());
    } else if let Some(value) = strip_prefix(line, "MainPID=") {
        state.main_pid = parse_process_id(value.as_str());
    } else if let Some(value) = strip_prefix(line, "TasksCurrent=") {
        state.tasks_current = parse_systemd_number(value.as_str());
    } else if let Some(value) = strip_prefix(line, "MemoryCurrent=") {
        state.memory_current = parse_systemd_number(value.as_str());
    }
    state
}

/// The state that the text of a report tells.
pub fn parse_service_report(text: &str) -> (out: PluginSystemdStatus)
    ensures
        out@ == report_lines(lines(text@)),
{
    let mut state = unknown_systemd_status();
    let ls = split_lines(text);
    let mut i: usize = 0;
    assert(views(ls@).take(0) =~= Seq::<Seq<char>>::empty());
    while i < ls.len()
        invariant
            i <= ls@.len(),
            state@ == report_lines(views(ls@).take(i as int)),
        decreases ls@.len() - i,
    {
        proof {
            let t = views(ls@).take(i + 1);
            assert(t.drop_last() =~= views(ls@).take(i as int));
            assert(t.last() == ls@[i as int]@);
        }
        state = take_report_line(state, ls[i].as_str());
        i += 1;
    }
    assert(views(ls@).take(i as int) =~= views(ls@));
    state
}

/// The state of a service whose report failed with the text `stderr`.
pub open spec fn failed_report(stderr: Seq<char>) -> SystemdView {
    let text = if trim(stderr).len() == 0 {
        "error"@
    } else {
        trim(stderr)
    };
    SystemdView { active_state: text, sub_state: text, ..unknown_status() }
}

/// The state of a service whose report failed.
pub fn failed_service_report(stderr: &str) -> (out: PluginSystemdStatus)
    ensures
        out@ == failed_report(stderr@),
{
    let text = trimmed(stderr);
    let text = if text.as_str().is_empty() {
        "error".to_owned()
    } else {
        text
    };
    let mut state = unknown_systemd_status();
    state.active_state = text.clone();
    state.sub_state = text;
    state
}

/// The state of a service, from what `systemctl show` left behind, or from why
/// it could not be run.
pub fn read_service_systemd_status(outcome: &Result<CommandOutput, String>) -> (out:
    PluginSystemdStatus)
    ensures
        out@ == (match *outcome {
            Ok(output) => if output.success {
                report_lines(lines(lossy_text(output.stdout@)))
            } else {
                failed_report(lossy_text(output.stderr@))
            },
            Err(err) => SystemdView {
                active_state: "systemctl unavailable: "@ + err@,
                ..unknown_status()
            },
        }),
{
    match outcome {
        Ok(output) => {
            if output.success {
                let text = read_lossy(output.stdout.as_slice());
                parse_service_report(text.as_str())
            } else {
                let text = read_lossy(output.stderr.as_slice());
                failed_service_report(text.as_str())
            }
        },
        Err(err) => {
            let mut state = unknown_systemd_status();
            state.active_state = cat2("systemctl unavailable: ", err.as_str());
            state
        },
    }
}

// ── Laws ─────────────────────────────────────────────────────────────────────

/// A line of a report sets what it names, and nothing else: a later line counts
/// over an earlier one, a state that is blank does not count, and the process 0
/// is none.
pub proof fn report_lines_set_what_they_name(ls: Seq<Seq<char>>, value: Seq<char>)
    requires
        trim(value).len() > 0,
    ensures
        ({
            let before = report_lines(ls);
            &&& report_lines(ls.push("ActiveState="@ + value)) == (SystemdView {
                active_state: trim(value),
                ..before
            })
            &&& report_lines(ls.push("SubState="@ + value)) == (SystemdView {
                sub_state: trim(value),
                ..before
            })
            &&& report_lines(ls.push("UnitFileState="@ + value)) == (SystemdView {
                unit_file_state: trim(value),
                ..before
            })
            &&& report_lines(ls.push("MainPID="@ + value)) == (SystemdView {
                main_pid: process_id(value),
                ..before
            })
            &&& report_lines(ls.push("TasksCurrent="@ + value)) == (SystemdView {
                tasks_current: systemd_number(value),
                ..before
            })
            &&& report_lines(ls.push("MemoryCurrent="@ + value)) == (SystemdView {
                memory_current: systemd_number(value),
                ..before
            })
        }),
{
    reveal_strlit("ActiveState=");
    reveal_strlit("SubState=");
    reveal_strlit("UnitFileState=");
    reveal_strlit("MainPID=");
    reveal_strlit("TasksCurrent=");
    reveal_strlit("MemoryCurrent=");
    lemma_report_line(ls, "ActiveState="@, value);
    lemma_report_line(ls, "SubState="@, value);
    lemma_report_line(ls, "UnitFileState="@, value);
    lemma_report_line(ls, "MainPID="@, value);
    lemma_report_line(ls, "TasksCurrent="@, value);
    lemma_report_line(ls, "MemoryCurrent="@, value);
    lemma_other_word("ActiveState="@, "SubState="@, value, 0);
    lemma_other_word("ActiveState="@, "UnitFileState="@, value, 0);
    lemma_other_word("ActiveState="@, "MainPID="@, value, 0);
    lemma_other_word("ActiveState="@, "TasksCurrent="@, value, 0);
    lemma_other_word("ActiveState="@, "MemoryCurrent="@, value, 0);
    lemma_other_word("SubState="@, "UnitFileState="@, value, 0);
    lemma_other_word("SubState="@, "MainPID="@, value, 0);
    lemma_other_word("SubState="@, "TasksCurrent="@, value, 0);
    lemma_other_word("SubState="@, "MemoryCurrent="@, value, 0);
    lemma_other_word("UnitFileState="@, "MainPID="@, value, 0);
    lemma_other_word("UnitFileState="@, "TasksCurrent="@, value, 0);
    lemma_other_word("UnitFileState="@, "MemoryCurrent="@, value, 0);
    lemma_other_word("MainPID="@, "TasksCurrent="@, value, 0);
    lemma_other_word("MainPID="@, "MemoryCurrent="@, value, 1);
    lemma_other_word("TasksCurrent="@, "MemoryCurrent="@, value, 0);
}

proof fn lemma_report_line(ls: Seq<Seq<char>>, word: Seq<char>, value: Seq<char>)
    ensures
        report_lines(ls.push(word + value)) == report_line(report_lines(ls), word + value),
        after_prefix(word + value, word) == Some(value),
{
    assert(ls.push(word + value).drop_last() =~= ls);
    assert((word + value).skip(word.len() as int) =~= value);
    assert(word.is_prefix_of(word + value));
}

/// A line that begins with one word does not begin with another one.
proof fn lemma_other_word(a: Seq<char>, b: Seq<char>, value: Seq<char>, at: int)
    requires
        0 <= at < a.len(),
        at < b.len(),
        a[at] != b[at],
    ensures
        after_prefix(b + value, a) is None,
        after_prefix(a + value, b) is None,
{
    assert((b + value)[at] == b[at]);
    assert((a + value)[at] == a[at]);
    if a.is_prefix_of(b + value) {
        assert(a =~= (b + value).take(a.len() as int));
        assert(a[at] == (b + value)[at]);
    }
    if b.is_prefix_of(a + value) {
        assert(b =~= (a + value).take(b.len() as int));
        assert(b[at] == (a + value)[at]);
    }
}

/// Before any line nothing is known, and the process of a service is a number
/// above zero.
pub proof fn reports_begin_with_nothing(value: Seq<char>)
    ensures
        report_lines(Seq::empty()).active_state == "unknown"@,
        report_lines(Seq::empty()).sub_state == "unknown"@,
        report_lines(Seq::empty()).unit_file_state == "unknown"@,
        report_lines(Seq::empty()).main_pid is None,
        report_lines(Seq::empty()).tasks_current is None,
        report_lines(Seq::empty()).memory_current is None,
        process_id(value) matches Some(pid) ==> pid > 0 && systemd_number(value) == Some(
            pid as u64,
        ),
        trim(value) == "[not set]"@ || trim(value).len() == 0 ==> systemd_number(value) is None,
{
}

/// Numbers in a report are read as they are written.
pub proof fn report_numbers_are_read(n: u64)
    ensures
        systemd_number(decimal(n as nat)) == Some(n),
        0 < n <= u32::MAX ==> process_id(decimal(n as nat)) == Some(n as u32),
        process_id(decimal(0)) is None,
{
    reveal_strlit("[not set]");
    lemma_plain_number(n as nat);
    decimal_reads_back(n as nat, u64::MAX as nat);
    lemma_plain_number(0);
    decimal_reads_back(0, u64::MAX as nat);
}

proof fn lemma_plain_number(n: nat)
    ensures
        trim(decimal(n)) == decimal(n),
        decimal(n).len() > 0,
        decimal(n) != "[not set]"@,
{
    reveal_strlit("[not set]");
    lemma_decimal_digits(n);
    let d = decimal(n);
    assert(is_digit(d[0]));
    assert(is_digit(d.last()));
    lemma_trimmed(d);
    assert("[not set]"@[0] == '[');
}

/// A service is summed up by its two states, or by one where the other says no
/// more.
pub proof fn states_are_summed_up(status: SystemdView)
    ensures
        status.active_state == "unknown"@ && status.sub_state == "unknown"@ ==> status_summary(
            status,
        ) == "unknown"@,
        status.sub_state == status.active_state || status.sub_state.len() == 0 ==> status_summary(
            status,
        ) == status.active_state,
        status.sub_state.len() > 0 && status.sub_state != "unknown"@ && status.sub_state
            != status.active_state ==> status_summary(status) == status.active_state + "/"@
            + status.sub_state,
{
}

/// A report that failed says why in both states, or that it failed.
pub proof fn failed_reports_say_why(stderr: Seq<char>)
    ensures
        trim(stderr).len() > 0 ==> failed_report(stderr).active_state == trim(stderr)
            && failed_report(stderr).sub_state == trim(stderr),
        trim(stderr).len() == 0 ==> failed_report(stderr).active_state == "error"@ && failed_report(
            stderr,
        ).sub_state == "error"@,
        failed_report(stderr).main_pid is None,
        failed_report(stderr).unit_file_state == "unknown"@,
{
}

/// The words for the actions are those that systemctl knows, one for each.
pub proof fn actions_have_words_of_their_own(a: PluginAction, b: PluginAction)
    ensures
        PluginAction::Start.word() == "start"@,
        PluginAction::Stop.word() == "stop"@,
        PluginAction::Restart.word() == "restart"@,
        a.word() == b.word() <==> a == b,
{
    reveal_strlit("start");
    reveal_strlit("stop");
    reveal_strlit("restart");
    assert("start"@.len() == 5 && "stop"@.len() == 4 && "restart"@.len() == 7);
}

} // verus!
