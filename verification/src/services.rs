//! The services of the gateway, as systemd and the installer report them.
use crate::command::CommandOutput;
use crate::dto::{ServiceStatusDto, ServiceStatusView};
use crate::order::viewed;
use crate::text::{
    cat2, cat4, halves, holds, lemma_trimmed, lines, same, split_lines, split_on_text, split_once,
    split_text, texts_are_found_where_they_begin, texts_fall_apart_at_the_first, trim, trimmed,
    views,
};
use crate::utf8::{lossy_text, read_lossy};
use vstd::prelude::*;

verus! {

// ── Units ────────────────────────────────────────────────────────────────────

/// The units of the gateway.
pub open spec fn gateway_units() -> Seq<Seq<char>> {
    seq![
        "kaonic-commd.service"@,
        "kaonic-factory.service"@,
        "kaonic-gateway.service"@,
        "kaonic-installer.service"@,
    ]
}

/// The units of the gateway.
pub fn gateway_service_units() -> (out: Vec<String>)
    ensures
        views(out@) == gateway_units(),
{
    let mut out: Vec<String> = Vec::new();
    out.push("kaonic-commd.service".to_owned());
    out.push("kaonic-factory.service".to_owned());
    out.push("kaonic-gateway.service".to_owned());
    out.push("kaonic-installer.service".to_owned());
    assert(views(out@) =~= gateway_units());
    out
}

/// Whether a unit is one of the gateway's own.
pub fn is_gateway_service_unit(unit: &str) -> (out: bool)
    ensures
        out == gateway_units().contains(unit@),
{
    let units = gateway_service_units();
    holds(&units, unit)
}

/// What a unit is called on the pages.
pub open spec fn brief_name(unit: Seq<char>) -> Seq<char> {
    if unit == "kaonic-commd.service"@ {
        "Radio control"@
    } else if unit == "kaonic-factory.service"@ {
        "Factory setup"@
    } else if unit == "kaonic-gateway.service"@ {
        "Web gateway"@
    } else if unit == "kaonic-installer.service"@ {
        "Installer agent"@
    } else {
        "Service"@
    }
}

/// What a unit is called on the pages.
pub fn service_brief_name(unit: &str) -> (out: &'static str)
    ensures
        out@ == brief_name(unit@),
{
    if same(unit, "kaonic-commd.service") {
        "Radio control"
    } else if same(unit, "kaonic-factory.service") {
        "Factory setup"
    } else if same(unit, "kaonic-gateway.service") {
        "Web gateway"
    } else if same(unit, "kaonic-installer.service") {
        "Installer agent"
    } else {
        "Service"
    }
}

/// The state of a unit in words.
pub open spec fn status_text(load: Seq<char>, active: Seq<char>, sub_state: Seq<char>) -> Seq<char> {
    if load != "loaded"@ && load.len() > 0 {
        load
    } else if active.len() == 0 && sub_state.len() == 0 {
        "unknown"@
    } else if sub_state.len() == 0 || sub_state == active {
        active
    } else {
        active + " ("@ + sub_state + ")"@
    }
}

/// The state of a unit in words.
pub fn format_service_status(load_state: &str, active_state: &str, sub_state: &str) -> (out: String)
    ensures
        out@ == status_text(load_state@, active_state@, sub_state@),
{
    if !same(load_state, "loaded") && !load_state.is_empty() {
        return load_state.to_owned();
    }
    if active_state.is_empty() && sub_state.is_empty() {
        return "unknown".to_owned();
    }
    if sub_state.is_empty() || same(sub_state, active_state) {
        return active_state.to_owned();
    }
    cat4(active_state, " (", sub_state, ")")
}

/// The record of a unit in a state.
pub open spec fn service_of(
    unit: Seq<char>,
    load: Seq<char>,
    active: Seq<char>,
    sub_state: Seq<char>,
) -> ServiceStatusView {
    ServiceStatusView {
        unit,
        brief_name: brief_name(unit),
        load_state: load,
        active_state: active,
        sub_state,
        status: status_text(load, active, sub_state),
    }
}

/// The record of a unit in a state.
fn service_dto(unit: &str, state: &UnitState) -> (out: ServiceStatusDto)
    ensures
        out@ == service_of(unit@, state@.load_state, state@.active_state, state@.sub_state),
{
    ServiceStatusDto {
        unit: unit.to_owned(),
        brief_name: service_brief_name(unit).to_owned(),
        load_state: state.load_state.clone(),
        active_state: state.active_state.clone(),
        sub_state: state.sub_state.clone(),
        status: format_service_status(
            state.load_state.as_str(),
            state.active_state.as_str(),
            state.sub_state.as_str(),
        ),
    }
}

/// The record of a unit that could not be asked.
pub open spec fn service_error(unit: Seq<char>, message: Seq<char>) -> ServiceStatusView {
    ServiceStatusView {
        unit,
        brief_name: brief_name(unit),
        load_state: "unknown"@,
        active_state: "error"@,
        sub_state: Seq::empty(),
        status: if message.len() == 0 {
            "systemctl error"@
        } else {
            message
        },
    }
}

/// The record of a unit that could not be asked.
pub fn service_error_dto(unit: &str, message: &str) -> (out: ServiceStatusDto)
    ensures
        out@ == service_error(unit@, message@),
{
    let sub_state = String::new();
    assert(sub_state@ =~= Seq::<char>::empty());
    ServiceStatusDto {
        unit: unit.to_owned(),
        brief_name: service_brief_name(unit).to_owned(),
        load_state: "unknown".to_owned(),
        active_state: "error".to_owned(),
        sub_state,
        status: if message.is_empty() {
            "systemctl error".to_owned()
        } else {
            message.to_owned()
        },
    }
}

// ── Reports ──────────────────────────────────────────────────────────────────

/// The state of a unit, as it was reported.
#[derive(Debug)]
pub struct UnitState {
    pub id: String,
    pub load_state: String,
    pub active_state: String,
    pub sub_state: String,
}

/// The state of a unit, as it was reported.
pub struct UnitStateView {
    pub id: Seq<char>,
    pub load_state: Seq<char>,
    pub active_state: Seq<char>,
    pub sub_state: Seq<char>,
}

impl View for UnitState {
    type V = UnitStateView;

    open spec fn view(&self) -> UnitStateView {
        UnitStateView {
            id: self.id@,
            load_state: self.load_state@,
            active_state: self.active_state@,
            sub_state: self.sub_state@,
        }
    }
}

/// A unit of which nothing was reported.
pub open spec fn no_state() -> UnitStateView {
    UnitStateView {
        id: Seq::empty(),
        load_state: Seq::empty(),
        active_state: Seq::empty(),
        sub_state: Seq::empty(),
    }
}

/// The state after one more line of a report: `Property=value`.
pub open spec fn property_line(state: UnitStateView, line: Seq<char>) -> UnitStateView {
    match halves(line, '=') {
        None => state,
        Some((key, value)) => if trim(key) == "Id"@ {
            UnitStateView { id: trim(value), ..state }
        } else if trim(key) == "LoadState"@ {
            UnitStateView { load_state: trim(value), ..state }
        } else if trim(key) == "ActiveState"@ {
            UnitStateView { active_state: trim(value), ..state }
        } else if trim(key) == "SubState"@ {
            UnitStateView { sub_state: trim(value), ..state }
        } else {
            state
        },
    }
}

/// The state that the lines of a block tell.
pub open spec fn block_state(ls: Seq<Seq<char>>) -> UnitStateView
    decreases ls.len(),
{
    if ls.len() == 0 {
        no_state()
    } else {
        property_line(block_state(ls.drop_last()), ls.last())
    }
}

/// The state that a block of a report tells.
fn read_block(block: &str) -> (out: UnitState)
    ensures
        out@ == block_state(lines(block@)),
{
    let ls = split_lines(block);
    let ghost all = views(ls@);
    let mut state = UnitState {
        id: String::new(),
        load_state: String::new(),
        active_state: String::new(),
        sub_state: String::new(),
    };
    let mut i: usize = 0;
    proof {
        assert(all.take(0) =~= Seq::<Seq<char>>::empty());
        assert(state.id@ =~= Seq::<char>::empty());
        assert(state.load_state@ =~= Seq::<char>::empty());
        assert(state.active_state@ =~= Seq::<char>::empty());
        assert(state.sub_state@ =~= Seq::<char>::empty());
    }
    while i < ls.len()
        invariant
            i <= ls@.len(),
            all == views(ls@),
            state@ == block_state(all.take(i as int)),
        decreases ls@.len() - i,
    {
        proof {
            assert(all.take(i + 1).drop_last() =~= all.take(i as int));
            assert(all.take(i + 1).last() == ls@[i as int]@);
        }
        match split_once(ls[i].as_str(), '=') {
            Some((key, value)) => {
                let key = trimmed(key.as_str());
                let value = trimmed(value.as_str());
                if same(key.as_str(), "Id") {
                    state.id = value;
                } else if same(key.as_str(), "LoadState") {
                    state.load_state = value;
                } else if same(key.as_str(), "ActiveState") {
                    state.active_state = value;
                } else if same(key.as_str(), "SubState") {
                    state.sub_state = value;
                }
            },
            None => {},
        }
        i += 1;
    }
    assert(all.take(i as int) =~= all);
    state
}

/// The last state that was reported for a unit.
pub open spec fn state_of_unit(states: Seq<UnitStateView>, unit: Seq<char>) -> Option<UnitStateView>
    decreases states.len(),
{
    if states.len() == 0 {
        None
    } else if states.last().id == unit {
        Some(states.last())
    } else {
        state_of_unit(states.drop_last(), unit)
    }
}

/// The index of the last state that was reported for a unit.
fn find_state(states: &Vec<UnitState>, unit: &str) -> (out: Option<usize>)
    ensures
        match out {
            Some(i) => i < states@.len() && state_of_unit(viewed(states@), unit@) == Some(
                states@[i as int]@,
            ),
            None => state_of_unit(viewed(states@), unit@) is None,
        },
{
    let ghost all = viewed(states@);
    let mut n: usize = states.len();
    assert(all.take(n as int) =~= all);
    while n > 0
        invariant
            n <= states@.len(),
            all == viewed(states@),
            state_of_unit(all.take(n as int), unit@) == state_of_unit(all, unit@),
        decreases n,
    {
        proof {
            assert(all.take(n as int).drop_last() =~= all.take(n - 1));
            assert(all.take(n as int).last() == states@[n - 1]@);
        }
        if same(states[n - 1].id.as_str(), unit) {
            return Some(n - 1);
        }
        n -= 1;
    }
    assert(all.take(0) =~= Seq::<UnitStateView>::empty());
    None
}

/// The states that the text of a report tells, a blank line between two units.
pub open spec fn report_states(text: Seq<char>) -> Seq<UnitStateView> {
    split_text(text, "\n\n"@).map_values(|block: Seq<char>| block_state(lines(block)))
}

/// The record of a unit, going by what was reported.
pub open spec fn reported_service(states: Seq<UnitStateView>, unit: Seq<char>) -> ServiceStatusView {
    match state_of_unit(states, unit) {
        Some(state) => service_of(unit, state.load_state, state.active_state, state.sub_state),
        None => service_error(unit, "not reported by systemctl"@),
    }
}

/// The records of the units of the gateway, from the text of a report.
pub fn parse_show_output(stdout: &str) -> (out: Vec<ServiceStatusDto>)
    ensures
        viewed(out@) == gateway_units().map_values(
            |unit: Seq<char>| reported_service(report_states(stdout@), unit),
        ),
{
    proof {
        reveal_strlit("\n\n");
    }
    let blocks = split_on_text(stdout, "\n\n");
    let ghost states_wanted = report_states(stdout@);
    let mut states: Vec<UnitState> = Vec::new();
    let mut i: usize = 0;
    assert(viewed(states@) =~= states_wanted.take(0));
    while i < blocks.len()
        invariant
            i <= blocks@.len(),
            views(blocks@) == split_text(stdout@, "\n\n"@),
            states_wanted == report_states(stdout@),
            viewed(states@) == states_wanted.take(i as int),
        decreases blocks@.len() - i,
    {
        let ghost before = viewed(states@);
        let state = read_block(blocks[i].as_str());
        states.push(state);
        proof {
            assert(views(blocks@)[i as int] == blocks@[i as int]@);
            assert(viewed(states@) =~= before.push(state@));
            assert(states_wanted.take(i + 1) =~= before.push(states_wanted[i as int]));
        }
        i += 1;
    }
    assert(states_wanted.take(i as int) =~= states_wanted);
    let units = gateway_service_units();
    let ghost wanted = gateway_units().map_values(
        |unit: Seq<char>| reported_service(states_wanted, unit),
    );
    let mut out: Vec<ServiceStatusDto> = Vec::new();
    let mut j: usize = 0;
    assert(viewed(out@) =~= wanted.take(0));
    while j < units.len()
        invariant
            j <= units@.len(),
            views(units@) == gateway_units(),
            viewed(states@) == states_wanted,
            wanted == gateway_units().map_values(
                |unit: Seq<char>| reported_service(states_wanted, unit),
            ),
            viewed(out@) == wanted.take(j as int),
        decreases units@.len() - j,
    {
        let ghost before = viewed(out@);
        let dto = match find_state(&states, units[j].as_str()) {
            Some(k) => service_dto(units[j].as_str(), &states[k]),
            None => service_error_dto(units[j].as_str(), "not reported by systemctl"),
        };
        out.push(dto);
        proof {
            assert(views(units@)[j as int] == units@[j as int]@);
            assert(viewed(out@) =~= before.push(dto@));
            assert(wanted.take(j + 1) =~= before.push(wanted[j as int]));
        }
        j += 1;
    }
    assert(wanted.take(j as int) =~= wanted);
    out
}

/// The records of the units of the gateway where none could be asked.
pub fn unavailable_services(message: &str) -> (out: Vec<ServiceStatusDto>)
    ensures
        viewed(out@) == gateway_units().map_values(
            |unit: Seq<char>| service_error(unit, message@),
        ),
{
    let units = gateway_service_units();
    let ghost wanted = gateway_units().map_values(|unit: Seq<char>| service_error(unit, message@));
    let mut out: Vec<ServiceStatusDto> = Vec::new();
    let mut j: usize = 0;
    assert(viewed(out@) =~= wanted.take(0));
    while j < units.len()
        invariant
            j <= units@.len(),
            views(units@) == gateway_units(),
            wanted == gateway_units().map_values(
                |unit: Seq<char>| service_error(unit, message@),
            ),
            viewed(out@) == wanted.take(j as int),
        decreases units@.len() - j,
    {
        let ghost before = viewed(out@);
        let dto = service_error_dto(units[j].as_str(), message);
        out.push(dto);
        proof {
            assert(views(units@)[j as int] == units@[j as int]@);
            assert(viewed(out@) =~= before.push(dto@));
            assert(wanted.take(j + 1) =~= before.push(wanted[j as int]));
        }
        j += 1;
    }
    assert(wanted.take(j as int) =~= wanted);
    out
}

/// What a program that failed said: what it printed as an error, or else what
/// it printed.
pub open spec fn failure_text(stderr: Seq<char>, stdout: Seq<char>) -> Seq<char> {
    if trim(stderr).len() == 0 {
        trim(stdout)
    } else {
        trim(stderr)
    }
}

/// What a program that failed said.
pub fn failure_message(stderr: &str, stdout: &str) -> (out: String)
    ensures
        out@ == failure_text(stderr@, stdout@),
{
    let message = trimmed(stderr);
    if message.as_str().is_empty() {
        trimmed(stdout)
    } else {
        message
    }
}

/// The records of the units of the gateway, from what `systemctl show` left
/// behind, or from why it could not be run.
pub fn query_gateway_services(outcome: &Result<CommandOutput, String>) -> (out: Vec<
    ServiceStatusDto,
>)
    ensures
        viewed(out@) == (match *outcome {
            Ok(output) => if output.success {
                gateway_units().map_values(
                    |unit: Seq<char>|
                        reported_service(report_states(lossy_text(output.stdout@)), unit),
                )
            } else {
                gateway_units().map_values(
                    |unit: Seq<char>|
                        service_error(
                            unit,
                            failure_text(lossy_text(output.stderr@), lossy_text(output.stdout@)),
                        ),
                )
            },
            Err(err) => gateway_units().map_values(
                |unit: Seq<char>| service_error(unit, "systemctl unavailable: "@ + err@),
            ),
        }),
{
    match outcome {
        Ok(output) => {
            let stdout = read_lossy(output.stdout.as_slice());
            if output.success {
                parse_show_output(stdout.as_str())
            } else {
                let stderr = read_lossy(output.stderr.as_slice());
                let message = failure_message(stderr.as_str(), stdout.as_str());
                unavailable_services(message.as_str())
            }
        },
        Err(err) => {
            let message = cat2("systemctl unavailable: ", err.as_str());
            unavailable_services(message.as_str())
        },
    }
}

// ── The installer ────────────────────────────────────────────────────────────

/// Whether the installer reported every unit of the gateway.
pub open spec fn covers_units(states: Seq<UnitStateView>) -> bool {
    forall|k: int|
        0 <= k < gateway_units().len() ==> state_of_unit(
            states,
            #[trigger] gateway_units()[k],
        ) is Some
}

/// The records of the units of the gateway, going by the states that the
/// installer keeps; none where it does not know all of them.
pub fn query_services_from_installer(states: &Vec<UnitState>) -> (out: Option<
    Vec<ServiceStatusDto>,
>)
    ensures
        out is Some <==> covers_units(viewed(states@)),
        out matches Some(list) ==> viewed(list@) == gateway_units().map_values(
            |unit: Seq<char>| reported_service(viewed(states@), unit),
        ),
{
    let units = gateway_service_units();
    let ghost known = viewed(states@);
    let ghost wanted = gateway_units().map_values(|unit: Seq<char>| reported_service(known, unit));
    let mut out: Vec<ServiceStatusDto> = Vec::new();
    let mut j: usize = 0;
    assert(viewed(out@) =~= wanted.take(0));
    while j < units.len()
        invariant
            j <= units@.len(),
            views(units@) == gateway_units(),
            known == viewed(states@),
            wanted == gateway_units().map_values(
                |unit: Seq<char>| reported_service(known, unit),
            ),
            viewed(out@) == wanted.take(j as int),
            forall|k: int|
                0 <= k < j ==> state_of_unit(known, #[trigger] gateway_units()[k]) is Some,
        decreases units@.len() - j,
    {
        let ghost before = viewed(out@);
        assert(views(units@)[j as int] == units@[j as int]@);
        let dto = match find_state(states, units[j].as_str()) {
            Some(k) => service_dto(units[j].as_str(), &states[k]),
            None => {
                assert(state_of_unit(known, gateway_units()[j as int]) is None);
                return None;
            },
        };
        out.push(dto);
        proof {
            assert(viewed(out@) =~= before.push(dto@));
            assert(wanted.take(j + 1) =~= before.push(wanted[j as int]));
        }
        j += 1;
    }
    assert(wanted.take(j as int) =~= wanted);
    Some(out)
}

// ── Keeping ──────────────────────────────────────────────────────────────────

/// For how long a record is good, in milliseconds.
pub const SERVICE_STATUS_TTL_MS: u64 = 3000;

/// Whether records that were fetched at the time `fetched_ms` are still good.
pub fn is_fresh(fetched_ms: u64, now_ms: u64) -> (out: bool)
    ensures
        out == (now_ms < fetched_ms + SERVICE_STATUS_TTL_MS),
{
    now_ms.saturating_sub(fetched_ms) < SERVICE_STATUS_TTL_MS
}

// ── Laws ─────────────────────────────────────────────────────────────────────

/// The gateway has four units, and each has a name of its own.
pub proof fn units_have_names_of_their_own(a: Seq<char>, b: Seq<char>)
    requires
        gateway_units().contains(a),
    ensures
        a == "kaonic-commd.service"@ || a == "kaonic-factory.service"@ || a
            == "kaonic-gateway.service"@ || a == "kaonic-installer.service"@,
        gateway_units().len() == 4,
        gateway_units().contains("kaonic-commd.service"@),
        gateway_units().contains("kaonic-factory.service"@),
        gateway_units().contains("kaonic-gateway.service"@),
        gateway_units().contains("kaonic-installer.service"@),
        brief_name(a) == brief_name(b) ==> a == b,
        !gateway_units().contains(b) ==> brief_name(b) == "Service"@,
{
    let units = gateway_units();
    assert(units[0] == "kaonic-commd.service"@);
    assert(units[1] == "kaonic-factory.service"@);
    assert(units[2] == "kaonic-gateway.service"@);
    assert(units[3] == "kaonic-installer.service"@);
    reveal_strlit("Radio control");
    reveal_strlit("Factory setup");
    reveal_strlit("Web gateway");
    reveal_strlit("Installer agent");
    reveal_strlit("Service");
    assert("Radio control"@[0] == 'R');
    assert("Factory setup"@[0] == 'F');
    assert("Web gateway"@[0] == 'W');
    assert("Installer agent"@[0] == 'I');
    assert("Service"@[0] == 'S');
}

/// A line of a report sets the property that it names, and no other; a later line
/// counts over an earlier one.
pub proof fn properties_are_set_by_name(ls: Seq<Seq<char>>, value: Seq<char>)
    ensures
        block_state(ls.push("Id="@ + value)) == (UnitStateView {
            id: trim(value),
            ..block_state(ls)
        }),
        block_state(ls.push("LoadState="@ + value)) == (UnitStateView {
            load_state: trim(value),
            ..block_state(ls)
        }),
        block_state(ls.push("ActiveState="@ + value)) == (UnitStateView {
            active_state: trim(value),
            ..block_state(ls)
        }),
        block_state(ls.push("SubState="@ + value)) == (UnitStateView {
            sub_state: trim(value),
            ..block_state(ls)
        }),
        !value.contains('=') ==> block_state(ls.push(value)) == block_state(ls),
{
    reveal_strlit("Id");
    reveal_strlit("Id=");
    reveal_strlit("LoadState");
    reveal_strlit("LoadState=");
    reveal_strlit("ActiveState");
    reveal_strlit("ActiveState=");
    reveal_strlit("SubState");
    reveal_strlit("SubState=");
    assert("Id="@ =~= "Id"@ + seq!['=']);
    assert("LoadState="@ =~= "LoadState"@ + seq!['=']);
    assert("ActiveState="@ =~= "ActiveState"@ + seq!['=']);
    assert("SubState="@ =~= "SubState"@ + seq!['=']);
    lemma_property(ls, "Id"@, value);
    lemma_property(ls, "LoadState"@, value);
    lemma_property(ls, "ActiveState"@, value);
    lemma_property(ls, "SubState"@, value);
    assert("Id"@.len() == 2);
    assert("LoadState"@.len() == 9);
    assert("ActiveState"@.len() == 11);
    assert("SubState"@.len() == 8);
    if !value.contains('=') {
        texts_fall_apart_at_the_first(value, '=', value);
        assert(ls.push(value).drop_last() =~= ls);
    }
}

proof fn lemma_property(ls: Seq<Seq<char>>, key: Seq<char>, value: Seq<char>)
    requires
        key.len() > 0,
        forall|k: int|
            0 <= k < key.len() ==> 'A' <= #[trigger] key[k] <= 'Z' || 'a' <= key[k] <= 'z',
    ensures
        block_state(ls.push(key + seq!['='] + value)) == property_line(
            block_state(ls),
            key + seq!['='] + value,
        ),
        halves(key + seq!['='] + value, '=') == Some((key, value)),
        trim(key) == key,
{
    let line = key + seq!['='] + value;
    assert(ls.push(line).drop_last() =~= ls);
    if key.contains('=') {
        let k = choose|k: int| 0 <= k < key.len() && key[k] == '=';
        assert(key[k] == '=');
    }
    texts_fall_apart_at_the_first(key, '=', value);
    assert('A' <= key[0] <= 'Z' || 'a' <= key[0] <= 'z');
    assert('A' <= key[key.len() - 1] <= 'Z' || 'a' <= key[key.len() - 1] <= 'z');
    lemma_trimmed(key);
}

/// A block of a report begins with nothing set.
pub proof fn blocks_begin_with_nothing()
    ensures
        block_state(Seq::empty()).id.len() == 0,
        block_state(Seq::empty()).load_state.len() == 0,
        block_state(Seq::empty()).active_state.len() == 0,
        block_state(Seq::empty()).sub_state.len() == 0,
{
}

/// The state of a unit is the last one that was reported for it.
pub proof fn the_last_report_of_a_unit_counts(
    states: Seq<UnitStateView>,
    unit: Seq<char>,
    i: int,
)
    requires
        0 <= i < states.len(),
        states[i].id == unit,
        forall|k: int| i < k < states.len() ==> (#[trigger] states[k]).id != unit,
    ensures
        state_of_unit(states, unit) == Some(states[i]),
    decreases states.len(),
{
    let rest = states.drop_last();
    if i < rest.len() {
        assert(states[states.len() - 1].id != unit);
        assert forall|k: int| i < k < rest.len() implies (#[trigger] rest[k]).id != unit by {
            assert(states[k].id != unit);
        }
        the_last_report_of_a_unit_counts(rest, unit, i);
    }
}

/// A unit that was not reported has no state.
pub proof fn unreported_units_have_no_state(states: Seq<UnitStateView>, unit: Seq<char>)
    requires
        forall|k: int| 0 <= k < states.len() ==> (#[trigger] states[k]).id != unit,
    ensures
        state_of_unit(states, unit) is None,
    decreases states.len(),
{
    if states.len() > 0 {
        let rest = states.drop_last();
        assert(states[states.len() - 1].id != unit);
        assert forall|k: int| 0 <= k < rest.len() implies (#[trigger] rest[k]).id != unit by {
            assert(states[k].id != unit);
        }
        unreported_units_have_no_state(rest, unit);
    }
}

/// A unit that was reported is shown with its own states; one that was not is shown
/// as an error, and says so.
pub proof fn units_are_shown_as_reported(states: Seq<UnitStateView>, unit: Seq<char>)
    ensures
        reported_service(states, unit).unit == unit,
        reported_service(states, unit).brief_name == brief_name(unit),
        state_of_unit(states, unit) matches Some(state) ==> {
            let shown = reported_service(states, unit);
            &&& (shown.load_state, shown.active_state, shown.sub_state) == (
                state.load_state,
                state.active_state,
                state.sub_state,
            )
            &&& shown.status == status_text(state.load_state, state.active_state, state.sub_state)
        },
        state_of_unit(states, unit) is None ==> {
            let shown = reported_service(states, unit);
            &&& shown.active_state == "error"@
            &&& shown.status == "not reported by systemctl"@
        },
{
    reveal_strlit("not reported by systemctl");
}

/// A unit that is loaded is summed up by its states; one that is not, by that.
pub proof fn states_of_units_are_summed_up(load: Seq<char>, active: Seq<char>, more: Seq<char>)
    ensures
        load.len() > 0 && load != "loaded"@ ==> status_text(load, active, more) == load,
        load == "loaded"@ && active.len() > 0 && more.len() > 0 && more != active ==> status_text(
            load,
            active,
            more,
        ) == active + " ("@ + more + ")"@,
        load == "loaded"@ && active.len() > 0 && (more.len() == 0 || more == active)
            ==> status_text(load, active, more) == active,
        load == "loaded"@ && active.len() == 0 && more.len() == 0 ==> status_text(
            load,
            active,
            more,
        ) == "unknown"@,
{
}

/// A failure is told in the words of the command, those of its error output first.
pub proof fn failures_are_told_in_words(stderr: Seq<char>, stdout: Seq<char>, unit: Seq<char>)
    ensures
        trim(stderr).len() > 0 ==> failure_text(stderr, stdout) == trim(stderr),
        trim(stderr).len() == 0 ==> failure_text(stderr, stdout) == trim(stdout),
        service_error(unit, stderr).unit == unit,
        service_error(unit, stderr).active_state == "error"@,
        stderr.len() > 0 ==> service_error(unit, stderr).status == stderr,
        stderr.len() == 0 ==> service_error(unit, stderr).status == "systemctl error"@,
{
}

/// A report falls into blocks at its empty lines, and each block tells of one unit.
pub proof fn reports_fall_into_blocks(block: Seq<char>, rest: Seq<char>)
    requires
        forall|k: int|
            0 <= k < block.len() ==> !"\n\n"@.is_prefix_of(
                #[trigger] (block + "\n\n"@ + rest).skip(k),
            ),
    ensures
        report_states(block + "\n\n"@ + rest) == seq![block_state(lines(block))] + report_states(
            rest,
        ),
{
    reveal_strlit("\n\n");
    let whole = block + "\n\n"@ + rest;
    texts_are_found_where_they_begin(block, "\n\n"@, rest);
    assert(whole.take(block.len() as int) =~= block);
    assert(whole.skip(block.len() as int + 2) =~= rest);
    assert(split_text(whole, "\n\n"@) == seq![block] + split_text(rest, "\n\n"@));
    assert(report_states(whole) =~= seq![block_state(lines(block))] + report_states(rest));
}

/// What the installer reports is taken only if it tells of all four units.
pub proof fn reports_have_to_tell_of_all_units(states: Seq<UnitStateView>)
    ensures
        covers_units(states) <==> state_of_unit(states, "kaonic-commd.service"@) is Some
            && state_of_unit(states, "kaonic-factory.service"@) is Some && state_of_unit(
            states,
            "kaonic-gateway.service"@,
        ) is Some && state_of_unit(states, "kaonic-installer.service"@) is Some,
{
    let units = gateway_units();
    assert(units[0] == "kaonic-commd.service"@);
    assert(units[1] == "kaonic-factory.service"@);
    assert(units[2] == "kaonic-gateway.service"@);
    assert(units[3] == "kaonic-installer.service"@);
    if covers_units(states) {
        assert(state_of_unit(states, units[0]) is Some);
        assert(state_of_unit(states, units[1]) is Some);
        assert(state_of_unit(states, units[2]) is Some);
        assert(state_of_unit(states, units[3]) is Some);
    }
}

} // verus!
