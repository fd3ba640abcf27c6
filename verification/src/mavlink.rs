//! The services that carry MAVLink.
use crate::command::CommandOutput;
use crate::text::{
    cat2, lines, same, split_lines, starts_with, trim, trimmed, views,
};
use crate::utf8::{lossy_text, read_lossy};
use vstd::prelude::*;

verus! {

/// The state of a service.
#[derive(Debug)]
pub struct ServiceStatus {
    pub active: bool,
    pub enabled: bool,
    pub status_text: String,
}

/// The states of both services.
#[derive(Debug)]
pub struct MavlinkSnapshot {
    pub fc: ServiceStatus,
    pub gc: ServiceStatus,
}

/// Whether a service carries MAVLink.
pub open spec fn is_mavlink_service(service: Seq<char>) -> bool {
    service == "rns-mavlink-fc.service"@ || service == "rns-mavlink-gc.service"@
}

/// Whether something may be asked of a service.
pub open spec fn is_service_action(action: Seq<char>) -> bool {
    action == "start"@ || action == "stop"@ || action == "restart"@ || action == "enable"@
        || action == "disable"@
}

/// Accepts what may be asked of a service that carries MAVLink.
pub fn check_mavlink_control(service: &str, action: &str) -> (out: Result<(), String>)
    ensures
        match out {
            Ok(()) => is_mavlink_service(service@) && is_service_action(action@),
            Err(err) => if !is_mavlink_service(service@) {
                err@ == "Invalid service name"@
            } else {
                !is_service_action(action@) && err@ == "Invalid action"@
            },
        },
{
    if !same(service, "rns-mavlink-fc.service") && !same(service, "rns-mavlink-gc.service") {
        return Err("Invalid service name".to_owned());
    }
    if !same(action, "start") && !same(action, "stop") && !same(action, "restart") && !same(
        action,
        "enable",
    ) && !same(action, "disable") {
        return Err("Invalid action".to_owned());
    }
    Ok(())
}

/// What became of what was asked of a service, from what systemctl left behind,
/// or from why it could not be run.
pub fn control_mavlink_service(outcome: &Result<CommandOutput, String>) -> (out: Result<(), String>)
    ensures
        match *outcome {
            Ok(output) => if output.success {
                out is Ok
            } else {
                out matches Err(err) && err@ == "systemctl command failed: "@ + lossy_text(
                    output.stderr@,
                )
            },
            Err(_) => out matches Err(err) && err@ == "Failed to execute systemctl"@,
        },
{
    match outcome {
        Ok(output) => {
            if output.success {
                Ok(())
            } else {
                let text = read_lossy(output.stderr.as_slice());
                Err(cat2("systemctl command failed: ", text.as_str()))
            }
        },
        Err(_) => Err("Failed to execute systemctl".to_owned()),
    }
}

/// The first of some lines that says whether a service is active, white space
/// around it aside.
pub open spec fn active_line(ls: Seq<Seq<char>>) -> Seq<char>
    decreases ls.len(),
{
    if ls.len() == 0 {
        "Active: unknown"@
    } else if "Active:"@.is_prefix_of(trim(ls[0])) {
        trim(ls[0])
    } else {
        active_line(ls.skip(1))
    }
}

/// What a report of systemctl says on whether a service is active.
pub fn status_line(text: &str) -> (out: String)
    ensures
        out@ == active_line(lines(text@)),
{
    let ls = split_lines(text);
    let ghost all = views(ls@);
    let mut i: usize = 0;
    assert(all.skip(0) =~= all);
    while i < ls.len()
        invariant
            i <= ls@.len(),
            all == views(ls@),
            all == lines(text@),
            active_line(all.skip(i as int)) == active_line(all),
        decreases ls@.len() - i,
    {
        proof {
            assert(all.skip(i as int)[0] == ls@[i as int]@);
            assert(all.skip(i as int).skip(1) =~= all.skip(i + 1));
        }
        let line = trimmed(ls[i].as_str());
        if starts_with(line.as_str(), "Active:") {
            return line;
        }
        i += 1;
    }
    assert(all.skip(i as int) =~= Seq::<Seq<char>>::empty());
    "Active: unknown".to_owned()
}

/// The state of a service, from what three runs of systemctl left behind, or
/// from why they could not be run: whether it is active, whether it is enabled,
/// and a report.
pub fn get_service_status(
    active: &Result<CommandOutput, String>,
    enabled: &Result<CommandOutput, String>,
    report: &Result<CommandOutput, String>,
) -> (out: Result<ServiceStatus, String>)
    ensures
        match (*active, *enabled, *report) {
            (Ok(active), Ok(enabled), Ok(report)) => {
                &&& out matches Ok(status) && status.active == active.success && status.enabled
                    == enabled.success && status.status_text@ == active_line(
                    lines(lossy_text(report.stdout@)),
                )
            },
            (Err(reason), _, _) => out matches Err(err) && err@
                == "Failed to check service status: "@ + reason@,
            (_, Err(reason), _) => out matches Err(err) && err@
                == "Failed to check service enabled: "@ + reason@,
            (_, _, Err(reason)) => out matches Err(err) && err@
                == "Failed to get service status: "@ + reason@,
        },
{
    let active = match active {
        Ok(output) => output.success,
        Err(err) => {
            return Err(cat2("Failed to check service status: ", err.as_str()));
        },
    };
    let enabled = match enabled {
        Ok(output) => output.success,
        Err(err) => {
            return Err(cat2("Failed to check service enabled: ", err.as_str()));
        },
    };
    match report {
        Ok(output) => {
            let text = read_lossy(output.stdout.as_slice());
            Ok(ServiceStatus { active, enabled, status_text: status_line(text.as_str()) })
        },
        Err(err) => Err(cat2("Failed to get service status: ", err.as_str())),
    }
}

/// How the card of a service shows its state.
#[derive(Debug)]
pub struct ServiceCard {
    pub status_class: &'static str,
    pub badge_class: &'static str,
    pub badge: &'static str,
    pub mark: &'static str,
}

/// How the card of a service shows its state.
pub fn service_card(status: &ServiceStatus) -> (out: ServiceCard)
    ensures
        out.status_class@ == (if status.active {
            "service-status service-status--active"@
        } else {
            "service-status service-status--inactive"@
        }),
        out.badge_class@ == (if status.enabled {
            "badge badge-ok"@
        } else {
            "badge badge-warn"@
        }),
        out.badge@ == (if status.enabled {
            "Enabled"@
        } else {
            "Disabled"@
        }),
        out.mark@ == (if status.active {
            "●"@
        } else {
            "○"@
        }),
{
    ServiceCard {
        status_class: if status.active {
            "service-status service-status--active"
        } else {
            "service-status service-status--inactive"
        },
        badge_class: if status.enabled {
            "badge badge-ok"
        } else {
            "badge badge-warn"
        },
        badge: if status.enabled {
            "Enabled"
        } else {
            "Disabled"
        },
        mark: if status.active {
            "●"
        } else {
            "○"
        },
    }
}

/// The states of both services; the first one counts where both are unknown.
pub fn load_mavlink_snapshot(
    fc: Result<ServiceStatus, String>,
    gc: Result<ServiceStatus, String>,
) -> (out: Result<MavlinkSnapshot, String>)
    ensures
        out == (match (fc, gc) {
            (Ok(fc), Ok(gc)) => Ok::<MavlinkSnapshot, String>(MavlinkSnapshot { fc, gc }),
            (Err(err), _) => Err(err),
            (_, Err(err)) => Err(err),
        }),
{
    match fc {
        Ok(fc) => match gc {
            Ok(gc) => Ok(MavlinkSnapshot { fc, gc }),
            Err(err) => Err(err),
        },
        Err(err) => Err(err),
    }
}

// ── Laws ─────────────────────────────────────────────────────────────────────

/// The state of a service is the first line of its report that begins with
/// `Active:`, without the space round it.
pub proof fn the_first_active_line_is_shown(ls: Seq<Seq<char>>, i: int)
    requires
        0 <= i < ls.len(),
        "Active:"@.is_prefix_of(trim(ls[i])),
        forall|k: int| 0 <= k < i ==> !"Active:"@.is_prefix_of(trim(#[trigger] ls[k])),
    ensures
        active_line(ls) == trim(ls[i]),
    decreases i,
{
    if i > 0 {
        let rest = ls.skip(1);
        assert(ls[0] == ls[0]);
        assert forall|k: int| 0 <= k < i - 1 implies !"Active:"@.is_prefix_of(
            trim(#[trigger] rest[k]),
        ) by {
            assert(rest[k] == ls[k + 1]);
        }
        the_first_active_line_is_shown(rest, i - 1);
    }
}

/// Without such a line the state is unknown.
pub proof fn without_an_active_line_nothing_is_known(ls: Seq<Seq<char>>)
    requires
        forall|k: int| 0 <= k < ls.len() ==> !"Active:"@.is_prefix_of(trim(#[trigger] ls[k])),
    ensures
        active_line(ls) == "Active: unknown"@,
    decreases ls.len(),
{
    if ls.len() > 0 {
        let rest = ls.skip(1);
        assert(ls[0] == ls[0]);
        assert forall|k: int| 0 <= k < rest.len() implies !"Active:"@.is_prefix_of(
            trim(#[trigger] rest[k]),
        ) by {
            assert(rest[k] == ls[k + 1]);
        }
        without_an_active_line_nothing_is_known(rest);
    }
}

/// Two services are controlled, each in five ways.
pub proof fn two_services_are_controlled(text: Seq<char>)
    ensures
        is_mavlink_service(text) <==> text == "rns-mavlink-fc.service"@ || text
            == "rns-mavlink-gc.service"@,
        is_service_action("start"@) && is_service_action("stop"@) && is_service_action("restart"@)
            && is_service_action("enable"@) && is_service_action("disable"@),
        is_mavlink_service(text) ==> !is_service_action(text),
{
    reveal_strlit("rns-mavlink-fc.service");
    reveal_strlit("rns-mavlink-gc.service");
    reveal_strlit("start");
    reveal_strlit("stop");
    reveal_strlit("restart");
    reveal_strlit("enable");
    reveal_strlit("disable");
    assert("rns-mavlink-fc.service"@.len() == 22);
    assert("rns-mavlink-gc.service"@.len() == 22);
    assert("start"@.len() == 5 && "stop"@.len() == 4 && "restart"@.len() == 7);
    assert("enable"@.len() == 6 && "disable"@.len() == 7);
}

} // verus!
