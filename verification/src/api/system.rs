//! Requests about the system: reboot, restart of services, files.
use crate::api::error::{refused, text_answer, ApiError};
use crate::command::CommandOutput;
use crate::dto::WsInterfacesDto;
use crate::services::{failure_message, failure_text, gateway_units, is_gateway_service_unit};
use crate::text::{cat2, cat3, cat4, trim};
use crate::utf8::{lossy_text, read_lossy};
use vstd::prelude::*;

verus! {

/// What a program that failed said, or another text where it said nothing.
pub open spec fn said_or(output: CommandOutput, default: Seq<char>) -> Seq<char> {
    let message = failure_text(lossy_text(output.stderr@), lossy_text(output.stdout@));
    if message.len() == 0 {
        default
    } else {
        message
    }
}

/// What a program that failed said, or another text.
fn message_or(output: &CommandOutput, default: String) -> (out: String)
    ensures
        out@ == said_or(*output, default@),
{
    let stderr = read_lossy(output.stderr.as_slice());
    let stdout = read_lossy(output.stdout.as_slice());
    let message = failure_message(stderr.as_str(), stdout.as_str());
    if message.as_str().is_empty() {
        default
    } else {
        message
    }
}

/// The answer to a request for a reboot, from what systemctl left behind, or
/// from why it could not be run.
pub fn request_system_reboot(outcome: &Result<CommandOutput, String>) -> (out: Result<
    String,
    ApiError,
>)
    ensures
        text_answer(out) == (match *outcome {
            Ok(output) => if output.success {
                Ok("Reboot requested"@)
            } else {
                Err(refused(500, said_or(output, "systemctl reboot failed"@)))
            },
            Err(err) => Err(refused(500, "failed to execute systemctl reboot: "@ + err@)),
        }),
{
    match outcome {
        Ok(output) => {
            if output.success {
                Ok("Reboot requested".to_owned())
            } else {
                let message = message_or(output, "systemctl reboot failed".to_owned());
                Err(ApiError { status: 500, message })
            }
        },
        Err(err) => Err(
            ApiError {
                status: 500,
                message: cat2("failed to execute systemctl reboot: ", err.as_str()),
            },
        ),
    }
}

/// Accepts the units that may be restarted: those of the gateway.
pub fn check_service_restart(unit: &str) -> (out: Result<(), ApiError>)
    ensures
        out is Ok <==> gateway_units().contains(unit@),
        out matches Err(err) ==> err@ == refused(400, "unsupported service"@),
{
    if is_gateway_service_unit(unit) {
        Ok(())
    } else {
        Err(ApiError { status: 400, message: "unsupported service".to_owned() })
    }
}

/// The answer to a request to restart a unit, from what systemctl left behind,
/// or from why it could not be run.
pub fn request_service_restart(unit: &str, outcome: &Result<CommandOutput, String>) -> (out: Result<
    String,
    ApiError,
>)
    ensures
        text_answer(out) == (match *outcome {
            Ok(output) => if output.success {
                Ok("Restart requested for "@ + unit@)
            } else {
                Err(
                    refused(
                        500,
                        said_or(output, "systemctl restart "@ + unit@ + " failed"@),
                    ),
                )
            },
            Err(err) => Err(
                refused(500, "failed to execute systemctl restart "@ + unit@ + ": "@ + err@),
            ),
        }),
{
    match outcome {
        Ok(output) => {
            if output.success {
                Ok(cat2("Restart requested for ", unit))
            } else {
                let message = message_or(output, cat3("systemctl restart ", unit, " failed"));
                Err(ApiError { status: 500, message })
            }
        },
        Err(err) => Err(
            ApiError {
                status: 500,
                message: cat4("failed to execute systemctl restart ", unit, ": ", err.as_str()),
            },
        ),
    }
}

/// What became of a command to systemd.
pub open spec fn systemctl_outcome(
    action: Seq<char>,
    unit: Seq<char>,
    outcome: Result<CommandOutput, String>,
) -> Result<(), Seq<char>> {
    match outcome {
        Ok(output) => if output.success {
            Ok(())
        } else {
            Err(said_or(output, "systemctl "@ + action + " "@ + unit + " failed"@))
        },
        Err(err) => Err(
            "failed to execute systemctl "@ + action + " "@ + unit + ": "@ + err@,
        ),
    }
}

/// What became of a command to systemd: nothing to say, or why it failed.
pub fn run_systemctl(action: &str, unit: &str, outcome: &Result<CommandOutput, String>) -> (out:
    Result<(), String>)
    ensures
        match (out, systemctl_outcome(action@, unit@, *outcome)) {
            (Ok(()), Ok(())) => true,
            (Err(err), Err(reason)) => err@ == reason,
            _ => false,
        },
{
    match outcome {
        Ok(output) => {
            if output.success {
                Ok(())
            } else {
                let head = cat4("systemctl ", action, " ", unit);
                Err(message_or(output, cat2(head.as_str(), " failed")))
            }
        },
        Err(err) => {
            let head = cat4("failed to execute systemctl ", action, " ", unit);
            Err(cat3(head.as_str(), ": ", err.as_str()))
        },
    }
}

/// The answer to a request for the root certificate that could not be read.
pub fn root_ca_failure(path: &str, err: &str, not_found: bool) -> (out: ApiError)
    ensures
        out@ == refused(
            if not_found {
                404
            } else {
                500
            },
            "failed to read root CA certificate "@ + path@ + ": "@ + err@,
        ),
{
    let status: u16 = if not_found {
        404
    } else {
        500
    };
    ApiError {
        status,
        message: cat4("failed to read root CA certificate ", path, ": ", err),
    }
}

/// The addresses of the local interfaces.
pub fn build_ws_interfaces(wlan0_ip: Option<String>, usb0_ip: Option<String>) -> (out:
    WsInterfacesDto)
    ensures
        out.wlan0_ip == wlan0_ip,
        out.usb0_ip == usb0_ip,
{
    WsInterfacesDto { wlan0_ip, usb0_ip }
}

// ── Laws ─────────────────────────────────────────────────────────────────────

/// A command for systemctl is done if and only if it succeeded; one that failed
/// answers in its own words, or by naming itself where it has none.
pub proof fn commands_answer_in_their_own_words(
    action: Seq<char>,
    unit: Seq<char>,
    output: CommandOutput,
    err: String,
)
    ensures
        systemctl_outcome(action, unit, Ok(output)) is Ok <==> output.success,
        systemctl_outcome(action, unit, Err(err)) == Err::<(), Seq<char>>(
            "failed to execute systemctl "@ + action + " "@ + unit + ": "@ + err@,
        ),
        !output.success && trim(lossy_text(output.stderr@)).len() > 0 ==> systemctl_outcome(
            action,
            unit,
            Ok(output),
        ) == Err::<(), Seq<char>>(trim(lossy_text(output.stderr@))),
        !output.success && trim(lossy_text(output.stderr@)).len() == 0 && trim(
            lossy_text(output.stdout@),
        ).len() > 0 ==> systemctl_outcome(action, unit, Ok(output)) == Err::<(), Seq<char>>(
            trim(lossy_text(output.stdout@)),
        ),
        !output.success && trim(lossy_text(output.stderr@)).len() == 0 && trim(
            lossy_text(output.stdout@),
        ).len() == 0 ==> systemctl_outcome(action, unit, Ok(output)) == Err::<(), Seq<char>>(
            "systemctl "@ + action + " "@ + unit + " failed"@,
        ),
{
}

} // verus!
