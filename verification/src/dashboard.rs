//! What the pages show of the device.
use crate::text::opt_view;
use vstd::prelude::*;

verus! {

/// The serial number that is shown, given what was set.
pub open spec fn shown_serial(slot: Option<Seq<char>>) -> Seq<char> {
    match slot {
        Some(serial) => serial,
        None => "unknown"@,
    }
}

/// Sets the serial number, unless it was set before.
pub fn set_serial(slot: &mut Option<String>, serial: String)
    ensures
        opt_view(*final(slot)) == (if opt_view(*old(slot)) is None {
            Some(serial@)
        } else {
            opt_view(*old(slot))
        }),
{
    if slot.is_none() {
        *slot = Some(serial);
    }
}

/// The serial number that was set, or `unknown`.
pub fn serial(slot: &Option<String>) -> (out: &str)
    ensures
        out@ == shown_serial(opt_view(*slot)),
{
    match slot {
        Some(serial) => serial.as_str(),
        None => "unknown",
    }
}

/// The version of the gateway that the top of the pages shows: what the
/// installer reported, or the gateway's own.
pub fn shown_version(reported: Option<String>, own: &str) -> (out: String)
    ensures
        out@ == (match reported {
            Some(version) => version@,
            None => own@,
        }),
{
    match reported {
        Some(version) => version,
        None => own.to_owned(),
    }
}

} // verus!
