//! What is decided when the gateway starts.
use crate::text::{lower, lowercase, same, trim, trimmed};
use vstd::prelude::*;

verus! {

/// Whether a text says yes.
pub open spec fn says_yes(text: Seq<char>) -> bool {
    let word = lower(trim(text));
    word == "1"@ || word == "true"@ || word == "yes"@ || word == "on"@
}

/// Whether only the pages are served, without radio and VPN. `setting` is what
/// the environment says of that; where it says nothing, the radio is left out on
/// systems other than Linux and on devices without a serial number.
pub fn should_run_webapp_only(setting: Option<&str>, is_linux: bool, has_serial: bool) -> (out: bool)
    ensures
        out == (match setting {
            Some(text) => says_yes(text@),
            None => !is_linux || !has_serial,
        }),
{
    match setting {
        Some(text) => {
            let bare = trimmed(text);
            let word = lowercase(bare.as_str());
            same(word.as_str(), "1") || same(word.as_str(), "true") || same(word.as_str(), "yes")
                || same(word.as_str(), "on")
        },
        None => !is_linux || !has_serial,
    }
}

/// The serial number of the device, from the file that holds it.
pub fn device_serial(content: Option<&str>) -> (out: String)
    ensures
        out@ == (match content {
            Some(text) => trim(text@),
            None => "unknown"@,
        }),
{
    match content {
        Some(text) => trimmed(text),
        None => "unknown".to_owned(),
    }
}

// ── Laws ─────────────────────────────────────────────────────────────────────

/// Four words say yes, in letters of either case and with space round them; the
/// words that say no, and no word at all, do not.
pub proof fn four_words_say_yes(text: Seq<char>)
    ensures
        lower(trim(text)) == "1"@ ==> says_yes(text),
        lower(trim(text)) == "true"@ ==> says_yes(text),
        lower(trim(text)) == "yes"@ ==> says_yes(text),
        lower(trim(text)) == "on"@ ==> says_yes(text),
        lower(trim(text)) == "0"@ ==> !says_yes(text),
        lower(trim(text)) == "false"@ ==> !says_yes(text),
        lower(trim(text)) == "no"@ ==> !says_yes(text),
        lower(trim(text)) == "off"@ ==> !says_yes(text),
        trim(text).len() == 0 ==> !says_yes(text),
{
    reveal_strlit("1");
    reveal_strlit("true");
    reveal_strlit("yes");
    reveal_strlit("on");
    reveal_strlit("0");
    reveal_strlit("false");
    reveal_strlit("no");
    reveal_strlit("off");
    assert("1"@[0] == '1');
    assert("0"@[0] == '0');
    assert("no"@[0] == 'n');
    assert("on"@[0] == 'o');
    assert("off"@[0] == 'o');
    assert("yes"@[0] == 'y');
    assert("false"@.len() == 5 && "true"@.len() == 4 && "yes"@.len() == 3 && "on"@.len() == 2);
    assert(lower(trim(text)).len() == trim(text).len());
}

} // verus!
