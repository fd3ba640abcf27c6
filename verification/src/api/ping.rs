//! How long a ping took.
use crate::api::error::{refused, ApiError};
use crate::command::CommandOutput;
use crate::dto::VpnPingResponse;
use crate::text::{
    cat2, cat4, find_chars, find_text, from_chars, is_digit, lemma_find_text, lemma_trimmed, lines,
    opt_view, split_lines, texts_are_found_where_they_begin, to_chars, trim, trimmed, views,
};
use crate::utf8::{lossy_text, read_lossy};
use vstd::prelude::*;

verus! {

/// Whether a text has another one in it.
pub open spec fn has_text(s: Seq<char>, p: Seq<char>) -> bool {
    find_text(s, p) is Some
}

/// Where the time starts in a line of a ping: behind `time=`, or else behind
/// `time`.
pub open spec fn time_start(line: Seq<char>) -> Option<int> {
    match find_text(line, "time="@) {
        Some(i) => Some(i + 5),
        None => match find_text(line, "time"@) {
            Some(i) => Some(i + 4),
            None => None,
        },
    }
}

/// Where the time ends in the rest of a line: at ` ms`, or else at `ms`.
pub open spec fn time_end(tail: Seq<char>) -> Option<int> {
    match find_text(tail, " ms"@) {
        Some(i) => Some(i),
        None => find_text(tail, "ms"@),
    }
}

/// The time that a line of a ping states.
pub open spec fn time_of_line(line: Seq<char>) -> Option<Seq<char>> {
    match time_start(line) {
        None => None,
        Some(start) => match time_end(line.skip(start)) {
            None => None,
            Some(end) => {
                let value = trim(line.skip(start).take(end));
                if value.len() == 0 {
                    None
                } else {
                    Some(value + " ms"@)
                }
            },
        },
    }
}

/// The time that lines of a ping state: the first line with a time counts.
pub open spec fn latency(ls: Seq<Seq<char>>) -> Option<Seq<char>>
    decreases ls.len(),
{
    if ls.len() == 0 {
        None
    } else if has_text(ls[0], "time="@) || has_text(ls[0], "time<"@) {
        time_of_line(ls[0])
    } else {
        latency(ls.skip(1))
    }
}

/// Whether a text has another one in it.
fn contains(s: &str, p: &str) -> (out: bool)
    ensures
        out == has_text(s@, p@),
{
    let cs = to_chars(s);
    let ps = to_chars(p);
    assert(cs@.skip(0) =~= cs@);
    find_chars(&cs, 0, &ps).is_some()
}

/// The time that a line of a ping states.
fn read_time(line: &str) -> (out: Option<String>)
    ensures
        opt_view(out) == time_of_line(line@),
{
    proof {
        reveal_strlit("time=");
        reveal_strlit("time");
        lemma_find_text(line@, "time="@);
        lemma_find_text(line@, "time"@);
    }
    let cs = to_chars(line);
    let len = cs.len();
    assert(cs@.skip(0) =~= cs@);
    let equals = to_chars("time=");
    let bare = to_chars("time");
    let start: usize = match find_chars(&cs, 0, &equals) {
        Some(i) => i + 5,
        None => match find_chars(&cs, 0, &bare) {
            Some(i) => i + 4,
            None => {
                return None;
            },
        },
    };
    let ghost tail = line@.skip(start as int);
    proof {
        lemma_find_text(tail, " ms"@);
        lemma_find_text(tail, "ms"@);
    }
    let spaced = to_chars(" ms");
    let unit = to_chars("ms");
    let end: usize = match find_chars(&cs, start, &spaced) {
        Some(i) => i,
        None => match find_chars(&cs, start, &unit) {
            Some(i) => i,
            None => {
                return None;
            },
        },
    };
    let text = from_chars(&cs, start, end);
    assert(text@ =~= tail.take(end - start));
    let value = trimmed(text.as_str());
    if value.as_str().is_empty() {
        return None;
    }
    Some(cat2(value.as_str(), " ms"))
}

/// The time that the text of a ping states.
pub fn latency_of_text(text: &str) -> (out: Option<String>)
    ensures
        opt_view(out) == latency(lines(text@)),
{
    let ls = split_lines(text);
    let ghost all = views(ls@);
    let mut i: usize = 0;
    assert(all.skip(0) =~= all);
    while i < ls.len()
        invariant
            i <= ls@.len(),
            all == views(ls@),
            all == lines(text@),
            latency(all.skip(i as int)) == latency(all),
        decreases ls@.len() - i,
    {
        proof {
            assert(all.skip(i as int)[0] == ls@[i as int]@);
            assert(all.skip(i as int).skip(1) =~= all.skip(i + 1));
        }
        if contains(ls[i].as_str(), "time=") || contains(ls[i].as_str(), "time<") {
            return read_time(ls[i].as_str());
        }
        i += 1;
    }
    assert(all.skip(i as int) =~= Seq::<Seq<char>>::empty());
    None
}

/// The time that the output of a ping states.
pub fn parse_ping_latency(stdout: &[u8]) -> (out: Option<String>)
    ensures
        opt_view(out) == latency(lines(lossy_text(stdout@))),
{
    let text = read_lossy(stdout);
    latency_of_text(text.as_str())
}

/// The answer to a request for a ping, from what `ping` left behind, or from
/// why it could not be run.
pub fn request_vpn_ping(address: &str, outcome: &Result<CommandOutput, String>) -> (out: Result<
    VpnPingResponse,
    ApiError,
>)
    ensures
        match (out, *outcome) {
            (Ok(answer), Ok(output)) => {
                &&& answer.ok == output.success
                &&& opt_view(answer.latency) == (if output.success {
                    latency(lines(lossy_text(output.stdout@)))
                } else {
                    None
                })
            },
            (Err(err), Err(reason)) => err@ == refused(
                502,
                "failed to execute ping "@ + address@ + ": "@ + reason@,
            ),
            _ => false,
        },
{
    match outcome {
        Ok(output) => {
            if output.success {
                Ok(
                    VpnPingResponse {
                        ok: true,
                        latency: parse_ping_latency(output.stdout.as_slice()),
                    },
                )
            } else {
                Ok(VpnPingResponse { ok: false, latency: None })
            }
        },
        Err(err) => Err(
            ApiError {
                status: 502,
                message: cat4("failed to execute ping ", address, ": ", err.as_str()),
            },
        ),
    }
}

// ── Laws ─────────────────────────────────────────────────────────────────────

/// The time that a reply took is what stands between `time=` and the unit behind it,
/// wherever in the line that is.
pub proof fn times_stand_before_their_unit(
    start: Seq<char>,
    value: Seq<char>,
    rest: Seq<char>,
)
    requires
        value.len() > 0,
        forall|k: int|
            0 <= k < value.len() ==> is_digit(#[trigger] value[k]) || value[k] == '.',
        forall|k: int|
            0 <= k < start.len() ==> !"time="@.is_prefix_of(
                #[trigger] (start + "time="@ + value + " ms"@ + rest).skip(k),
            ),
    ensures
        time_of_line(start + "time="@ + value + " ms"@ + rest) == Some(value + " ms"@),
        has_text(start + "time="@ + value + " ms"@ + rest, "time="@),
{
    let line = start + "time="@ + value + " ms"@ + rest;
    let tail = value + " ms"@ + rest;
    let n = start.len() as int;
    let m = value.len() as int;
    assert(line =~= start + "time="@ + tail);
    texts_are_found_where_they_begin(start, "time="@, tail);
    assert("time="@.len() == 5) by {
        reveal_strlit("time=");
    }
    assert(line.skip(n + 5) =~= tail);
    lemma_unit_behind(value, rest);
    assert(tail.take(m) =~= value);
    assert(is_digit(value[0]) || value[0] == '.');
    assert(is_digit(value[m - 1]) || value[m - 1] == '.');
    lemma_trimmed(value);
}

/// The unit behind a number is found where the number ends.
proof fn lemma_unit_behind(value: Seq<char>, rest: Seq<char>)
    requires
        forall|k: int|
            0 <= k < value.len() ==> is_digit(#[trigger] value[k]) || value[k] == '.',
    ensures
        find_text(value + " ms"@ + rest, " ms"@) == Some(value.len() as int),
{
    reveal_strlit(" ms");
    let tail = value + " ms"@ + rest;
    assert forall|k: int| 0 <= k < value.len() implies !" ms"@.is_prefix_of(
        #[trigger] tail.skip(k),
    ) by {
        assert(is_digit(value[k]) || value[k] == '.');
        if " ms"@.is_prefix_of(tail.skip(k)) {
            assert(" ms"@ =~= tail.skip(k).take(3));
            assert(tail.skip(k).take(3)[0] == value[k]);
        }
    }
    texts_are_found_where_they_begin(value, " ms"@, rest);
}

/// The first line that tells a time is the one that counts.
pub proof fn the_first_time_counts(ls: Seq<Seq<char>>, i: int)
    requires
        0 <= i < ls.len(),
        has_text(ls[i], "time="@) || has_text(ls[i], "time<"@),
        forall|k: int|
            0 <= k < i ==> !has_text(#[trigger] ls[k], "time="@) && !has_text(ls[k], "time<"@),
    ensures
        latency(ls) == time_of_line(ls[i]),
    decreases i,
{
    if i > 0 {
        let rest = ls.skip(1);
        assert(!has_text(ls[0], "time="@));
        assert forall|k: int| 0 <= k < i - 1 implies !has_text(#[trigger] rest[k], "time="@)
            && !has_text(rest[k], "time<"@) by {
            assert(rest[k] == ls[k + 1]);
        }
        the_first_time_counts(rest, i - 1);
        assert(rest[i - 1] == ls[i]);
    }
}

/// Where no line tells a time there is none.
pub proof fn without_a_line_there_is_no_time(ls: Seq<Seq<char>>)
    requires
        forall|k: int|
            0 <= k < ls.len() ==> !has_text(#[trigger] ls[k], "time="@) && !has_text(
                ls[k],
                "time<"@,
            ),
    ensures
        latency(ls) is None,
    decreases ls.len(),
{
    if ls.len() > 0 {
        let rest = ls.skip(1);
        assert(!has_text(ls[0], "time="@));
        assert forall|k: int| 0 <= k < rest.len() implies !has_text(#[trigger] rest[k], "time="@)
            && !has_text(rest[k], "time<"@) by {
            assert(rest[k] == ls[k + 1]);
        }
        without_a_line_there_is_no_time(rest);
    }
}

} // verus!
