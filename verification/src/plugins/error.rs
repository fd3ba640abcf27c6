//! Why a plugin request is refused.
use vstd::prelude::*;

verus! {

/// The request was wrong.
pub const BAD_REQUEST: u16 = 400;

/// There is no such thing.
pub const NOT_FOUND: u16 = 404;

/// The installer failed.
pub const INTERNAL_SERVER_ERROR: u16 = 500;

/// A refusal: an HTTP status and a reason.
#[derive(Debug)]
pub struct PluginError {
    pub status: u16,
    pub detail: String,
}

/// What a refusal holds.
pub struct Refusal {
    pub status: u16,
    pub detail: Seq<char>,
}

impl View for PluginError {
    type V = Refusal;

    open spec fn view(&self) -> Refusal {
        Refusal { status: self.status, detail: self.detail@ }
    }
}

/// The refusal of a wrong request.
pub open spec fn bad(detail: Seq<char>) -> Refusal {
    Refusal { status: BAD_REQUEST, detail }
}

/// The refusal of a request for something that is not there.
pub open spec fn missing(detail: Seq<char>) -> Refusal {
    Refusal { status: NOT_FOUND, detail }
}

/// The refusal of a request that the installer failed on.
pub open spec fn failed(detail: Seq<char>) -> Refusal {
    Refusal { status: INTERNAL_SERVER_ERROR, detail }
}

impl PluginError {
    /// The refusal of a wrong request.
    pub fn bad_request(detail: String) -> (out: PluginError)
        ensures
            out@ == bad(detail@),
    {
        PluginError { status: BAD_REQUEST, detail }
    }

    /// The refusal of a request for something that is not there.
    pub fn not_found(detail: String) -> (out: PluginError)
        ensures
            out@ == missing(detail@),
    {
        PluginError { status: NOT_FOUND, detail }
    }

    /// The refusal of a request that the installer failed on.
    pub fn internal(detail: String) -> (out: PluginError)
        ensures
            out@ == failed(detail@),
    {
        PluginError { status: INTERNAL_SERVER_ERROR, detail }
    }

    /// Whether the installer is to blame.
    pub fn is_server_error(&self) -> (out: bool)
        ensures
            out == (500 <= self.status < 600),
    {
        500 <= self.status && self.status < 600
    }
}

/// What an outcome without a value stands for.
pub open spec fn unit_outcome(out: Result<(), PluginError>) -> Result<(), Refusal> {
    match out {
        Ok(()) => Ok(()),
        Err(err) => Err(err@),
    }
}

/// What an outcome with a text stands for.
pub open spec fn text_outcome(out: Result<String, PluginError>) -> Result<Seq<char>, Refusal> {
    match out {
        Ok(text) => Ok(text@),
        Err(err) => Err(err@),
    }
}

/// What an outcome with an optional text stands for.
pub open spec fn opt_outcome(out: Result<Option<String>, PluginError>) -> Result<
    Option<Seq<char>>,
    Refusal,
> {
    match out {
        Ok(Some(text)) => Ok(Some(text@)),
        Ok(None) => Ok(None),
        Err(err) => Err(err@),
    }
}

// ── Laws ─────────────────────────────────────────────────────────────────────

/// What was asked wrongly, what is not there and what went wrong are told apart by
/// the status of the answer.
pub proof fn refusals_have_their_status(detail: Seq<char>)
    ensures
        bad(detail).status == 400 && bad(detail).detail == detail,
        missing(detail).status == 404 && missing(detail).detail == detail,
        failed(detail).status == 500 && failed(detail).detail == detail,
{
}

} // verus!
