//! Why a request to the gateway is refused.
use vstd::prelude::*;

verus! {

/// A refusal: an HTTP status and a message.
#[derive(Debug)]
pub struct ApiError {
    pub status: u16,
    pub message: String,
}

/// What a refusal holds.
pub struct ApiErrorView {
    pub status: u16,
    pub message: Seq<char>,
}

impl View for ApiError {
    type V = ApiErrorView;

    open spec fn view(&self) -> ApiErrorView {
        ApiErrorView { status: self.status, message: self.message@ }
    }
}

/// A refusal.
pub open spec fn refused(status: u16, message: Seq<char>) -> ApiErrorView {
    ApiErrorView { status, message }
}

/// What an outcome with a text stands for.
pub open spec fn text_answer(out: Result<String, ApiError>) -> Result<Seq<char>, ApiErrorView> {
    match out {
        Ok(text) => Ok(text@),
        Err(err) => Err(err@),
    }
}

/// What went wrong with the sound card.
#[derive(Debug, Clone, Copy, PartialEq, Eq, Structural)]
pub enum AudioErrorKind {
    InvalidVolume,
    NotFound,
    StatePoisoned,
    TaskJoin,
    CommandIo,
    CommandFailed,
    UnexpectedOutput,
}

/// The status of an answer to a request that failed on the sound card.
pub fn map_audio_error(kind: AudioErrorKind) -> (out: u16)
    ensures
        out == (match kind {
            AudioErrorKind::InvalidVolume => 400u16,
            AudioErrorKind::NotFound => 404,
            _ => 500,
        }),
{
    match kind {
        AudioErrorKind::InvalidVolume => 400,
        AudioErrorKind::NotFound => 404,
        _ => 500,
    }
}

/// What went wrong with the wireless network.
#[derive(Debug, Clone, Copy, PartialEq, Eq, Structural)]
pub enum NetworkErrorKind {
    InvalidMode,
    InvalidAntenna,
    InvalidSsid,
    InvalidPsk,
    MissingStaConfig,
    StatePoisoned,
    TaskJoin,
    ModeFileWrite,
    CommandIo,
    CommandFailed,
}

/// The answer to a request that failed on the wireless network: the request is
/// to blame for a wrong value, the gateway for anything else.
pub fn map_network_error(kind: NetworkErrorKind, message: String) -> (out: ApiError)
    ensures
        out@ == refused(
            match kind {
                NetworkErrorKind::InvalidMode
                | NetworkErrorKind::InvalidAntenna
                | NetworkErrorKind::InvalidSsid
                | NetworkErrorKind::InvalidPsk
                | NetworkErrorKind::MissingStaConfig => 400,
                _ => 500,
            },
            message@,
        ),
{
    let status: u16 = match kind {
        NetworkErrorKind::InvalidMode => 400,
        NetworkErrorKind::InvalidAntenna => 400,
        NetworkErrorKind::InvalidSsid => 400,
        NetworkErrorKind::InvalidPsk => 400,
        NetworkErrorKind::MissingStaConfig => 400,
        _ => 500,
    };
    ApiError { status, message }
}

} // verus!
