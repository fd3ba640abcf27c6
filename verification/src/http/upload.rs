//! How the installer answers uploads and failures.
use crate::http::body::{detail_body, json_detail};
use crate::http::proxy::{Answer, AnswerView};
use crate::plugins::error::{failed, PluginError};
use crate::text::cat2;
use vstd::prelude::*;

verus! {

/// The largest upload that is accepted, in bytes.
pub const MAX_UPLOAD_BYTES: usize = 268435456;

/// The answer that says one thing.
pub open spec fn says(status: u16, detail: Seq<char>) -> AnswerView {
    AnswerView { status, body: detail_body(detail) }
}

/// What comes first in an upload.
#[derive(Debug)]
pub enum UploadEvent {
    /// A field, with its bytes.
    Field(Vec<u8>),
    /// A field that cannot be read.
    Unreadable(String),
    /// Nothing.
    End,
    /// Something that is no field.
    Malformed(String),
}

/// The bytes of an upload: those of its first field.
pub fn read_upload_bytes(event: UploadEvent) -> (out: Result<Vec<u8>, Answer>)
    ensures
        match event {
            UploadEvent::Field(bytes) => out == Ok::<Vec<u8>, Answer>(bytes),
            UploadEvent::Unreadable(err) => out matches Err(answer) && answer@ == says(
                400,
                "read error: "@ + err@,
            ),
            UploadEvent::End => out matches Err(answer) && answer@ == says(
                400,
                "no file uploaded"@,
            ),
            UploadEvent::Malformed(err) => out matches Err(answer) && answer@ == says(
                400,
                "multipart error: "@ + err@,
            ),
        },
{
    match event {
        UploadEvent::Field(bytes) => Ok(bytes),
        UploadEvent::Unreadable(err) => {
            let detail = cat2("read error: ", err.as_str());
            Err(Answer { status: 400, body: json_detail(detail.as_str()) })
        },
        UploadEvent::End => Err(Answer { status: 400, body: json_detail("no file uploaded") }),
        UploadEvent::Malformed(err) => {
            let detail = cat2("multipart error: ", err.as_str());
            Err(Answer { status: 400, body: json_detail(detail.as_str()) })
        },
    }
}

/// The answer to a request about plugins that was refused.
pub fn plugin_error_response(err: &PluginError) -> (out: Answer)
    ensures
        out@ == says(err.status, err.detail@),
{
    Answer { status: err.status, body: json_detail(err.detail.as_str()) }
}

/// The answer to a request about plugins whose task broke down.
pub fn plugin_task_panic(err: &str) -> (out: Answer)
    ensures
        out@ == says(500, "plugin task panic: "@ + err@),
{
    let detail = cat2("plugin task panic: ", err);
    Answer { status: 500, body: json_detail(detail.as_str()) }
}

/// Why the states of services could not be read anew: their task broke down.
pub fn cache_task_panic(err: &str) -> (out: PluginError)
    ensures
        out@ == failed("plugin cache task panic: "@ + err@),
{
    PluginError::internal(cat2("plugin cache task panic: ", err))
}

} // verus!
