//! Requests that the gateway hands on to the installer.
use crate::http::body::{detail_body, json_detail};
use crate::text::{cat2, cat3, cat4};
use vstd::prelude::*;

verus! {

/// What is asked of the installer.
#[derive(Debug)]
pub enum InstallerRequest {
    List,
    Version,
    Install,
    Icon(String),
    Upload(String),
    Start(String),
    Stop(String),
    Restart(String),
    Delete(String),
}

/// Where a request to the installer goes.
pub open spec fn installer_url(request: InstallerRequest) -> Seq<char> {
    let base = "http://127.0.0.1:8682/api/plugins"@;
    match request {
        InstallerRequest::List => base,
        InstallerRequest::Version => base + "/installer-version"@,
        InstallerRequest::Install => base + "/install"@,
        InstallerRequest::Icon(id) => base + "/"@ + id@ + "/icon"@,
        InstallerRequest::Upload(id) => base + "/"@ + id@ + "/upload"@,
        InstallerRequest::Start(id) => base + "/"@ + id@ + "/start"@,
        InstallerRequest::Stop(id) => base + "/"@ + id@ + "/stop"@,
        InstallerRequest::Restart(id) => base + "/"@ + id@ + "/restart"@,
        InstallerRequest::Delete(id) => base + "/"@ + id@,
    }
}

/// Where a request to the installer goes.
pub fn request_url(request: &InstallerRequest) -> (out: String)
    ensures
        out@ == installer_url(*request),
{
    let base = "http://127.0.0.1:8682/api/plugins";
    match request {
        InstallerRequest::List => base.to_owned(),
        InstallerRequest::Version => cat2(base, "/installer-version"),
        InstallerRequest::Install => cat2(base, "/install"),
        InstallerRequest::Icon(id) => cat4(base, "/", id.as_str(), "/icon"),
        InstallerRequest::Upload(id) => cat4(base, "/", id.as_str(), "/upload"),
        InstallerRequest::Start(id) => cat4(base, "/", id.as_str(), "/start"),
        InstallerRequest::Stop(id) => cat4(base, "/", id.as_str(), "/stop"),
        InstallerRequest::Restart(id) => cat4(base, "/", id.as_str(), "/restart"),
        InstallerRequest::Delete(id) => cat3(base, "/", id.as_str()),
    }
}

/// An answer: a status and a text.
#[derive(Debug)]
pub struct Answer {
    pub status: u16,
    pub body: String,
}

/// What an answer holds.
pub struct AnswerView {
    pub status: u16,
    pub body: Seq<char>,
}

impl View for Answer {
    type V = AnswerView;

    open spec fn view(&self) -> AnswerView {
        AnswerView { status: self.status, body: self.body@ }
    }
}

/// A status that answers can have: the one given where it has three digits, and
/// 500 otherwise.
pub open spec fn passed_status(status: u16) -> u16 {
    if 100 <= status < 1000 {
        status
    } else {
        500
    }
}

/// The answer to a request that was handed on: what the installer answered, or
/// that it could not be reached. A body that could not be read is empty.
pub fn proxy_answer(reply: Result<(u16, Option<String>), String>) -> (out: Answer)
    ensures
        out@ == (match reply {
            Ok((status, Some(body))) => AnswerView { status: passed_status(status), body: body@ },
            Ok((status, None)) => AnswerView { status: passed_status(status), body: Seq::empty() },
            Err(err) => AnswerView {
                status: 502,
                body: "{\"detail\":\"kaonic-installer unreachable: "@ + err@ + "\"}"@,
            },
        }),
{
    match reply {
        Ok((status, body)) => {
            let status: u16 = if 100 <= status && status < 1000 {
                status
            } else {
                500
            };
            let body = match body {
                Some(body) => body,
                None => String::new(),
            };
            Answer { status, body }
        },
        Err(err) => Answer {
            status: 502,
            body: cat3("{\"detail\":\"kaonic-installer unreachable: ", err.as_str(), "\"}"),
        },
    }
}

/// The answer to a request whose body could not be read.
pub fn unreadable_body(err: &str) -> (out: Answer)
    ensures
        out@ == (AnswerView { status: 400, body: "failed to read body: "@ + err@ }),
{
    Answer { status: 400, body: cat2("failed to read body: ", err) }
}

/// An answer with bytes of some type.
#[derive(Debug)]
pub struct BytesAnswer {
    pub status: u16,
    pub content_type: String,
    pub body: Vec<u8>,
}

/// What the installer answered to a request for bytes.
#[derive(Debug)]
pub enum BytesReply {
    /// It could not be reached.
    Unreachable(String),
    /// Its answer could not be read to the end.
    Broken(String),
    /// A status, the type of the body where it is given as text, and the body.
    Full(u16, Option<String>, Vec<u8>),
}

/// The answer to a request for bytes that was handed on.
pub fn proxy_bytes(reply: BytesReply) -> (out: Result<BytesAnswer, Answer>)
    ensures
        match reply {
            BytesReply::Unreachable(err) => out matches Err(answer) && answer@ == (AnswerView {
                status: 502,
                body: detail_body("kaonic-installer unreachable: "@ + err@),
            }),
            BytesReply::Broken(err) => out matches Err(answer) && answer@ == (AnswerView {
                status: 502,
                body: detail_body("read plugin icon body: "@ + err@),
            }),
            BytesReply::Full(status, content_type, body) => {
                &&& out matches Ok(answer) && answer.status == passed_status(status) && answer.body
                    == body && answer.content_type@ == (match content_type {
                    Some(text) => text@,
                    None => "application/octet-stream"@,
                })
            },
        },
{
    match reply {
        BytesReply::Unreachable(err) => {
            let detail = cat2("kaonic-installer unreachable: ", err.as_str());
            Err(Answer { status: 502, body: json_detail(detail.as_str()) })
        },
        BytesReply::Broken(err) => {
            let detail = cat2("read plugin icon body: ", err.as_str());
            Err(Answer { status: 502, body: json_detail(detail.as_str()) })
        },
        BytesReply::Full(status, content_type, body) => {
            let status: u16 = if 100 <= status && status < 1000 {
                status
            } else {
                500
            };
            let content_type = match content_type {
                Some(text) => text,
                None => "application/octet-stream".to_owned(),
            };
            Ok(BytesAnswer { status, content_type, body })
        },
    }
}

// ── Laws ─────────────────────────────────────────────────────────────────────

/// Every request goes to the installer on this machine, and what concerns a plugin
/// names it and what is to be done.
pub proof fn requests_go_to_the_installer(request: InstallerRequest)
    ensures
        "http://127.0.0.1:8682/api/plugins"@.is_prefix_of(installer_url(request)),
        request matches InstallerRequest::Icon(id) ==> installer_url(request)
            == "http://127.0.0.1:8682/api/plugins"@ + "/"@ + id@ + "/icon"@,
        request matches InstallerRequest::Upload(id) ==> installer_url(request)
            == "http://127.0.0.1:8682/api/plugins"@ + "/"@ + id@ + "/upload"@,
        request matches InstallerRequest::Start(id) ==> installer_url(request)
            == "http://127.0.0.1:8682/api/plugins"@ + "/"@ + id@ + "/start"@,
        request matches InstallerRequest::Stop(id) ==> installer_url(request)
            == "http://127.0.0.1:8682/api/plugins"@ + "/"@ + id@ + "/stop"@,
        request matches InstallerRequest::Restart(id) ==> installer_url(request)
            == "http://127.0.0.1:8682/api/plugins"@ + "/"@ + id@ + "/restart"@,
        request matches InstallerRequest::Delete(id) ==> installer_url(request)
            == "http://127.0.0.1:8682/api/plugins"@ + "/"@ + id@,
        request is Install ==> installer_url(request) == "http://127.0.0.1:8682/api/plugins"@
            + "/install"@,
        request is Version ==> installer_url(request) == "http://127.0.0.1:8682/api/plugins"@
            + "/installer-version"@,
{
    let base = "http://127.0.0.1:8682/api/plugins"@;
    assert(installer_url(request).take(base.len() as int) =~= base);
}

/// The status of an answer is passed on, but for one that is none.
pub proof fn statuses_are_passed_on(status: u16)
    ensures
        100 <= status <= 999 ==> passed_status(status) == status,
        status < 100 || status > 999 ==> passed_status(status) == 500,
{
}

} // verus!
