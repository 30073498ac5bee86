//! Request and response records of the peer server's HTTP surface, and the
//! services' plain state.

use vstd::prelude::*;
use crate::text::{chars_of, push_str_chars, string_of};

verus! {

/// Stores bash events as one file each under `bash_events_dir`.
#[derive(Debug, Clone)]
pub struct BashEventService {
    pub bash_events_dir: String,
}

/// Reads and writes files under `workspace_dir`.
#[derive(Debug, Clone)]
pub struct FileService {
    pub workspace_dir: String,
}

/// `POST /file/read`.
#[derive(Debug, Clone)]
pub struct FileReadRequest {
    pub path: String,
}

/// `POST /file/write`.
#[derive(Debug, Clone)]
pub struct FileWriteRequest {
    pub path: String,
    pub content: String,
}

/// The answer to a file request.
#[derive(Debug, Clone)]
pub struct FileResponse {
    pub path: String,
    pub content: Option<String>,
    pub success: bool,
    pub error: Option<String>,
}

impl FileResponse {
    /// A successful read of `path` that found `content`.
    pub fn read_ok(path: String, content: String) -> (r: Self)
        ensures
            r.path == path,
            r.content == Some(content),
            r.success,
            r.error is None,
    {
        FileResponse { path, content: Some(content), success: true, error: None }
    }

    /// A successful write of `path`.
    pub fn write_ok(path: String) -> (r: Self)
        ensures
            r.path == path,
            r.content is None,
            r.success,
            r.error is None,
    {
        FileResponse { path, content: None, success: true, error: None }
    }

    /// A failed request on `path`, for the reason `error`.
    pub fn failed(path: String, error: String) -> (r: Self)
        ensures
            r.path == path,
            r.content is None,
            !r.success,
            r.error == Some(error),
    {
        FileResponse { path, content: None, success: false, error: Some(error) }
    }

    /// What a remote read returns to the agent: the contents (empty if
    /// none came), or the server's error (`Unknown error` if none came).
    pub fn read_result(self) -> (r: Result<String, String>)
        ensures
            self.success ==> (r matches Ok(s) && s@ == match self.content { Some(c) => c@, None => Seq::empty() }),
            !self.success ==> (r matches Err(e) && e@ == match self.error { Some(m) => m@, None => "Unknown error"@ }),
    {
        if self.success {
            match self.content {
                Some(c) => Ok(c),
                None => Ok(String::new()),
            }
        } else {
            match self.error {
                Some(m) => Err(m),
                None => Err(string_of(&chars_of("Unknown error"))),
            }
        }
    }

    /// What a remote write of `path` returns to the agent.
    pub fn write_result(self, path: &str) -> (r: Result<String, String>)
        ensures
            self.success ==> (r matches Ok(s) && s@ == "File written to "@ + path@),
            !self.success ==> (r matches Err(e) && e@ == match self.error { Some(m) => m@, None => "Unknown error"@ }),
    {
        if self.success {
            let mut m: Vec<char> = Vec::new();
            push_str_chars(&mut m, "File written to ");
            push_str_chars(&mut m, path);
            Ok(string_of(&m))
        } else {
            match self.error {
                Some(m) => Err(m),
                None => Err(string_of(&chars_of("Unknown error"))),
            }
        }
    }
}

/// `POST /api/conversations`.
#[derive(Debug, Clone)]
pub struct InitConversationRequest {
    pub system_message: Option<String>,
}

/// A created conversation.
#[derive(Debug, Clone)]
pub struct ConversationResponse {
    pub id: String,
    pub status: String,
}

/// `POST /api/conversations/<id>/message`.
#[derive(Debug, Clone)]
pub struct MessageRequest {
    pub content: String,
}

/// The agent's reply to a message.
#[derive(Debug, Clone)]
pub struct MessageResponse {
    pub response: String,
}

/// Bytes a process read and wrote.
#[derive(Debug, Clone, Copy)]
pub struct IoStats {
    pub read_bytes: u64,
    pub write_bytes: u64,
}

/// How to reach a language model.
#[derive(Debug, Clone)]
pub struct LLMConfig {
    pub model: String,
    pub api_key: Option<String>,
    pub reasoning_effort: Option<String>,
}

} // verus!
