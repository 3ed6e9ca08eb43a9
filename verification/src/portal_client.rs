//! The client side of the portal protocol: where the client finds the
//! portal's socket, the requests it sends, and how it reads the answers.

use vstd::prelude::*;
use crate::portal::{socket_path_for, PortalRequest, PortalResponse, RequestMethod, ResponseResult};

verus! {

/// A client of the portal at a socket path.
#[derive(Debug, Clone)]
pub struct PortalClient {
    pub socket_path: String,
}

/// An image read from the host clipboard.
#[derive(Debug, Clone)]
pub struct ClipboardImage {
    pub mime: String,
    pub bytes: Vec<u8>,
}

/// Why a request did not give the expected result.
#[derive(Debug, Clone)]
pub enum ClientError {
    /// The portal refused or failed the request; the text says why.
    Refused(String),
    /// The portal answered with a result of another kind.
    Unexpected(ResponseResult),
}

/// The text of the error a failed response carries: `code: message`, or
/// `unknown error` when it carries none.
pub open spec fn failure_text(resp: PortalResponse) -> Seq<char> {
    match resp.error {
        Some(e) => e.code@ + ": "@ + e.message@,
        None => "unknown error"@,
    }
}

impl PortalClient {
    /// A client of the portal at `socket_path`.
    pub fn with_socket(socket_path: &str) -> (c: PortalClient)
        ensures
            c.socket_path@ == socket_path@,
    {
        PortalClient { socket_path: socket_path.to_string() }
    }

    /// The client for the socket found in this order: the
    /// `AGENT_PORTAL_SOCKET` environment variable, the configuration's
    /// portal socket path, the default socket path of the current user.
    pub fn from_sources(env_socket: Option<String>, config_socket: Option<String>) -> (c: PortalClient)
        ensures
            match env_socket {
                Some(s) => c.socket_path@ == s@,
                None => match config_socket {
                    Some(s) => c.socket_path@ == s@,
                    None => exists|uid: u32| c.socket_path@ == socket_path_for(uid as nat),
                },
            },
    {
        match env_socket {
            Some(s) => PortalClient { socket_path: s },
            None => match config_socket {
                Some(s) => PortalClient { socket_path: s },
                None => PortalClient { socket_path: crate::portal::default_socket_path() },
            },
        }
    }

    /// The request (protocol version 1) for `method`, numbered `id`.
    pub fn make_request(&self, id: u64, method: RequestMethod) -> (r: PortalRequest)
        ensures
            r.version == 1,
            r.id == id,
            r.method == method,
    {
        PortalRequest { version: 1, id, method }
    }

    /// The result of a response: its result when it succeeded; otherwise
    /// the error it carries, as `code: message`.
    pub fn check_response(&self, resp: PortalResponse) -> (r: Result<ResponseResult, ClientError>)
        ensures
            match r {
                Ok(res) => resp.ok && resp.result == Some(res),
                Err(ClientError::Refused(t)) => if resp.ok {
                    resp.result is None && t@ == "missing response result"@
                } else {
                    t@ == failure_text(resp)
                },
                Err(ClientError::Unexpected(_)) => false,
            },
    {
        if !resp.ok {
            let t = match resp.error {
                Some(e) => {
                    let mut t = e.code;
                    t.append(": ");
                    t.append(e.message.as_str());
                    t
                },
                None => String::from_str("unknown error"),
            };
            return Err(ClientError::Refused(t));
        }
        match resp.result {
            Some(res) => Ok(res),
            None => Err(ClientError::Refused(String::from_str("missing response result"))),
        }
    }

    /// The request to read an image from the host clipboard.
    pub fn clipboard_request(&self, id: u64, reason: Option<String>) -> (r: PortalRequest)
        ensures
            r.version == 1,
            r.id == id,
            r.method == (RequestMethod::ClipboardReadImage { reason }),
    {
        self.make_request(id, RequestMethod::ClipboardReadImage { reason })
    }

    /// The clipboard image a response to `clipboard_request` carries.
    pub fn clipboard_read_image(&self, resp: PortalResponse) -> (r: Result<ClipboardImage, ClientError>)
        ensures
            match r {
                Ok(img) => resp.ok && (resp.result matches Some(ResponseResult::ClipboardImage { mime, bytes })
                    && img.mime == mime && img.bytes == bytes),
                Err(ClientError::Refused(t)) => if resp.ok {
                    resp.result is None && t@ == "missing response result"@
                } else {
                    t@ == failure_text(resp)
                },
                Err(ClientError::Unexpected(other)) => resp.ok && resp.result == Some(other) && !(
                other is ClipboardImage),
            },
    {
        match self.check_response(resp) {
            Ok(ResponseResult::ClipboardImage { mime, bytes }) => Ok(ClipboardImage { mime, bytes }),
            Ok(other) => Err(ClientError::Unexpected(other)),
            Err(e) => Err(e),
        }
    }
}

/// A wrapper asked for one MIME type and the clipboard holds another.
pub fn check_requested_mime(requested: Option<&str>, got: &str) -> (r: Result<(), String>)
    ensures
        match requested {
            Some(m) => if m@ == got@ {
                r is Ok
            } else {
                r matches Err(e) && e@ == "requested mime "@ + m@ + " not currently available (got "@ + got@
                    + ")"@
            },
            None => r is Ok,
        },
{
    match requested {
        Some(m) => {
            if crate::text::str_eq(m, got) {
                Ok(())
            } else {
                let mut e = String::from_str("requested mime ");
                e.append(m);
                e.append(" not currently available (got ");
                e.append(got);
                e.append(")");
                Err(e)
            }
        },
        None => Ok(()),
    }
}

} // verus!
