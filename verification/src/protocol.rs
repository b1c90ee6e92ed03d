//! The messages that a proxy and a bridge exchange, one JSON document per line.
use vstd::prelude::*;

verus! {

/// The version of the messages below. Both sides refuse any other.
pub const PROTOCOL_VERSION: u32 = 1;

/// A request to upload the local file at `path`.
#[derive(Debug, PartialEq, Eq)]
pub struct UploadRequest {
    pub version: u32,
    pub path: String,
}

/// The reply to an upload request.
#[derive(Debug, PartialEq, Eq)]
pub struct UploadResponse {
    pub version: u32,
    pub remote_relative_path: Option<String>,
    pub error: Option<String>,
}

impl UploadResponse {
    /// The file now stands at `remote_relative_path`, below the remote home directory.
    pub fn success(remote_relative_path: String) -> (response: Self)
        ensures
            response.version == PROTOCOL_VERSION,
            response.remote_relative_path == Some(remote_relative_path),
            response.error is None,
    {
        UploadResponse {
            version: PROTOCOL_VERSION,
            remote_relative_path: Some(remote_relative_path),
            error: None,
        }
    }

    /// The upload failed for the reason that `error` gives.
    pub fn failure(error: String) -> (response: Self)
        ensures
            response.version == PROTOCOL_VERSION,
            response.remote_relative_path is None,
            response.error == Some(error),
    {
        UploadResponse { version: PROTOCOL_VERSION, remote_relative_path: None, error: Some(error) }
    }
}

/// Everything that a bridge can be asked to do.
#[derive(Debug, PartialEq, Eq)]
pub enum BridgeRequest {
    /// Upload the local file at `path`.
    UploadPath { version: u32, path: String },
    /// Upload the image on the local clipboard.
    ClipboardImage { version: u32 },
}

/// The protocol version that a request names.
pub open spec fn version_of(request: BridgeRequest) -> u32 {
    match request {
        BridgeRequest::UploadPath { version, .. } => version,
        BridgeRequest::ClipboardImage { version } => version,
    }
}

impl BridgeRequest {
    /// The protocol version that the request names.
    pub fn version(&self) -> (version: u32)
        ensures
            version == version_of(*self),
    {
        match self {
            BridgeRequest::UploadPath { version, .. } => *version,
            BridgeRequest::ClipboardImage { version } => *version,
        }
    }
}

/// The reply of a bridge.
#[derive(Debug, PartialEq, Eq)]
pub struct BridgeResponse {
    pub version: u32,
    pub remote_relative_path: Option<String>,
    pub no_clipboard_image: bool,
    pub error: Option<String>,
}

impl BridgeResponse {
    /// The file now stands at `remote_relative_path`, below the remote home directory.
    pub fn success(remote_relative_path: String) -> (response: Self)
        ensures
            response.version == PROTOCOL_VERSION,
            response.remote_relative_path == Some(remote_relative_path),
            !response.no_clipboard_image,
            response.error is None,
    {
        BridgeResponse {
            version: PROTOCOL_VERSION,
            remote_relative_path: Some(remote_relative_path),
            no_clipboard_image: false,
            error: None,
        }
    }

    /// The request failed for the reason that `error` gives.
    pub fn failure(error: String) -> (response: Self)
        ensures
            response.version == PROTOCOL_VERSION,
            response.remote_relative_path is None,
            !response.no_clipboard_image,
            response.error == Some(error),
    {
        BridgeResponse {
            version: PROTOCOL_VERSION,
            remote_relative_path: None,
            no_clipboard_image: false,
            error: Some(error),
        }
    }

    /// The clipboard holds no image, which is no failure.
    pub fn no_clipboard_image() -> (response: Self)
        ensures
            response.version == PROTOCOL_VERSION,
            response.remote_relative_path is None,
            response.no_clipboard_image,
            response.error is None,
    {
        BridgeResponse {
            version: PROTOCOL_VERSION,
            remote_relative_path: None,
            no_clipboard_image: true,
            error: None,
        }
    }
}

} // verus!
