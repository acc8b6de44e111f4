//! HTTP/1.1 framing, payload policy and stream reassembly.
pub mod parser;
pub mod policy;
pub mod stream;

pub use parser::{HttpParseResult, HttpParser, MAX_HEADER_BYTES, MAX_MESSAGE_BYTES};
pub use policy::{capture_body, payload_decision, HttpBody, PayloadDecision, MAX_TEXT_PREVIEW_BYTES};
pub use stream::{HttpMessage, HttpTracker, StreamReassembler, MAX_STREAM_BUFFER};

use vstd::prelude::*;
use self::policy::{BodyView, headers_view};

verus! {

#[derive(Debug, Clone, Copy, PartialEq, Eq, Structural)]
pub enum HttpVersion {
    Http11,
}

impl HttpVersion {
    pub fn as_str(self) -> (r: &'static str)
        ensures
            r@ == "HTTP/1.1"@,
    {
        match self {
            HttpVersion::Http11 => "HTTP/1.1",
        }
    }
}

#[derive(Debug, Clone, PartialEq, Eq)]
pub struct HttpRequest {
    pub version: HttpVersion,
    pub method: String,
    pub host: Option<String>,
    pub path: String,
    pub headers: Vec<(String, String)>,
    pub content_length: Option<usize>,
    pub body: HttpBody,
}

/// A request as character sequences.
pub struct RequestView {
    pub method: Seq<char>,
    pub host: Option<Seq<char>>,
    pub path: Seq<char>,
    pub headers: Seq<(Seq<char>, Seq<char>)>,
    pub content_length: Option<usize>,
    pub body: BodyView,
}

impl View for HttpRequest {
    type V = RequestView;

    open spec fn view(&self) -> RequestView {
        RequestView {
            method: self.method@,
            host: policy::opt_view(self.host),
            path: self.path@,
            headers: headers_view(self.headers@),
            content_length: self.content_length,
            body: self.body@,
        }
    }
}

#[derive(Debug, Clone, PartialEq, Eq)]
pub struct HttpResponse {
    pub version: HttpVersion,
    pub status: u16,
    pub reason: String,
    pub headers: Vec<(String, String)>,
    pub content_length: Option<usize>,
    pub body: HttpBody,
}

/// A response as character sequences.
pub struct ResponseView {
    pub status: u16,
    pub reason: Seq<char>,
    pub headers: Seq<(Seq<char>, Seq<char>)>,
    pub content_length: Option<usize>,
    pub body: BodyView,
}

impl View for HttpResponse {
    type V = ResponseView;

    open spec fn view(&self) -> ResponseView {
        ResponseView {
            status: self.status,
            reason: self.reason@,
            headers: headers_view(self.headers@),
            content_length: self.content_length,
            body: self.body@,
        }
    }
}

} // verus!
