use vstd::prelude::*;

verus! {

/// The broad class of a failure.
#[derive(Clone, Copy, Debug, PartialEq, Eq, Structural)]
pub enum Kind {
    /// An invalid configuration value, reported when the client is built.
    Builder,
    /// A malformed target URL.
    Url,
    /// A failure while exchanging the request with the transport.
    Request,
    /// A failure while reading the response body.
    Body,
    /// A body that could not be decoded into the requested shape.
    Decode,
    /// An HTTP error status turned into an error on request.
    Status,
}

/// A failure of the facade, carried as a plain value.
#[derive(Clone, Debug)]
pub struct Error {
    pub kind: Kind,
    /// The URL the failure concerns, where one is known.
    pub url: Option<String>,
    /// The HTTP status code, for `Kind::Status`.
    pub status: Option<u16>,
    /// Whether the request failed because its time limit elapsed.
    pub timed_out: bool,
}

impl Error {
    pub fn builder() -> (r: Error)
        ensures
            r.kind == Kind::Builder,
            r.url is None,
            r.status is None,
            !r.timed_out,
    {
        Error { kind: Kind::Builder, url: None, status: None, timed_out: false }
    }

    pub fn url_error() -> (r: Error)
        ensures
            r.kind == Kind::Url,
            r.url is None,
            r.status is None,
            !r.timed_out,
    {
        Error { kind: Kind::Url, url: None, status: None, timed_out: false }
    }

    /// A transport failure; `timed_out` marks the distinguished timeout cause.
    pub fn request(timed_out: bool) -> (r: Error)
        ensures
            r.kind == Kind::Request,
            r.url is None,
            r.status is None,
            r.timed_out == timed_out,
    {
        Error { kind: Kind::Request, url: None, status: None, timed_out }
    }

    pub fn body() -> (r: Error)
        ensures
            r.kind == Kind::Body,
            r.url is None,
            r.status is None,
            !r.timed_out,
    {
        Error { kind: Kind::Body, url: None, status: None, timed_out: false }
    }

    pub fn decode() -> (r: Error)
        ensures
            r.kind == Kind::Decode,
            r.url is None,
            r.status is None,
            !r.timed_out,
    {
        Error { kind: Kind::Decode, url: None, status: None, timed_out: false }
    }

    pub fn status_code(url: String, status: u16) -> (r: Error)
        ensures
            r.kind == Kind::Status,
            r.url == Some(url),
            r.status == Some(status),
            !r.timed_out,
    {
        Error { kind: Kind::Status, url: Some(url), status: Some(status), timed_out: false }
    }

    pub fn is_builder(&self) -> (r: bool)
        ensures
            r == (self.kind == Kind::Builder),
    {
        self.kind == Kind::Builder
    }

    pub fn is_request(&self) -> (r: bool)
        ensures
            r == (self.kind == Kind::Request),
    {
        self.kind == Kind::Request
    }

    pub fn is_body(&self) -> (r: bool)
        ensures
            r == (self.kind == Kind::Body),
    {
        self.kind == Kind::Body
    }

    pub fn is_decode(&self) -> (r: bool)
        ensures
            r == (self.kind == Kind::Decode),
    {
        self.kind == Kind::Decode
    }

    pub fn is_status(&self) -> (r: bool)
        ensures
            r == (self.kind == Kind::Status),
    {
        self.kind == Kind::Status
    }

    pub fn is_url(&self) -> (r: bool)
        ensures
            r == (self.kind == Kind::Url),
    {
        self.kind == Kind::Url
    }

    pub fn is_timeout(&self) -> (r: bool)
        ensures
            r == self.timed_out,
    {
        self.timed_out
    }

    pub fn status(&self) -> (r: Option<u16>)
        ensures
            r == self.status,
    {
        self.status
    }
}

} // verus!
