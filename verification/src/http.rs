//! HTTP requests and responses as plain values, and the configuration of the
//! file server.
use vstd::prelude::*;

verus! {

/// A request, by method, with its target and body.
#[derive(Clone, Debug)]
pub enum HTTPRequest {
    Get { target: String, msg: Vec<u8> },
    Head { target: String, msg: Vec<u8> },
    Post { target: String, msg: Vec<u8> },
    Put { target: String, msg: Vec<u8> },
    Delete { target: String, msg: Vec<u8> },
    Connect { target: String, msg: Vec<u8> },
    Options { target: String, msg: Vec<u8> },
    Trace { target: String, msg: Vec<u8> },
    Patch { target: String, msg: Vec<u8> },
}

/// The kind of content of a response.
#[derive(PartialEq, Eq, Structural, Clone, Copy, Debug)]
pub enum HttpResponseType {
    Text,
    Html,
    Png,
    Jpeg,
    Json,
    Js,
}

/// A response: its kind of content and the content.
#[derive(Clone, Debug)]
pub struct HTTPResponse {
    pub response_type: HttpResponseType,
    pub data: Vec<u8>,
}

/// How the file server treats requests.
pub struct HttpConfig {
    pub handle_gets_locally: bool,
    pub serve_dir: String,
}

/// Builds an [`HttpConfig`].
pub struct HttpConfigBuilder {
    handle_get_requests_locally: bool,
    serve_dir: String,
}

impl HttpConfigBuilder {
    /// Whether GET requests are answered from the served directory.
    pub closed spec fn gets_locally(&self) -> bool {
        self.handle_get_requests_locally
    }

    /// The directory that is served.
    pub closed spec fn dir(&self) -> Seq<char> {
        self.serve_dir@
    }

    /// The configuration built so far.
    pub fn build(self) -> (r: HttpConfig)
        ensures
            r.handle_gets_locally == self.gets_locally(),
            r.serve_dir@ == self.dir(),
    {
        HttpConfig { serve_dir: self.serve_dir, handle_gets_locally: self.handle_get_requests_locally }
    }

    /// Answers GET requests from the served directory.
    pub fn forward_gets(self) -> (r: Self)
        ensures
            r.gets_locally(),
            r.dir() == self.dir(),
    {
        let mut s = self;
        s.handle_get_requests_locally = true;
        s
    }

    /// Serves `dir`.
    pub fn serve_dir(self, dir: String) -> (r: Self)
        ensures
            r.gets_locally() == self.gets_locally(),
            r.dir() == dir@,
    {
        let mut s = self;
        s.serve_dir = dir;
        s
    }
}

impl HttpConfig {
    /// A builder that answers GET requests from the current directory.
    pub fn new() -> (r: HttpConfigBuilder)
        ensures
            r.gets_locally(),
            r.dir() == seq!['.'],
    {
        let dot = ".";
        proof {
            reveal_strlit(".");
        }
        HttpConfigBuilder { handle_get_requests_locally: true, serve_dir: dot.to_owned() }
    }
}

} // verus!
