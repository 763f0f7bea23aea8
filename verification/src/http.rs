//! Types used when performing HTTP requests.
use vstd::prelude::*;

verus! {

/// An HTTP request.
#[derive(Clone, Debug)]
pub struct Request {
    /// The method used for the HTTP request.
    pub method: Method,
    /// The URL this request is intended to.
    pub url: String,
    /// The headers that should be included in the request.
    pub headers: Vec<(String, Vec<u8>)>,
    /// The body of the request.
    pub body: Vec<u8>,
}

/// The method used in an HTTP request.
#[derive(Clone, Copy, Debug, PartialEq, Eq, Structural)]
pub enum Method {
    /// A GET request.
    Get,
    /// A POST request.
    Post,
    /// A PUT request.
    Put,
    /// A DELETE request.
    Delete,
    /// A HEAD request.
    Head,
    /// An OPTIONS request.
    Options,
    /// A CONNECT request.
    Connect,
    /// A PATCH request.
    Patch,
    /// A TRACE request.
    Trace,
}

/// A response for an HTTP request.
#[derive(Clone, Debug, PartialEq, Eq, Hash)]
pub struct Response {
    /// The status code of the HTTP response.
    pub status: u16,
    /// The headers included in the response.
    pub headers: Vec<(String, Vec<u8>)>,
    /// The body of the response.
    pub body: Vec<u8>,
}

} // verus!
