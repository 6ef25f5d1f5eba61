//! The messages on both sides of the translation.
//!
//! `Request` and `Response` are the engine-agnostic pair that callers work
//! with. `NativeRequest` and `NativeResponse` hold what the engine is given
//! and what it hands back: plain values, and the engine's own header map.

use crate::headers::{fields_of, Fields, Header};
use crate::native::header_fields;
use hyper::header::{HeaderMap, HeaderValue};
use vstd::prelude::*;

verus! {

/// The version of the HTTP protocol that a message speaks.
#[derive(Clone, Copy, Debug, PartialEq, Eq, Structural)]
pub enum Version {
    Http0_9,
    Http1_0,
    Http1_1,
    Http2_0,
    Http3_0,
}

/// An engine-agnostic request, with its body read to the end.
#[derive(Clone, Debug, PartialEq, Eq)]
pub struct Request {
    pub method: String,
    pub url: String,
    /// The version that the caller asks for, if any.
    pub version: Option<Version>,
    pub headers: Vec<Header>,
    pub body: Vec<u8>,
}

/// What a `Request` holds.
pub struct RequestView {
    pub method: Seq<char>,
    pub url: Seq<char>,
    pub version: Option<Version>,
    pub headers: Fields,
    pub body: Seq<u8>,
}

impl View for Request {
    type V = RequestView;

    open spec fn view(&self) -> RequestView {
        RequestView {
            method: self.method@,
            url: self.url@,
            version: self.version,
            headers: fields_of(self.headers@),
            body: self.body@,
        }
    }
}

/// A request as the engine takes it.
#[derive(Debug)]
pub struct NativeRequest {
    pub method: String,
    /// The target, in a spelling that the engine reads as a URI.
    pub uri: String,
    pub version: Version,
    pub headers: HeaderMap<HeaderValue>,
    pub body: Vec<u8>,
}

/// What a `NativeRequest` holds.
pub struct NativeRequestView {
    pub method: Seq<char>,
    pub uri: Seq<char>,
    pub version: Version,
    pub headers: Fields,
    pub body: Seq<u8>,
}

impl View for NativeRequest {
    type V = NativeRequestView;

    open spec fn view(&self) -> NativeRequestView {
        NativeRequestView {
            method: self.method@,
            uri: self.uri@,
            version: self.version,
            headers: header_fields(self.headers),
            body: self.body@,
        }
    }
}

/// How the first read of a response body ended.
#[derive(Clone, Debug, PartialEq, Eq)]
pub enum BodyRead {
    /// The body had no data.
    End,
    /// The body's first chunk.
    Chunk(Vec<u8>),
    /// The read failed.
    Failed,
}

/// What a `BodyRead` holds.
pub enum BodyReadView {
    End,
    Chunk(Seq<u8>),
    Failed,
}

impl View for BodyRead {
    type V = BodyReadView;

    open spec fn view(&self) -> BodyReadView {
        match self {
            BodyRead::End => BodyReadView::End,
            BodyRead::Chunk(bytes) => BodyReadView::Chunk(bytes@),
            BodyRead::Failed => BodyReadView::Failed,
        }
    }
}

/// A response as the engine hands it back, after one read of its body.
#[derive(Debug)]
pub struct NativeResponse {
    pub status: u16,
    pub version: Version,
    pub headers: HeaderMap<HeaderValue>,
    pub body: BodyRead,
}

/// What a `NativeResponse` holds.
pub struct NativeResponseView {
    pub status: u16,
    pub version: Version,
    pub headers: Fields,
    pub body: BodyReadView,
}

impl View for NativeResponse {
    type V = NativeResponseView;

    open spec fn view(&self) -> NativeResponseView {
        NativeResponseView {
            status: self.status,
            version: self.version,
            headers: header_fields(self.headers),
            body: self.body@,
        }
    }
}

/// An engine-agnostic response.
#[derive(Clone, Debug, PartialEq, Eq)]
pub struct Response {
    pub status: u16,
    pub version: Option<Version>,
    pub headers: Vec<Header>,
    pub body: Vec<u8>,
}

/// What a `Response` holds.
pub struct ResponseView {
    pub status: u16,
    pub version: Option<Version>,
    pub headers: Fields,
    pub body: Seq<u8>,
}

impl View for Response {
    type V = ResponseView;

    open spec fn view(&self) -> ResponseView {
        ResponseView {
            status: self.status,
            version: self.version,
            headers: fields_of(self.headers@),
            body: self.body@,
        }
    }
}

} // verus!
