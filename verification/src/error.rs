//! The errors of a translation.

use vstd::prelude::*;

verus! {

/// Why a message could not be translated.
#[derive(Clone, Copy, Debug, PartialEq, Eq, Structural)]
pub enum Error {
    /// The request's URL is not a URI that the engine can read.
    InvalidUri,
    /// The URL's scheme is neither `http` nor `https`.
    InvalidScheme,
    /// A header name that the receiving representation refuses.
    HeaderName,
    /// A header value that the receiving representation refuses.
    HeaderValue,
    /// The engine's header map took no further header.
    HeaderCapacity,
    /// The first read of the response body failed.
    ResponseBody,
}

impl Error {
    /// The HTTP status that stands for this error.
    pub open spec fn spec_status(self) -> u16 {
        match self {
            Error::InvalidUri => 400,
            Error::InvalidScheme => 400,
            Error::HeaderName => 500,
            Error::HeaderValue => 500,
            Error::HeaderCapacity => 500,
            Error::ResponseBody => 502,
        }
    }

    /// True of the errors that the caller's request is to blame for.
    pub open spec fn spec_is_client_error(self) -> bool {
        400 <= self.spec_status() < 500
    }

    /// What went wrong, in words.
    pub open spec fn spec_message(self) -> Seq<char> {
        match self {
            Error::InvalidUri => "invalid URI"@,
            Error::InvalidScheme => "invalid scheme"@,
            Error::HeaderName => "invalid header name"@,
            Error::HeaderValue => "invalid header value"@,
            Error::HeaderCapacity => "too many headers"@,
            Error::ResponseBody => "unable to read HTTP response body"@,
        }
    }

    /// The HTTP status that stands for this error: 400 for a URL that the
    /// engine cannot dispatch, 502 for a response body that could not be
    /// read, 500 for a header that one side accepts and the other refuses.
    #[verifier::when_used_as_spec(spec_status)]
    pub fn status(self) -> (code: u16)
        ensures
            code == self.spec_status(),
    {
        match self {
            Error::InvalidUri => 400,
            Error::InvalidScheme => 400,
            Error::HeaderName => 500,
            Error::HeaderValue => 500,
            Error::HeaderCapacity => 500,
            Error::ResponseBody => 502,
        }
    }

    /// What went wrong, in words.
    pub fn message(self) -> (text: &'static str)
        ensures
            text@ == self.spec_message(),
    {
        match self {
            Error::InvalidUri => "invalid URI",
            Error::InvalidScheme => "invalid scheme",
            Error::HeaderName => "invalid header name",
            Error::HeaderValue => "invalid header value",
            Error::HeaderCapacity => "too many headers",
            Error::ResponseBody => "unable to read HTTP response body",
        }
    }

    /// Whether the status lies in the 4xx class.
    #[verifier::when_used_as_spec(spec_is_client_error)]
    pub fn is_client_error(self) -> (yes: bool)
        ensures
            yes == self.spec_is_client_error(),
    {
        let code: u16 = self.status();
        400 <= code && code < 500
    }
}

} // verus!
