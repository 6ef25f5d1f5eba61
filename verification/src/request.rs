//! From an engine-agnostic request to the request that the engine takes.

use crate::error::Error;
use crate::headers::{
    appended_all, fields_of, gathered, has_name, lemma_appended_len, lemma_gathered,
    lemma_with_values_all, renamed, with_values, Field, Fields,
};
use crate::message::{NativeRequest, NativeRequestView, Request, RequestView, Version};
use crate::native::{
    accepts_name, accepts_value, default_version, find_scheme, header_fields, lowercase,
    native_name, native_value, new_header_map, scheme_of, settled, try_append, uri_scheme,
    HEADER_ROOM,
};
use vstd::prelude::*;

verus! {

/// The schemes that the engine's connector can dispatch.
pub open spec fn dispatchable(scheme: Option<Seq<char>>) -> bool {
    scheme == Some("http"@) || scheme == Some("https"@)
}

/// The error that a scheme lookup leads to, if any: a URL that the engine
/// does not read is an invalid URI, one without a scheme or with another
/// scheme than `http` and `https` has an invalid scheme.
pub open spec fn scheme_error(found: Option<Option<Seq<char>>>) -> Option<Error> {
    match found {
        None => Some(Error::InvalidUri),
        Some(scheme) => if dispatchable(scheme) {
            None
        } else {
            Some(Error::InvalidScheme)
        },
    }
}

/// The error that the engine's view of one field leads to, if any: the name
/// is judged before the values.
pub open spec fn field_error(field: Field) -> Option<Error> {
    if native_name(field.0).is_none() {
        Some(Error::HeaderName)
    } else if exists|k: int| 0 <= k < field.1.len() && !native_value(#[trigger] field.1[k]) {
        Some(Error::HeaderValue)
    } else {
        None
    }
}

/// The error of the first field that the engine refuses, if it refuses any.
pub open spec fn fields_error(fields: Fields) -> Option<Error>
    decreases fields.len(),
{
    if fields.len() == 0 {
        None
    } else {
        match fields_error(fields.drop_last()) {
            Some(e) => Some(e),
            None => field_error(fields.last()),
        }
    }
}

/// Why a request cannot be translated, if it cannot: the URL is judged
/// before the headers.
pub open spec fn request_error(request: RequestView) -> Option<Error> {
    match scheme_error(uri_scheme(request.url)) {
        Some(e) => Some(e),
        None => fields_error(request.headers),
    }
}

/// The fields of the engine's header map after every value of every field
/// was appended under the engine's spelling of its name, in order.
pub open spec fn native_fields(fields: Fields) -> Fields
    decreases fields.len(),
{
    if fields.len() == 0 {
        Seq::empty()
    } else {
        appended_all(
            native_fields(fields.drop_last()),
            native_name(fields.last().0).unwrap(),
            fields.last().1,
        )
    }
}

/// The version that the engine is told: the caller's, or HTTP/1.1 where the
/// caller named none.
pub open spec fn native_version(version: Option<Version>) -> Version {
    match version {
        Some(version) => version,
        None => Version::Http1_1,
    }
}

/// The request that the engine is given for `request`.
pub open spec fn native_request(request: RequestView) -> NativeRequestView {
    NativeRequestView {
        method: request.method,
        uri: request.url,
        version: native_version(request.version),
        headers: native_fields(request.headers),
        body: request.body,
    }
}

/// An error among the first fields is the error of the whole.
pub proof fn lemma_fields_error_stays(fields: Fields, upto: int)
    requires
        0 <= upto <= fields.len(),
        fields_error(fields.take(upto)).is_some(),
    ensures
        fields_error(fields) == fields_error(fields.take(upto)),
    decreases fields.len() - upto,
{
    if upto == fields.len() {
        assert(fields.take(upto) =~= fields);
    } else {
        assert(fields.take(upto + 1).drop_last() =~= fields.take(upto));
        lemma_fields_error_stays(fields, upto + 1);
    }
}

/// The scheme decides first: a request to a URL that the engine reads with
/// the scheme `http` or `https` can fail on its headers only, and a request
/// to any other URL fails with a client error, whatever its headers hold.
pub proof fn lemma_scheme_decides(request: RequestView)
    ensures
        match uri_scheme(request.url) {
            Some(scheme) if dispatchable(scheme) => request_error(request) == fields_error(
                request.headers,
            ),
            Some(_) => request_error(request) == Some(Error::InvalidScheme),
            None => request_error(request) == Some(Error::InvalidUri),
        },
        scheme_error(uri_scheme(request.url)) matches Some(e) ==> e.spec_is_client_error(),
{
}

/// Whether the engine accepts every name of `fields` and spells no two of
/// them alike.
pub open spec fn native_names_distinct(fields: Fields) -> bool {
    &&& forall|i: int| 0 <= i < fields.len() ==> native_name((#[trigger] fields[i]).0).is_some()
    &&& forall|i: int, j: int|
        0 <= i < j < fields.len() ==> native_name((#[trigger] fields[i]).0) != native_name(
            (#[trigger] fields[j]).0,
        )
}

/// `fields` with every name in the engine's spelling.
pub open spec fn spelled(fields: Fields) -> Fields {
    Seq::new(fields.len(), |i: int| (native_name(fields[i].0).unwrap(), fields[i].1))
}

proof fn lemma_native_fields_gathered(fields: Fields, spell: spec_fn(Seq<char>) -> Seq<char>)
    requires
        forall|name: Seq<char>| #[trigger] spell(name) == native_name(name).unwrap(),
    ensures
        native_fields(fields) == gathered(fields, spell),
    decreases fields.len(),
{
    if fields.len() > 0 {
        lemma_native_fields_gathered(fields.drop_last(), spell);
    }
}

/// Headers survive the translation: where the engine accepts the names and
/// spells no two alike, its map holds one field for each header that has a
/// value, in the order given, under the engine's spelling of the name and
/// with the same values in the same order. A header without values leaves
/// no field.
pub proof fn lemma_headers_preserved(fields: Fields)
    requires
        native_names_distinct(fields),
    ensures
        native_fields(fields) == spelled(with_values(fields)),
{
    let spell = |name: Seq<char>| native_name(name).unwrap();
    lemma_native_fields_gathered(fields, spell);
    lemma_gathered(fields, spell);
    assert(renamed(with_values(fields), spell) =~= spelled(with_values(fields)));
}

/// A name in small letters keeps its spelling: what the engine accepts and
/// finds without capitals, it spells as it was given.
pub proof fn lemma_small_name_kept(name: Seq<char>)
    requires
        native_name(name).is_some(),
        lowercase(name) == name,
    ensures
        native_name(name) == Some(name),
{
}

/// Settled headers pass through as they are: where no name occurs twice,
/// every name is in the engine's spelling and every header has a value, the
/// engine's map holds the very same fields.
pub proof fn lemma_settled_headers_kept(fields: Fields)
    requires
        settled(fields),
    ensures
        native_fields(fields) == fields,
{
    assert(native_names_distinct(fields));
    lemma_headers_preserved(fields);
    lemma_with_values_all(fields);
    assert(spelled(fields) =~= fields);
}

/// Judges what the engine found in a URL: `Ok` for the schemes `http` and
/// `https`, an invalid URI where it found no URI, an invalid scheme
/// otherwise.
pub fn check_scheme(found: &Option<Option<String>>) -> (r: Result<(), Error>)
    ensures
        r == match scheme_error(scheme_of(*found)) {
            Some(e) => Err::<(), Error>(e),
            None => Ok(()),
        },
{
    match found {
        None => Err(Error::InvalidUri),
        Some(None) => Err(Error::InvalidScheme),
        Some(Some(scheme)) => {
            let http = "http".to_owned();
            let https = "https".to_owned();
            if *scheme == http || *scheme == https {
                Ok(())
            } else {
                Err(Error::InvalidScheme)
            }
        },
    }
}

/// Whether the engine can dispatch a request to `url`: it must read the URL
/// as a URI whose scheme is `http` or `https`.
pub fn check_url(url: &str) -> (r: Result<(), Error>)
    ensures
        r == match scheme_error(uri_scheme(url@)) {
            Some(e) => Err::<(), Error>(e),
            None => Ok(()),
        },
{
    let found = find_scheme(url);
    check_scheme(&found)
}

/// What a header map's answer to an append means for the translation: a
/// map that took the value lets it go on, a full map ends it.
pub fn check_append(known: Option<bool>) -> (r: Result<(), Error>)
    ensures
        r == match known {
            Some(_) => Ok::<(), Error>(()),
            None => Err(Error::HeaderCapacity),
        },
{
    match known {
        Some(_) => Ok(()),
        None => Err(Error::HeaderCapacity),
    }
}

/// A request in the engine's form.
#[derive(Debug)]
pub struct HyperHttpRequest {
    inner: NativeRequest,
}

impl View for HyperHttpRequest {
    type V = NativeRequestView;

    closed spec fn view(&self) -> NativeRequestView {
        self.inner@
    }
}

impl HyperHttpRequest {
    /// Translates a request.
    ///
    /// The URL is judged first, then the headers in order, each name before
    /// its values; the first fault found is the error. A request without
    /// fault becomes the engine's request: same method, target and body, the
    /// version named or HTTP/1.1, and every header value appended under its
    /// name in the order given. Only a request of more than `HEADER_ROOM`
    /// headers can fail for want of room in the engine's header map.
    pub fn try_from(value: Request) -> (r: Result<HyperHttpRequest, Error>)
        ensures
            match r {
                Ok(request) => request_error(value@).is_none() && request@ == native_request(
                    value@,
                ),
                Err(e) => request_error(value@) == Some(e) || (e == Error::HeaderCapacity
                    && value.headers.len() > HEADER_ROOM),
            },
            scheme_error(uri_scheme(value.url@)) matches Some(e) ==> r == Err::<
                HyperHttpRequest,
                Error,
            >(e),
            value.headers.len() <= HEADER_ROOM ==> r.is_ok() == request_error(value@).is_none(),
    {
        match check_url(value.url.as_str()) {
            Err(e) => {
                return Err(e);
            },
            Ok(_) => {},
        }
        let ghost fields = fields_of(value.headers@);
        let mut headers = new_header_map();
        let mut i: usize = 0;
        while i < value.headers.len()
            invariant
                i <= value.headers.len(),
                scheme_error(uri_scheme(value.url@)).is_none(),
                fields == fields_of(value.headers@),
                fields_error(fields.take(i as int)).is_none(),
                header_fields(headers) == native_fields(fields.take(i as int)),
                header_fields(headers).len() <= i,
            decreases value.headers.len() - i,
        {
            let header = &value.headers[i];
            let ghost field = fields[i as int];
            let ghost before = fields.take(i as int);
            proof {
                assert(field == header@);
                assert(fields.take(i + 1).drop_last() =~= before);
                assert(fields.take(i + 1).last() == field);
            }
            if !accepts_name(header.name.as_str()) {
                proof {
                    assert(fields_error(fields.take(i + 1)) == Some(Error::HeaderName));
                    lemma_fields_error_stays(fields, i + 1);
                }
                return Err(Error::HeaderName);
            }
            let ghost name = native_name(field.0).unwrap();
            let mut j: usize = 0;
            while j < header.values.len()
                invariant
                    j <= header.values.len(),
                    i < value.headers.len(),
                    scheme_error(uri_scheme(value.url@)).is_none(),
                    fields == fields_of(value.headers@),
                    header == value.headers@[i as int],
                    field == header@,
                    before == fields.take(i as int),
                    fields.take(i + 1).drop_last() == before,
                    fields.take(i + 1).last() == field,
                    fields_error(before).is_none(),
                    native_name(field.0) == Some(name),
                    forall|k: int| 0 <= k < j ==> native_value(#[trigger] field.1[k]),
                    header_fields(headers) == appended_all(
                        native_fields(before),
                        name,
                        field.1.take(j as int),
                    ),
                    header_fields(headers).len() <= i + 1,
                    j > 0 ==> has_name(header_fields(headers), name),
                    j == 0 ==> header_fields(headers).len() <= i,
                decreases header.values.len() - j,
            {
                let value_bytes = header.values[j].as_slice();
                assert(value_bytes@ == field.1[j as int]);
                if !accepts_value(value_bytes) {
                    proof {
                        assert(!native_value(field.1[j as int]));
                        assert(field_error(field) == Some(Error::HeaderValue));
                        assert(fields_error(fields.take(i + 1)) == Some(Error::HeaderValue));
                        lemma_fields_error_stays(fields, i + 1);
                    }
                    return Err(Error::HeaderValue);
                }
                let ghost held = header_fields(headers);
                let known = try_append(&mut headers, header.name.as_str(), value_bytes);
                match check_append(known) {
                    Err(e) => {
                        return Err(e);
                    },
                    Ok(_) => {},
                }
                proof {
                    lemma_appended_len(held, name, field.1[j as int]);
                    assert(field.1.take(j + 1).drop_last() =~= field.1.take(j as int));
                    assert(field.1.take(j + 1).last() == field.1[j as int]);
                }
                j = j + 1;
            }
            proof {
                assert(field.1.take(j as int) =~= field.1);
                assert(field_error(field).is_none());
            }
            i = i + 1;
        }
        proof {
            assert(fields.take(i as int) =~= fields);
        }
        let version = match value.version {
            Some(version) => version,
            None => default_version(),
        };
        Ok(
            HyperHttpRequest {
                inner: NativeRequest {
                    method: value.method,
                    uri: value.url,
                    version,
                    headers,
                    body: value.body,
                },
            },
        )
    }

    /// The same request with `body` as its body.
    pub fn with_body(self, body: Vec<u8>) -> (request: HyperHttpRequest)
        ensures
            request@.method == self@.method,
            request@.uri == self@.uri,
            request@.version == self@.version,
            request@.headers == self@.headers,
            request@.body == body@,
    {
        let mut inner = self.inner;
        inner.body = body;
        HyperHttpRequest { inner }
    }

    /// The engine's request.
    pub fn into_inner(self) -> (inner: NativeRequest)
        ensures
            inner@ == self@,
    {
        self.inner
    }
}

} // verus!
