//! From the engine's response to an engine-agnostic response.

use crate::error::Error;
use crate::headers::{
    append_header, appended, appended_all, distinct_names, field_items, fields_of, gathered,
    lemma_appended_distinct, lemma_gathered, lemma_with_values_all, renamed, walk, with_values,
    Field, Fields, Header, Item,
};
use crate::message::{BodyRead, BodyReadView, NativeResponse, NativeResponseView, Response, ResponseView};
use crate::native::{
    accepts_plain_value, ascii_bytes, header_fields, into_items, items_of, lowercase,
    native_name, plain_name, settled, HeaderItem,
};
use crate::request::{lemma_settled_headers_kept, native_fields};
use vstd::prelude::*;
use vstd::slice::slice_to_vec;
use vstd::utf8::is_ascii_chars;

verus! {

/// The error that one step of the walk leads to, if any: the value is
/// judged first, with or without a name, then the name where there is one.
pub open spec fn item_error(item: Item) -> Option<Error> {
    if !ascii_bytes(item.1) {
        Some(Error::HeaderValue)
    } else if item.0 matches Some(name) && !is_ascii_chars(name) {
        Some(Error::HeaderName)
    } else {
        None
    }
}

/// The error of the first step that is refused, if any is.
pub open spec fn items_error(items: Seq<Item>) -> Option<Error>
    decreases items.len(),
{
    if items.len() == 0 {
        None
    } else {
        match items_error(items.drop_last()) {
            Some(e) => Some(e),
            None => item_error(items.last()),
        }
    }
}

/// The name that a step without a name stands under: that of the last
/// step with a name, in small letters.
pub open spec fn last_name(items: Seq<Item>) -> Option<Seq<char>>
    decreases items.len(),
{
    if items.len() == 0 {
        None
    } else {
        match items.last().0 {
            Some(name) => Some(lowercase(name)),
            None => last_name(items.drop_last()),
        }
    }
}

/// The headers that a walk leaves: each step with a name appends its value
/// under that name in small letters; each step without one appends its value
/// under the name of the last step that had one, and is passed over where
/// no step before it had a name.
pub open spec fn plain_fields(items: Seq<Item>) -> Fields
    decreases items.len(),
{
    if items.len() == 0 {
        Seq::empty()
    } else {
        let fields = plain_fields(items.drop_last());
        let name = match items.last().0 {
            Some(name) => Some(lowercase(name)),
            None => last_name(items.drop_last()),
        };
        match name {
            Some(name) => appended(fields, name, items.last().1),
            None => fields,
        }
    }
}

/// The body that one read leaves: the chunk, or nothing where the body had
/// no data.
pub open spec fn body_bytes(read: BodyReadView) -> Seq<u8> {
    match read {
        BodyReadView::Chunk(bytes) => bytes,
        _ => Seq::empty(),
    }
}

/// Why a response cannot be translated, if it cannot: the body is judged
/// before the headers.
pub open spec fn response_error(response: NativeResponseView) -> Option<Error> {
    if response.body == BodyReadView::Failed {
        Some(Error::ResponseBody)
    } else {
        items_error(walk(response.headers))
    }
}

/// The response that the caller is given for `response`.
pub open spec fn plain_response(response: NativeResponseView) -> ResponseView {
    ResponseView {
        status: response.status,
        version: Some(response.version),
        headers: plain_fields(walk(response.headers)),
        body: body_bytes(response.body),
    }
}

/// An error among the first steps is the error of the whole walk.
pub proof fn lemma_items_error_stays(items: Seq<Item>, upto: int)
    requires
        0 <= upto <= items.len(),
        items_error(items.take(upto)).is_some(),
    ensures
        items_error(items) == items_error(items.take(upto)),
    decreases items.len() - upto,
{
    if upto == items.len() {
        assert(items.take(upto) =~= items);
    } else {
        assert(items.take(upto + 1).drop_last() =~= items.take(upto));
        lemma_items_error_stays(items, upto + 1);
    }
}

/// No name occurs twice among the headers that a walk leaves.
pub proof fn lemma_plain_fields_distinct(items: Seq<Item>)
    ensures
        distinct_names(plain_fields(items)),
    decreases items.len(),
{
    if items.len() > 0 {
        lemma_plain_fields_distinct(items.drop_last());
        let name = match items.last().0 {
            Some(name) => Some(lowercase(name)),
            None => last_name(items.drop_last()),
        };
        if let Some(name) = name {
            lemma_appended_distinct(plain_fields(items.drop_last()), name, items.last().1);
        }
    }
}

/// The steps that one field contributes append the field's values, in
/// order, under the field's name in small letters.
pub proof fn lemma_field_steps(before: Seq<Item>, field: Field, upto: int)
    requires
        0 <= upto <= field.1.len(),
    ensures
        plain_fields(before + field_items(field).take(upto)) == appended_all(
            plain_fields(before),
            lowercase(field.0),
            field.1.take(upto),
        ),
        upto > 0 ==> last_name(before + field_items(field).take(upto)) == Some(
            lowercase(field.0),
        ),
    decreases upto,
{
    let steps = before + field_items(field).take(upto);
    if upto == 0 {
        assert(steps =~= before);
    } else {
        assert(steps.drop_last() =~= before + field_items(field).take(upto - 1));
        assert(field.1.take(upto).drop_last() =~= field.1.take(upto - 1));
        assert(field.1.take(upto).last() == field.1[upto - 1]);
        assert(steps.last() == field_items(field)[upto - 1]);
        lemma_field_steps(before, field, upto - 1);
    }
}

proof fn lemma_walk_gathered(fields: Fields, spell: spec_fn(Seq<char>) -> Seq<char>)
    requires
        forall|name: Seq<char>| #[trigger] spell(name) == lowercase(name),
    ensures
        plain_fields(walk(fields)) == gathered(fields, spell),
    decreases fields.len(),
{
    if fields.len() > 0 {
        let last = fields.last();
        lemma_walk_gathered(fields.drop_last(), spell);
        lemma_field_steps(walk(fields.drop_last()), last, last.1.len() as int);
        assert(field_items(last).take(last.1.len() as int) =~= field_items(last));
        assert(last.1.take(last.1.len() as int) =~= last.1);
    }
}

/// `fields` with every name in small letters.
pub open spec fn lowered(fields: Fields) -> Fields {
    Seq::new(fields.len(), |i: int| (lowercase(fields[i].0), fields[i].1))
}

/// Every value under every name survives the translation of a response:
/// where no two names of the engine's map are alike once their capitals are
/// made small, the response holds one header for each field that has a
/// value, in the engine's order, under the name in small letters and with
/// the same values in the same order.
pub proof fn lemma_values_kept(fields: Fields)
    requires
        forall|i: int, j: int|
            0 <= i < j < fields.len() ==> lowercase((#[trigger] fields[i]).0) != lowercase(
                (#[trigger] fields[j]).0,
            ),
    ensures
        plain_fields(walk(fields)) == lowered(with_values(fields)),
{
    let spell = |name: Seq<char>| lowercase(name);
    lemma_walk_gathered(fields, spell);
    lemma_gathered(fields, spell);
    assert(renamed(with_values(fields), spell) =~= lowered(with_values(fields)));
}

/// The fields of a settled map pass through as they are.
pub proof fn lemma_settled_fields_kept(fields: Fields)
    requires
        settled(fields),
    ensures
        plain_fields(walk(fields)) == fields,
{
    assert forall|i: int| 0 <= i < fields.len() implies lowercase((#[trigger] fields[i]).0)
        == fields[i].0 by {
        assert(native_name(fields[i].0) == Some(fields[i].0));
    }
    lemma_values_kept(fields);
    lemma_with_values_all(fields);
    assert(lowered(fields) =~= fields);
}

/// Settled headers come back as they went: sent through the engine's map
/// and walked again, they are the very same fields, every value under every
/// name in order.
pub proof fn lemma_settled_round_trip(fields: Fields)
    requires
        settled(fields),
    ensures
        plain_fields(walk(native_fields(fields))) == fields,
{
    lemma_settled_headers_kept(fields);
    lemma_settled_fields_kept(fields);
}

/// What an optional name holds.
pub open spec fn name_of(name: Option<String>) -> Option<Seq<char>> {
    match name {
        Some(name) => Some(name@),
        None => None,
    }
}

/// Gathers the headers that a walk through the engine's map leaves.
///
/// The steps are taken in order. A value that is not ASCII is an error,
/// with or without a name; so is a name that is not ASCII. A step with a
/// name adds its value under that name in small letters; a step without a
/// name adds its value under the name of the last step that had one.
pub fn collect_headers(items: &Vec<HeaderItem>) -> (r: Result<Vec<Header>, Error>)
    ensures
        match r {
            Ok(headers) => items_error(items_of(items@)).is_none() && fields_of(headers@)
                == plain_fields(items_of(items@)),
            Err(e) => items_error(items_of(items@)) == Some(e),
        },
{
    let ghost steps = items_of(items@);
    let mut headers: Vec<Header> = Vec::new();
    let mut current: Option<String> = None;
    let mut i: usize = 0;
    assert(fields_of(headers@) =~= plain_fields(steps.take(0)));
    while i < items.len()
        invariant
            i <= items.len(),
            steps == items_of(items@),
            items_error(steps.take(i as int)).is_none(),
            fields_of(headers@) == plain_fields(steps.take(i as int)),
            name_of(current) == last_name(steps.take(i as int)),
        decreases items.len() - i,
    {
        let item = &items[i];
        proof {
            assert(steps[i as int] == item@);
            assert(steps.take(i + 1).drop_last() =~= steps.take(i as int));
            assert(steps.take(i + 1).last() == item@);
        }
        let bytes = item.value.as_slice();
        if !accepts_plain_value(bytes) {
            proof {
                assert(items_error(steps.take(i + 1)) == Some(Error::HeaderValue));
                lemma_items_error_stays(steps, i + 1);
            }
            return Err(Error::HeaderValue);
        }
        match &item.name {
            Some(name) => {
                match plain_name(name.as_str()) {
                    Some(spelled) => {
                        current = Some(spelled);
                    },
                    None => {
                        proof {
                            assert(items_error(steps.take(i + 1)) == Some(Error::HeaderName));
                            lemma_items_error_stays(steps, i + 1);
                        }
                        return Err(Error::HeaderName);
                    },
                }
            },
            None => {},
        }
        match &current {
            Some(name) => {
                append_header(&mut headers, name, slice_to_vec(bytes));
            },
            None => {},
        }
        i = i + 1;
    }
    proof {
        assert(steps.take(i as int) =~= steps);
    }
    Ok(headers)
}

/// A response in the engine-agnostic form.
#[derive(Debug)]
pub struct HttpTypesResponse {
    inner: Response,
}

impl View for HttpTypesResponse {
    type V = ResponseView;

    closed spec fn view(&self) -> ResponseView {
        self.inner@
    }
}

impl HttpTypesResponse {
    /// Translates a response.
    ///
    /// A failed read of the body is the error, whatever the headers hold.
    /// Else the headers are walked in the engine's order, and a value that
    /// is not ASCII is the error. The result has the engine's status and
    /// version, the engine's header fields as they are, every value under
    /// every name in order, and as its body the one chunk that was read, or
    /// nothing.
    pub fn try_from(value: NativeResponse) -> (r: Result<HttpTypesResponse, Error>)
        ensures
            match r {
                Ok(response) => response_error(value@).is_none() && response@ == plain_response(
                    value@,
                ),
                Err(e) => response_error(value@) == Some(e),
            },
            r matches Ok(response) ==> response@.headers == value@.headers,
            r matches Ok(response) ==> distinct_names(response@.headers),
    {
        let body = match value.body {
            BodyRead::End => Vec::new(),
            BodyRead::Chunk(bytes) => bytes,
            BodyRead::Failed => {
                return Err(Error::ResponseBody);
            },
        };
        let items = into_items(value.headers);
        let headers = match collect_headers(&items) {
            Ok(headers) => headers,
            Err(e) => {
                return Err(e);
            },
        };
        proof {
            lemma_plain_fields_distinct(items_of(items@));
            lemma_settled_fields_kept(header_fields(value.headers));
        }
        Ok(
            HttpTypesResponse {
                inner: Response {
                    status: value.status,
                    version: Some(value.version),
                    headers,
                    body,
                },
            },
        )
    }

    /// The engine-agnostic response.
    pub fn into_inner(self) -> (inner: Response)
        ensures
            inner@ == self@,
    {
        self.inner
    }
}

} // verus!
