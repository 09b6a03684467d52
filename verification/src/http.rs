//! Requests of HTTP.
use http_types::Request;
use vstd::prelude::*;

verus! {

#[verifier::external_type_specification]
#[verifier::external_body]
pub struct ExRequest(http_types::Request);

/// What a request holds.
#[verifier::ext_equal]
pub struct RequestView {
    pub method: Seq<char>,
    pub url: Seq<char>,
    /// The values of each header, under its name in lower case.
    pub headers: Map<Seq<char>, Seq<Seq<char>>>,
    pub body: Seq<char>,
}

/// The contents of a request: its method, the text of its URL, its headers, and the
/// text of its body.
pub uninterp spec fn request_view(request: http_types::Request) -> RequestView;

/// A character with ASCII capitals made small.
pub open spec fn lower_char(c: char) -> char {
    if 'A' <= c <= 'Z' {
        (c as u8 + 32) as char
    } else {
        c
    }
}

/// A text with ASCII capitals made small.
pub open spec fn lower(text: Seq<char>) -> Seq<char> {
    text.map_values(|c: char| lower_char(c))
}

/// The URL that Ollama answers at.
pub open spec fn generate_url() -> Seq<char> {
    "http://seanvim.requestcatcher.com/api/generate"@
}

/// `http_types::Request::post`, for the URL of Ollama, which is a valid one and its own
/// normal form: a request with the method `POST`, no headers and an empty body. Other
/// texts are left out, since the function panics where a text is no URL.
#[verifier::external_body]
pub(crate) fn post(url: &str) -> (request: Request)
    requires
        url@ == generate_url(),
    ensures
        request_view(request) == (RequestView {
            method: "POST"@,
            url: url@,
            headers: Map::empty(),
            body: Seq::empty(),
        }),
{
    Request::post(url)
}

/// `http_types::Request::insert_header`, for a value that is one string: the header
/// has this value alone, whatever it had before, and nothing else changes. Names are
/// kept in lower case. The function panics on what is not ASCII.
#[verifier::external_body]
pub(crate) fn insert_header(request: &mut Request, name: &str, value: &str)
    requires
        name.is_ascii(),
        value.is_ascii(),
    ensures
        request_view(*final(request)) == (RequestView {
            headers: request_view(*old(request)).headers.insert(lower(name@), seq![value@]),
            ..request_view(*old(request))
        }),
{
    request.insert_header(name, value);
}

/// `http_types::Request::set_body`, for a string, on a request that has a content
/// type: the body is the string, and nothing else changes. (Without a content type the
/// function would add that of plain text.)
#[verifier::external_body]
pub(crate) fn set_body(request: &mut Request, body: String)
    requires
        request_view(*old(request)).headers.contains_key("content-type"@),
    ensures
        request_view(*final(request)) == (RequestView {
            body: body@,
            ..request_view(*old(request))
        }),
{
    request.set_body(body);
}

} // verus!
