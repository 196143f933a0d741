//! What holds of every response that the library builds.
//!
//! Whatever the request, the response declares the length of its body, and
//! a reader recovers it from the bytes that go over the wire.

use vstd::prelude::*;
use vstd::string::*;
use vstd::utf8::encode_utf8;
use crate::compression::gzip_encoding;
use crate::handlers::{
    echo_result, failure_response, file_contents_response, file_created_response,
    file_operation, file_result, gzip_response, response_of, text_response, user_agent_result,
    Failure, FileOutcomeView,
};
use crate::headers::{
    has_name, insert, lemma_insert_distinct, lemma_insert_is_map_insert, lookup, names_distinct,
    position, HeaderPair,
};
use crate::message::{
    content_length_name, declares_body_length, wire_format, RequestView, ResponseView,
};
use crate::path::segment;
use crate::readback::{all_readable, is_readable, lemma_response_roundtrip, parse_response};
use crate::routing::{handled, route_of, HandlingView, Route};
use crate::text::{decimal, is_digit, lemma_decimal_digits, COLON, CR, LF};

verus! {

/// Whether a piece of header text holds no line break and no colon.
pub open spec fn is_plain(s: Seq<u8>) -> bool {
    forall|i: int| 0 <= i < s.len() ==> (#[trigger] s[i]) != LF && s[i] != CR && s[i] != COLON
}

/// The header names and values that the handlers write are plain, and the
/// names differ from one another.
proof fn lemma_header_texts()
    ensures
        is_plain(content_length_name()),
        is_plain("Content-Type".spec_bytes()),
        is_plain("Content-Encoding".spec_bytes()),
        is_plain("text/plain".spec_bytes()),
        is_plain("application/octet-stream".spec_bytes()),
        is_plain("gzip".spec_bytes()),
        content_length_name().len() == 14,
        "Content-Type".spec_bytes().len() == 12,
        "Content-Encoding".spec_bytes().len() == 16,
{
    reveal_strlit("Content-Length");
    reveal_strlit("Content-Type");
    reveal_strlit("Content-Encoding");
    reveal_strlit("text/plain");
    reveal_strlit("application/octet-stream");
    reveal_strlit("gzip");
    is_ascii_spec_bytes("Content-Length");
    is_ascii_spec_bytes("Content-Type");
    is_ascii_spec_bytes("Content-Encoding");
    is_ascii_spec_bytes("text/plain");
    is_ascii_spec_bytes("application/octet-stream");
    is_ascii_spec_bytes("gzip");
}

/// A decimal number is plain.
proof fn lemma_decimal_plain(n: nat)
    ensures
        is_plain(decimal(n)),
{
    lemma_decimal_digits(n);
    let d = decimal(n);
    assert forall|i: int| 0 <= i < d.len() implies (#[trigger] d[i]) != LF && d[i] != CR && d[i]
        != COLON by {
        assert(is_digit(d[i]));
    }
}

/// A header made of plain text can be read back.
proof fn lemma_plain_is_readable(name: Seq<u8>, value: Seq<u8>)
    requires
        is_plain(name),
        is_plain(value),
    ensures
        is_readable((name, value)),
{
    if value.len() > 0 {
        assert(value[value.len() - 1] != CR);
    }
}

/// Whether a mapping holds plain text under names that differ.
pub open spec fn all_plain(headers: Seq<HeaderPair>) -> bool {
    &&& names_distinct(headers)
    &&& forall|i: int|
        0 <= i < headers.len() ==> is_plain((#[trigger] headers[i]).0) && is_plain(headers[i].1)
}

/// Writing plain text into a mapping of plain text leaves one.
proof fn lemma_insert_plain(headers: Seq<HeaderPair>, name: Seq<u8>, value: Seq<u8>)
    requires
        all_plain(headers),
        is_plain(name),
        is_plain(value),
    ensures
        all_plain(insert(headers, name, value)),
{
    lemma_insert_distinct(headers, name, value);
    let after = insert(headers, name, value);
    assert forall|i: int| 0 <= i < after.len() implies is_plain((#[trigger] after[i]).0)
        && is_plain(after[i].1) by {
        if has_name(headers, name) {
            if i != position(headers, name) {
                assert(after[i] == headers[i]);
            }
        } else if i < headers.len() {
            assert(after[i] == headers[i]);
        }
    }
}

/// A mapping of plain text can be read back.
proof fn lemma_all_plain_readable(headers: Seq<HeaderPair>)
    requires
        all_plain(headers),
    ensures
        all_readable(headers),
{
    assert forall|i: int| 0 <= i < headers.len() implies is_readable(#[trigger] headers[i]) by {
        lemma_plain_is_readable(headers[i].0, headers[i].1);
    }
}

/// Whether a response is fit to be sent: it declares the length of its
/// body, and a reader gets it back from its bytes.
pub open spec fn is_sound(response: ResponseView) -> bool {
    &&& declares_body_length(response)
    &&& all_plain(response.headers)
    &&& parse_response(wire_format(response)) == Some(response)
}

/// Every plain-text response is sound.
proof fn lemma_text_response(status_code: u16, body: Seq<u8>)
    ensures
        is_sound(text_response(status_code, body)),
{
    lemma_header_texts();
    lemma_decimal_plain(body.len());
    let empty = Seq::<HeaderPair>::empty();
    let first = insert(empty, content_length_name(), decimal(body.len()));
    lemma_insert_plain(empty, content_length_name(), decimal(body.len()));
    lemma_insert_is_map_insert(empty, content_length_name(), decimal(body.len()));
    lemma_insert_plain(first, "Content-Type".spec_bytes(), "text/plain".spec_bytes());
    lemma_insert_is_map_insert(first, "Content-Type".spec_bytes(), "text/plain".spec_bytes());
    let response = text_response(status_code, body);
    lemma_all_plain_readable(response.headers);
    lemma_response_roundtrip(response);
}

/// Every response to a failure is sound.
proof fn lemma_failure_response(failure: Failure)
    ensures
        is_sound(failure_response(failure)),
{
    match failure {
        Failure::FileNotFound(_) => lemma_text_response(404, "File not found".spec_bytes()),
        Failure::InvalidRequest(message) => lemma_text_response(400, encode_utf8(message)),
        Failure::IoError => lemma_text_response(500, "Internal Server Error".spec_bytes()),
        Failure::EncodingError(_) => lemma_text_response(500, "Encoding Error".spec_bytes()),
    }
}

/// Every response with a gzip-encoded body is sound.
proof fn lemma_gzip_response(encoded: Seq<u8>)
    ensures
        is_sound(gzip_response(encoded)),
{
    lemma_header_texts();
    lemma_text_response(200, encoded);
    let inner = text_response(200, encoded);
    lemma_insert_plain(inner.headers, "Content-Encoding".spec_bytes(), "gzip".spec_bytes());
    lemma_insert_is_map_insert(
        inner.headers,
        "Content-Encoding".spec_bytes(),
        "gzip".spec_bytes(),
    );
    let response = gzip_response(encoded);
    lemma_all_plain_readable(response.headers);
    lemma_response_roundtrip(response);
}

/// The responses to file requests are sound.
proof fn lemma_file_responses(contents: Seq<u8>)
    ensures
        is_sound(file_contents_response(contents)),
        is_sound(file_created_response()),
{
    lemma_header_texts();
    let empty = Seq::<HeaderPair>::empty();
    let length = content_length_name();
    let kind = "Content-Type".spec_bytes();
    {
        let size = decimal(contents.len());
        lemma_decimal_plain(contents.len());
        let first = insert(empty, length, size);
        lemma_insert_plain(empty, length, size);
        lemma_insert_is_map_insert(empty, length, size);
        lemma_insert_plain(first, kind, "application/octet-stream".spec_bytes());
        lemma_insert_is_map_insert(first, kind, "application/octet-stream".spec_bytes());
        let response = file_contents_response(contents);
        lemma_all_plain_readable(response.headers);
        lemma_response_roundtrip(response);
    }
    {
        let body = "File created successfully".spec_bytes();
        let size = decimal(body.len());
        lemma_decimal_plain(body.len());
        let first = insert(empty, kind, "text/plain".spec_bytes());
        lemma_insert_plain(empty, kind, "text/plain".spec_bytes());
        lemma_insert_plain(first, length, size);
        lemma_insert_is_map_insert(first, length, size);
        let response = file_created_response();
        lemma_all_plain_readable(response.headers);
        lemma_response_roundtrip(response);
    }
}

/// Whatever a handler returns stands for a sound response.
proof fn lemma_echo_response(request: RequestView, r: Result<ResponseView, Failure>)
    requires
        echo_result(request, r),
    ensures
        is_sound(response_of(r)),
{
    match r {
        Ok(response) => {
            match segment(request.path, 2) {
                Some(content) => {
                    lemma_gzip_response(gzip_encoding(content));
                    lemma_text_response(200, content);
                },
                None => {},
            }
        },
        Err(failure) => lemma_failure_response(failure),
    }
}

/// Every response that the router returns declares the length of its body
/// and is recovered by a reader from the bytes that go over the wire,
/// whatever the request was.
pub proof fn lemma_routed_response_is_sound(
    request: RequestView,
    directory: Seq<char>,
    response: ResponseView,
)
    requires
        handled(request, directory, HandlingView::Complete(response)),
    ensures
        is_sound(response),
{
    match route_of(request.path) {
        Route::Root => lemma_text_response(200, "Welcome to the server!".spec_bytes()),
        Route::Echo => {
            let r = choose|r: Result<ResponseView, Failure>|
                #[trigger] echo_result(request, r) && HandlingView::Complete(response)
                    == HandlingView::Complete(response_of(r));
            lemma_echo_response(request, r);
        },
        Route::UserAgent => match user_agent_result(request) {
            Ok(_) => lemma_text_response(
                200,
                lookup(request.headers, "User-Agent".spec_bytes())->Some_0,
            ),
            Err(failure) => lemma_failure_response(failure),
        },
        Route::Files => match file_operation(request, directory) {
            Ok(_) => {},
            Err(failure) => lemma_failure_response(failure),
        },
        Route::Unknown => lemma_text_response(404, "Not Found".spec_bytes()),
    }
}

/// Every response to a file request, whatever the outcome of the file
/// operation, declares the length of its body and is recovered by a reader
/// from the bytes that go over the wire.
pub proof fn lemma_file_response_is_sound(name: Seq<u8>, outcome: FileOutcomeView)
    ensures
        is_sound(response_of(file_result(name, outcome))),
{
    match file_result(name, outcome) {
        Ok(_) => match outcome {
            FileOutcomeView::Contents(contents) => lemma_file_responses(contents),
            _ => lemma_file_responses(Seq::empty()),
        },
        Err(failure) => lemma_failure_response(failure),
    }
}

} // verus!
