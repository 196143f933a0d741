//! Requests and responses, and the wire form of a response.

use vstd::prelude::*;
use vstd::string::*;
use crate::headers::{insert, lemma_insert_is_map_insert, lookup, HeaderPair, Headers};
use crate::text::{decimal, format_decimal, push_all, COLON, CR, LF, SP};

verus! {

/// The model of a request.
pub struct RequestView {
    pub method: Seq<u8>,
    pub path: Seq<u8>,
    pub headers: Seq<HeaderPair>,
    pub body: Seq<u8>,
}

/// A parsed request. Method, path and header text are kept as the bytes that
/// came over the wire.
#[derive(Debug)]
pub struct HttpRequest {
    pub method: Vec<u8>,
    pub path: Vec<u8>,
    pub headers: Headers,
    pub body: Vec<u8>,
}

impl View for HttpRequest {
    type V = RequestView;

    open spec fn view(&self) -> RequestView {
        RequestView {
            method: self.method@,
            path: self.path@,
            headers: self.headers@,
            body: self.body@,
        }
    }
}

impl HttpRequest {
    /// A request with the given method and path, no headers and no body.
    pub fn new(method: &str, path: &str) -> (out: Self)
        ensures
            out@ == (RequestView {
                method: method.spec_bytes(),
                path: path.spec_bytes(),
                headers: Seq::<HeaderPair>::empty(),
                body: Seq::<u8>::empty(),
            }),
    {
        HttpRequest {
            method: method.as_bytes_vec(),
            path: path.as_bytes_vec(),
            headers: Headers::new(),
            body: Vec::new(),
        }
    }

    /// The request with `value` written under the header `key`.
    pub fn with_header(self, key: &str, value: &str) -> (out: Self)
        ensures
            out@ == (RequestView {
                headers: insert(self@.headers, key.spec_bytes(), value.spec_bytes()),
                ..self@
            }),
    {
        let mut out = self;
        out.headers.insert(key.as_bytes_vec(), value.as_bytes_vec());
        out
    }

    /// The request with `body` as its body and a `Content-Length` header that
    /// gives the body's length.
    pub fn with_body(self, body: Vec<u8>) -> (out: Self)
        ensures
            out@ == (RequestView {
                headers: insert(self@.headers, content_length_name(), decimal(body@.len())),
                body: body@,
                ..self@
            }),
    {
        let mut out = self;
        out.headers.insert("Content-Length".as_bytes_vec(), format_decimal(body.len()));
        out.body = body;
        out
    }
}

/// The name of the header that declares the length of a body.
pub open spec fn content_length_name() -> Seq<u8> {
    "Content-Length".spec_bytes()
}

/// The text that goes with a status code on the status line.
pub open spec fn reason_phrase(status_code: u16) -> Seq<u8> {
    if status_code == 200 {
        "OK".spec_bytes()
    } else if status_code == 400 {
        "Bad Request".spec_bytes()
    } else if status_code == 404 {
        "Not Found".spec_bytes()
    } else if status_code == 500 {
        "Internal Server Error".spec_bytes()
    } else {
        "Unknown".spec_bytes()
    }
}

/// The model of a response.
pub struct ResponseView {
    pub status_code: u16,
    pub headers: Seq<HeaderPair>,
    pub body: Seq<u8>,
}

/// The model of a response with the given status and nothing else.
pub open spec fn empty_response(status_code: u16) -> ResponseView {
    ResponseView { status_code, headers: Seq::empty(), body: Seq::empty() }
}

/// The model of `r` after `body` became its body: the body is stored and its
/// length is written under `Content-Length`.
pub open spec fn with_body(r: ResponseView, body: Seq<u8>) -> ResponseView {
    ResponseView {
        headers: insert(r.headers, content_length_name(), decimal(body.len())),
        body,
        ..r
    }
}

/// The model of `r` after `value` was written under the header `name`.
pub open spec fn with_header(r: ResponseView, name: Seq<u8>, value: Seq<u8>) -> ResponseView {
    ResponseView { headers: insert(r.headers, name, value), ..r }
}

/// The end of a line on the wire.
pub open spec fn crlf() -> Seq<u8> {
    seq![CR, LF]
}

/// What separates a header's name from its value.
pub open spec fn name_separator() -> Seq<u8> {
    seq![COLON, SP]
}

/// The status line with its line end.
pub open spec fn status_line(status_code: u16) -> Seq<u8> {
    "HTTP/1.1 ".spec_bytes() + decimal(status_code as nat) + seq![SP] + reason_phrase(status_code)
        + crlf()
}

/// One header with its line end.
pub open spec fn header_line(h: HeaderPair) -> Seq<u8> {
    h.0 + name_separator() + h.1 + crlf()
}

/// The header lines one after the other, in the mapping's order.
pub open spec fn header_block(h: Seq<HeaderPair>) -> Seq<u8>
    decreases h.len(),
{
    if h.len() == 0 {
        Seq::<u8>::empty()
    } else {
        header_block(h.drop_last()) + header_line(h.last())
    }
}

/// The bytes of a response on the wire: status line, headers, an empty line,
/// then the body as it is. Nothing is added to the headers.
pub open spec fn wire_format(r: ResponseView) -> Seq<u8> {
    status_line(r.status_code) + header_block(r.headers) + crlf() + r.body
}

/// Whether a response that has a body declares the body's length.
pub open spec fn declares_body_length(r: ResponseView) -> bool {
    r.body.len() > 0 ==> lookup(r.headers, content_length_name()) == Some(
        decimal(r.body.len()),
    )
}

/// A response under construction or ready to be sent.
#[derive(Debug)]
pub struct HttpResponse {
    pub status_code: u16,
    pub headers: Headers,
    pub body: Vec<u8>,
}

impl View for HttpResponse {
    type V = ResponseView;

    open spec fn view(&self) -> ResponseView {
        ResponseView { status_code: self.status_code, headers: self.headers@, body: self.body@ }
    }
}

impl HttpResponse {
    /// A response with the given status, no headers and no body.
    pub fn new(status_code: u16) -> (out: Self)
        ensures
            out@ == empty_response(status_code),
    {
        HttpResponse { status_code, headers: Headers::new(), body: Vec::new() }
    }

    /// The text that goes with this response's status code.
    pub fn status_text(&self) -> (out: Vec<u8>)
        ensures
            out@ == reason_phrase(self.status_code),
    {
        if self.status_code == 200 {
            "OK".as_bytes_vec()
        } else if self.status_code == 400 {
            "Bad Request".as_bytes_vec()
        } else if self.status_code == 404 {
            "Not Found".as_bytes_vec()
        } else if self.status_code == 500 {
            "Internal Server Error".as_bytes_vec()
        } else {
            "Unknown".as_bytes_vec()
        }
    }

    /// The response with `body` as its body and a `Content-Length` header that
    /// gives the body's length.
    pub fn with_body(self, body: Vec<u8>) -> (out: Self)
        ensures
            out@ == with_body(self@, body@),
            declares_body_length(out@),
    {
        let mut out = self;
        out.headers.insert("Content-Length".as_bytes_vec(), format_decimal(body.len()));
        out.body = body;
        proof {
            lemma_insert_is_map_insert(
                self@.headers,
                content_length_name(),
                decimal(body@.len()),
            );
        }
        out
    }

    /// The response with `value` written under the header `key`.
    pub fn with_header(self, key: &str, value: &str) -> (out: Self)
        ensures
            out@ == with_header(self@, key.spec_bytes(), value.spec_bytes()),
            key.spec_bytes() != content_length_name() && declares_body_length(self@)
                ==> declares_body_length(out@),
    {
        let mut out = self;
        out.headers.insert(key.as_bytes_vec(), value.as_bytes_vec());
        proof {
            lemma_insert_is_map_insert(self@.headers, key.spec_bytes(), value.spec_bytes());
        }
        out
    }

    /// The response as it goes over the wire.
    pub fn to_bytes(&self) -> (out: Vec<u8>)
        ensures
            out@ == wire_format(self@),
    {
        let mut out = "HTTP/1.1 ".as_bytes_vec();
        let code = format_decimal(self.status_code as usize);
        push_all(&mut out, code.as_slice());
        out.push(SP);
        let text = self.status_text();
        push_all(&mut out, text.as_slice());
        out.push(CR);
        out.push(LF);
        assert(out@ =~= status_line(self.status_code));
        let n = self.headers.len();
        let mut i: usize = 0;
        while i < n
            invariant
                0 <= i <= n,
                n == self.headers@.len(),
                out@ == status_line(self.status_code) + header_block(
                    self.headers@.take(i as int),
                ),
            decreases n - i,
        {
            let ghost before = out@;
            push_all(&mut out, self.headers.name_at(i).as_slice());
            out.push(COLON);
            out.push(SP);
            push_all(&mut out, self.headers.value_at(i).as_slice());
            out.push(CR);
            out.push(LF);
            proof {
                let h = self.headers@;
                assert(h.take(i + 1).drop_last() =~= h.take(i as int));
                assert(h.take(i + 1).last() == h[i as int]);
                assert(out@ =~= before + header_line(h[i as int]));
            }
            i = i + 1;
        }
        assert(self.headers@.take(i as int) =~= self.headers@);
        out.push(CR);
        out.push(LF);
        push_all(&mut out, self.body.as_slice());
        assert(out@ =~= wire_format(self@));
        out
    }
}

} // verus!
