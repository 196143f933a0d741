//! The built-in handlers.
//!
//! Each handler turns a request into a response or a failure. Three of them
//! answer at once. The file handler needs the file system, which this
//! library does not touch: it names the operation to perform and, given the
//! operation's outcome, builds the response.

use vstd::prelude::*;
use vstd::string::*;
use vstd::utf8::encode_utf8;
use crate::compression::{gzip_compress, gzip_encoding};
use crate::headers::{lookup, HeaderPair};
use crate::message::{
    empty_response, with_body, with_header, HttpRequest, HttpResponse, RequestView, ResponseView,
};
use crate::path::{path_segment, segment};
use crate::text::{contains, contains_bytes, copy_range, lowercase, same_bytes, to_lowercase};

verus! {

/// Why a handler could not answer a request.
#[derive(Debug)]
pub enum HandleError {
    /// The named file does not exist.
    FileNotFound(Vec<u8>),
    /// The request does not fit the route; the text says why.
    InvalidRequest(String),
    /// The file system failed.
    IoError(std::io::Error),
    /// The body could not be compressed.
    EncodingError(String),
}

/// The model of a `HandleError`. The file system's error is opaque and has
/// no part in it.
pub enum Failure {
    FileNotFound(Seq<u8>),
    InvalidRequest(Seq<char>),
    IoError,
    EncodingError(Seq<char>),
}

impl View for HandleError {
    type V = Failure;

    open spec fn view(&self) -> Failure {
        match self {
            HandleError::FileNotFound(name) => Failure::FileNotFound(name@),
            HandleError::InvalidRequest(message) => Failure::InvalidRequest(message@),
            HandleError::IoError(_) => Failure::IoError,
            HandleError::EncodingError(message) => Failure::EncodingError(message@),
        }
    }
}

impl From<std::io::Error> for HandleError {
    /// A failure of the file system.
    fn from(error: std::io::Error) -> (out: Self) {
        HandleError::IoError(error)
    }
}

impl vstd::std_specs::convert::FromSpecImpl<std::io::Error> for HandleError {
    open spec fn obeys_from_spec() -> bool {
        true
    }

    open spec fn from_spec(error: std::io::Error) -> Self {
        HandleError::IoError(error)
    }
}

/// A response with a plain-text body: `Content-Length`, then `Content-Type`.
pub open spec fn text_response(status_code: u16, body: Seq<u8>) -> ResponseView {
    with_header(
        with_body(empty_response(status_code), body),
        "Content-Type".spec_bytes(),
        "text/plain".spec_bytes(),
    )
}

/// Builds a response with a plain-text body.
pub fn plain_text(status_code: u16, body: Vec<u8>) -> (out: HttpResponse)
    ensures
        out@ == text_response(status_code, body@),
{
    HttpResponse::new(status_code).with_body(body).with_header("Content-Type", "text/plain")
}

/// The response that reports a failure: 404 for a missing file, 400 with the
/// reason for a request that does not fit its route, 500 for the rest.
pub open spec fn failure_response(failure: Failure) -> ResponseView {
    match failure {
        Failure::FileNotFound(_) => text_response(404, "File not found".spec_bytes()),
        Failure::InvalidRequest(message) => text_response(400, encode_utf8(message)),
        Failure::IoError => text_response(500, "Internal Server Error".spec_bytes()),
        Failure::EncodingError(_) => text_response(500, "Encoding Error".spec_bytes()),
    }
}

/// Turns a handler's failure into the response that reports it.
pub fn error_response(error: HandleError) -> (out: HttpResponse)
    ensures
        out@ == failure_response(error@),
{
    match error {
        HandleError::FileNotFound(_) => plain_text(404, "File not found".as_bytes_vec()),
        HandleError::InvalidRequest(message) => plain_text(
            400,
            message.as_str().as_bytes_vec(),
        ),
        HandleError::IoError(_) => plain_text(500, "Internal Server Error".as_bytes_vec()),
        HandleError::EncodingError(_) => plain_text(500, "Encoding Error".as_bytes_vec()),
    }
}

/// The model of a handler's result.
pub open spec fn result_view(r: Result<HttpResponse, HandleError>) -> Result<
    ResponseView,
    Failure,
> {
    match r {
        Ok(response) => Ok(response@),
        Err(error) => Err(error@),
    }
}

/// The response that a handler's result stands for.
pub open spec fn response_of(r: Result<ResponseView, Failure>) -> ResponseView {
    match r {
        Ok(response) => response,
        Err(failure) => failure_response(failure),
    }
}

/// Turns a handler's result into the response to send.
pub fn into_response(r: Result<HttpResponse, HandleError>) -> (out: HttpResponse)
    ensures
        out@ == response_of(result_view(r)),
{
    match r {
        Ok(response) => response,
        Err(error) => error_response(error),
    }
}

/// Answers every request with a greeting.
pub struct RootHandler;

/// The greeting.
pub open spec fn root_response() -> ResponseView {
    text_response(200, "Welcome to the server!".spec_bytes())
}

impl RootHandler {
    /// Returns the greeting, whatever the request holds.
    pub fn handle(&self, request: &HttpRequest) -> (r: Result<HttpResponse, HandleError>)
        ensures
            result_view(r) == Ok::<ResponseView, Failure>(root_response()),
    {
        Ok(plain_text(200, "Welcome to the server!".as_bytes_vec()))
    }
}

/// Answers with the value of the request's `User-Agent` header.
pub struct UserAgentHandler;

/// What the user-agent handler returns: the header's value as a plain-text
/// body, or a failure where the request has no such header.
pub open spec fn user_agent_result(request: RequestView) -> Result<ResponseView, Failure> {
    match lookup(request.headers, "User-Agent".spec_bytes()) {
        Some(agent) => Ok(text_response(200, agent)),
        None => Err(Failure::InvalidRequest("No User-Agent header"@)),
    }
}

impl UserAgentHandler {
    /// Returns the value of the `User-Agent` header as the body.
    pub fn handle(&self, request: &HttpRequest) -> (r: Result<HttpResponse, HandleError>)
        ensures
            result_view(r) == user_agent_result(request@),
    {
        match request.headers.get("User-Agent".as_bytes()) {
            Some(agent) => {
                let body = copy_range(agent.as_slice(), 0, agent.len());
                assert(body@ =~= agent@);
                Ok(plain_text(200, body))
            },
            None => Err(HandleError::InvalidRequest(String::from_str("No User-Agent header"))),
        }
    }
}

/// Answers with the third piece of the path, gzip-encoded where the request
/// accepts that.
pub struct EchoHandler;

/// Whether the request's `Accept-Encoding` header names gzip, in any mix of
/// upper and lower case.
pub open spec fn accepts_gzip(headers: Seq<HeaderPair>) -> bool {
    match lookup(headers, "Accept-Encoding".spec_bytes()) {
        Some(encodings) => contains(lowercase(encodings), "gzip".spec_bytes()),
        None => false,
    }
}

/// The response that carries a gzip-encoded body.
pub open spec fn gzip_response(encoded: Seq<u8>) -> ResponseView {
    with_header(
        text_response(200, encoded),
        "Content-Encoding".spec_bytes(),
        "gzip".spec_bytes(),
    )
}

/// What the echo handler does with the compressor's result: the encoded
/// bytes go out as the body, a failure of the compressor is reported as an
/// encoding error.
pub open spec fn encoded_echo_result(encoded: Result<Seq<u8>, ()>) -> Result<
    ResponseView,
    Failure,
> {
    match encoded {
        Ok(bytes) => Ok(gzip_response(bytes)),
        Err(_) => Err(Failure::EncodingError("gzip encoding failed"@)),
    }
}

/// Whether `r` is a result that the echo handler may return for `request`.
/// Without a third piece in the path the request is invalid. A request that
/// does not accept gzip gets the piece back as it is. One that does gets its
/// gzip encoding, unless the compressor failed.
pub open spec fn echo_result(request: RequestView, r: Result<ResponseView, Failure>) -> bool {
    match segment(request.path, 2) {
        None => r == Err::<ResponseView, Failure>(
            Failure::InvalidRequest("No echo content provided"@),
        ),
        Some(content) => if accepts_gzip(request.headers) {
            r == encoded_echo_result(Ok(gzip_encoding(content))) || r == encoded_echo_result(
                Err(()),
            )
        } else {
            r == Ok::<ResponseView, Failure>(text_response(200, content))
        },
    }
}

impl EchoHandler {
    /// Whether the request accepts a gzip-encoded body.
    pub fn wants_gzip(request: &HttpRequest) -> (r: bool)
        ensures
            r == accepts_gzip(request@.headers),
    {
        match request.headers.get("Accept-Encoding".as_bytes()) {
            Some(encodings) => {
                let folded = to_lowercase(encodings.as_slice());
                contains_bytes(folded.as_slice(), "gzip".as_bytes())
            },
            None => false,
        }
    }

    /// Builds the echo handler's result from what the compressor returned.
    pub fn encoded(encoded: Result<Vec<u8>, std::io::Error>) -> (r: Result<
        HttpResponse,
        HandleError,
    >)
        ensures
            result_view(r) == encoded_echo_result(
                match encoded {
                    Ok(bytes) => Ok(bytes@),
                    Err(_) => Err(()),
                },
            ),
    {
        match encoded {
            Ok(bytes) => Ok(plain_text(200, bytes).with_header("Content-Encoding", "gzip")),
            Err(_) => Err(HandleError::EncodingError(String::from_str("gzip encoding failed"))),
        }
    }

    /// Returns the third piece of the path as the body, compressed where
    /// the request accepts gzip.
    pub fn handle(&self, request: &HttpRequest) -> (r: Result<HttpResponse, HandleError>)
        ensures
            echo_result(request@, result_view(r)),
    {
        match path_segment(request.path.as_slice(), 2) {
            None => Err(
                HandleError::InvalidRequest(String::from_str("No echo content provided")),
            ),
            Some(content) => {
                if Self::wants_gzip(request) {
                    Self::encoded(gzip_compress(content.as_slice()))
                } else {
                    Ok(plain_text(200, content))
                }
            },
        }
    }
}

/// What the file handler asks of the file system.
#[derive(Debug)]
pub enum FileOperation {
    /// Read the whole file `name` in `directory`.
    Read { directory: String, name: Vec<u8> },
    /// Create or truncate the file `name` in `directory` and write
    /// `contents` to it.
    Write { directory: String, name: Vec<u8>, contents: Vec<u8> },
}

/// The model of a `FileOperation`.
pub enum FileOperationView {
    Read { directory: Seq<char>, name: Seq<u8> },
    Write { directory: Seq<char>, name: Seq<u8>, contents: Seq<u8> },
}

impl View for FileOperation {
    type V = FileOperationView;

    open spec fn view(&self) -> FileOperationView {
        match self {
            FileOperation::Read { directory, name } => FileOperationView::Read {
                directory: directory@,
                name: name@,
            },
            FileOperation::Write { directory, name, contents } => FileOperationView::Write {
                directory: directory@,
                name: name@,
                contents: contents@,
            },
        }
    }
}

impl FileOperationView {
    /// The name of the file that the operation is about.
    pub open spec fn name(self) -> Seq<u8> {
        match self {
            FileOperationView::Read { name, .. } => name,
            FileOperationView::Write { name, .. } => name,
        }
    }
}

impl FileOperation {
    /// A copy of the name of the file that the operation is about.
    pub fn file_name(&self) -> (out: Vec<u8>)
        ensures
            out@ == self@.name(),
    {
        let name = match self {
            FileOperation::Read { name, .. } => name,
            FileOperation::Write { name, .. } => name,
        };
        let out = copy_range(name.as_slice(), 0, name.len());
        assert(out@ =~= name@);
        out
    }
}

/// How a file operation ended.
#[derive(Debug)]
pub enum FileOutcome {
    /// The file was read; these are its bytes.
    Contents(Vec<u8>),
    /// There is no such file.
    Missing,
    /// The file was written.
    Written,
    /// The file system failed in another way.
    Failed(std::io::Error),
}

/// The model of a `FileOutcome`.
pub enum FileOutcomeView {
    Contents(Seq<u8>),
    Missing,
    Written,
    Failed,
}

impl View for FileOutcome {
    type V = FileOutcomeView;

    open spec fn view(&self) -> FileOutcomeView {
        match self {
            FileOutcome::Contents(bytes) => FileOutcomeView::Contents(bytes@),
            FileOutcome::Missing => FileOutcomeView::Missing,
            FileOutcome::Written => FileOutcomeView::Written,
            FileOutcome::Failed(_) => FileOutcomeView::Failed,
        }
    }
}

/// Serves files from a directory: `GET` reads one, `POST` writes one.
pub struct FileHandler {
    pub base_dir: String,
}

/// The operation that a request to the file route asks for. The file is
/// named by the third piece of the path, taken as it is.
pub open spec fn file_operation(request: RequestView, directory: Seq<char>) -> Result<
    FileOperationView,
    Failure,
> {
    match segment(request.path, 2) {
        None => Err(Failure::InvalidRequest("No filename provided"@)),
        Some(name) => if request.method == "GET".spec_bytes() {
            Ok(FileOperationView::Read { directory, name })
        } else if request.method == "POST".spec_bytes() {
            Ok(FileOperationView::Write { directory, name, contents: request.body })
        } else {
            Err(Failure::InvalidRequest("Method not allowed"@))
        },
    }
}

/// The response to a file that was read.
pub open spec fn file_contents_response(contents: Seq<u8>) -> ResponseView {
    with_header(
        with_body(empty_response(200), contents),
        "Content-Type".spec_bytes(),
        "application/octet-stream".spec_bytes(),
    )
}

/// The response to a file that was written.
pub open spec fn file_created_response() -> ResponseView {
    with_body(
        with_header(empty_response(201), "Content-Type".spec_bytes(), "text/plain".spec_bytes()),
        "File created successfully".spec_bytes(),
    )
}

/// What the file handler returns once the operation on the file `name` has
/// ended with `outcome`.
pub open spec fn file_result(name: Seq<u8>, outcome: FileOutcomeView) -> Result<
    ResponseView,
    Failure,
> {
    match outcome {
        FileOutcomeView::Contents(contents) => Ok(file_contents_response(contents)),
        FileOutcomeView::Missing => Err(Failure::FileNotFound(name)),
        FileOutcomeView::Written => Ok(file_created_response()),
        FileOutcomeView::Failed => Err(Failure::IoError),
    }
}

impl FileHandler {
    /// Names the file operation that `request` asks for.
    pub fn handle(&self, request: HttpRequest) -> (r: Result<FileOperation, HandleError>)
        ensures
            match r {
                Ok(operation) => file_operation(request@, self.base_dir@) == Ok::<
                    FileOperationView,
                    Failure,
                >(operation@),
                Err(error) => file_operation(request@, self.base_dir@) == Err::<
                    FileOperationView,
                    Failure,
                >(error@),
            },
    {
        match path_segment(request.path.as_slice(), 2) {
            None => Err(HandleError::InvalidRequest(String::from_str("No filename provided"))),
            Some(name) => {
                if same_bytes(request.method.as_slice(), "GET".as_bytes()) {
                    Ok(FileOperation::Read { directory: self.base_dir.clone(), name })
                } else if same_bytes(request.method.as_slice(), "POST".as_bytes()) {
                    Ok(
                        FileOperation::Write {
                            directory: self.base_dir.clone(),
                            name,
                            contents: request.body,
                        },
                    )
                } else {
                    Err(HandleError::InvalidRequest(String::from_str("Method not allowed")))
                }
            },
        }
    }

    /// Builds the handler's result from the outcome of the operation on the
    /// file `name`.
    pub fn finish(name: Vec<u8>, outcome: FileOutcome) -> (r: Result<HttpResponse, HandleError>)
        ensures
            result_view(r) == file_result(name@, outcome@),
    {
        match outcome {
            FileOutcome::Contents(contents) => Ok(
                HttpResponse::new(200).with_body(contents).with_header(
                    "Content-Type",
                    "application/octet-stream",
                ),
            ),
            FileOutcome::Missing => Err(HandleError::FileNotFound(name)),
            FileOutcome::Written => Ok(
                HttpResponse::new(201).with_header("Content-Type", "text/plain").with_body(
                    "File created successfully".as_bytes_vec(),
                ),
            ),
            FileOutcome::Failed(error) => Err(HandleError::from(error)),
        }
    }
}

} // verus!
