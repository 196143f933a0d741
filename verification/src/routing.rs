//! The request router.
//!
//! A request is dispatched on the first piece of its path after the leading
//! slash. The router returns the response, or the file operation that has
//! to be performed before there is one.

use vstd::prelude::*;
use vstd::string::*;
use crate::config::ServerConfig;
use crate::handlers::{
    echo_result, error_response, failure_response, file_operation, file_result, into_response,
    plain_text, response_of, result_view, root_response, text_response, user_agent_result,
    EchoHandler, Failure, FileHandler, FileOperation, FileOperationView, FileOutcome,
    RootHandler, UserAgentHandler,
};
use crate::message::{HttpRequest, HttpResponse, RequestView, ResponseView};
use crate::path::{path_segment, segment};
use crate::text::same_bytes;

verus! {

/// Where a request goes.
#[derive(Debug, Clone, Copy, PartialEq, Eq, Structural)]
pub enum Route {
    Root,
    Echo,
    UserAgent,
    Files,
    Unknown,
}

/// The route of a path, by its first segment after the leading slash: none
/// or an empty one is the root, `echo`, `user-agent` and `files` name their
/// handlers, and anything else is unknown.
pub open spec fn route_of(path: Seq<u8>) -> Route {
    match segment(path, 1) {
        None => Route::Root,
        Some(first) => if first.len() == 0 {
            Route::Root
        } else if first == "echo".spec_bytes() {
            Route::Echo
        } else if first == "user-agent".spec_bytes() {
            Route::UserAgent
        } else if first == "files".spec_bytes() {
            Route::Files
        } else {
            Route::Unknown
        },
    }
}

/// Picks the route of a path.
pub fn route(path: &[u8]) -> (r: Route)
    ensures
        r == route_of(path@),
{
    match path_segment(path, 1) {
        None => Route::Root,
        Some(first) => {
            if first.len() == 0 {
                Route::Root
            } else if same_bytes(first.as_slice(), "echo".as_bytes()) {
                Route::Echo
            } else if same_bytes(first.as_slice(), "user-agent".as_bytes()) {
                Route::UserAgent
            } else if same_bytes(first.as_slice(), "files".as_bytes()) {
                Route::Files
            } else {
                Route::Unknown
            }
        },
    }
}

/// The response to a path that no handler serves.
pub open spec fn not_found_response() -> ResponseView {
    text_response(404, "Not Found".spec_bytes())
}

/// What the router has decided about a request.
#[derive(Debug)]
pub enum Handling {
    /// The response is ready.
    Complete(HttpResponse),
    /// A file operation has to be performed first; its outcome goes to
    /// `complete_file_request`.
    NeedsFile(FileOperation),
}

/// The model of a `Handling`.
pub enum HandlingView {
    Complete(ResponseView),
    NeedsFile(FileOperationView),
}

impl View for Handling {
    type V = HandlingView;

    open spec fn view(&self) -> HandlingView {
        match self {
            Handling::Complete(response) => HandlingView::Complete(response@),
            Handling::NeedsFile(operation) => HandlingView::NeedsFile(operation@),
        }
    }
}

/// Whether `handling` is what the router may decide for `request` when
/// files are served from `directory`.
///
/// The decision is fixed by the request, but for one case: an echo request
/// that accepts gzip is answered with the encoded body or, had the
/// compressor failed, with the report of an encoding error.
pub open spec fn handled(
    request: RequestView,
    directory: Seq<char>,
    handling: HandlingView,
) -> bool {
    match route_of(request.path) {
        Route::Root => handling == HandlingView::Complete(root_response()),
        Route::Echo => exists|r: Result<ResponseView, Failure>|
            #[trigger] echo_result(request, r) && handling == HandlingView::Complete(
                response_of(r),
            ),
        Route::UserAgent => handling == HandlingView::Complete(
            response_of(user_agent_result(request)),
        ),
        Route::Files => match file_operation(request, directory) {
            Ok(operation) => handling == HandlingView::NeedsFile(operation),
            Err(failure) => handling == HandlingView::Complete(failure_response(failure)),
        },
        Route::Unknown => handling == HandlingView::Complete(not_found_response()),
    }
}

/// Routes `request` to its handler and returns the response, or the file
/// operation that has to be performed before there is one.
pub fn handle_request(request: HttpRequest, config: &ServerConfig) -> (handling: Handling)
    ensures
        handled(request@, config.base_dir@, handling@),
{
    match route(request.path.as_slice()) {
        Route::Root => Handling::Complete(into_response(RootHandler.handle(&request))),
        Route::Echo => {
            let r = EchoHandler.handle(&request);
            assert(echo_result(request@, result_view(r)));
            Handling::Complete(into_response(r))
        },
        Route::UserAgent => Handling::Complete(into_response(UserAgentHandler.handle(&request))),
        Route::Files => {
            let handler = FileHandler { base_dir: config.base_dir.clone() };
            match handler.handle(request) {
                Ok(operation) => Handling::NeedsFile(operation),
                Err(error) => Handling::Complete(error_response(error)),
            }
        },
        Route::Unknown => Handling::Complete(plain_text(404, "Not Found".as_bytes_vec())),
    }
}

/// Builds the response to a request for the file `name` from the outcome of
/// its operation.
pub fn complete_file_request(name: Vec<u8>, outcome: FileOutcome) -> (out: HttpResponse)
    ensures
        out@ == response_of(file_result(name@, outcome@)),
{
    into_response(FileHandler::finish(name, outcome))
}

} // verus!
