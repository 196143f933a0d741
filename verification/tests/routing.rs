use mini_http::config::ServerConfig;
use mini_http::message::{HttpRequest, HttpResponse};
use mini_http::handlers::{
    error_response, into_response, plain_text, EchoHandler, FileHandler, FileOperation,
    FileOutcome, HandleError, RootHandler, UserAgentHandler,
};
use mini_http::path::path_segment;
use mini_http::routing::{complete_file_request, handle_request, route, Handling, Route};

fn header<'a>(response: &'a HttpResponse, name: &str) -> Option<&'a [u8]> {
    response.headers.get(name.as_bytes()).map(|v| v.as_slice())
}

fn respond(request: HttpRequest) -> HttpResponse {
    match handle_request(request, &ServerConfig::default()) {
        Handling::Complete(response) => response,
        Handling::NeedsFile(operation) => panic!("unexpected file operation {:?}", operation),
    }
}

fn gunzip(data: &[u8]) -> Vec<u8> {
    let mut decoder = async_compression::tokio::bufread::GzipDecoder::new(data);
    let mut out = Vec::new();
    futures::executor::block_on(tokio::io::AsyncReadExt::read_to_end(&mut decoder, &mut out))
        .unwrap();
    out
}

/// A file system in memory: performs an operation and reports its outcome.
fn perform(files: &mut Vec<(Vec<u8>, Vec<u8>)>, operation: &FileOperation) -> FileOutcome {
    match operation {
        FileOperation::Read { name, .. } => match files.iter().find(|(n, _)| n == name) {
            Some((_, contents)) => FileOutcome::Contents(contents.clone()),
            None => FileOutcome::Missing,
        },
        FileOperation::Write { name, contents, .. } => {
            files.retain(|(n, _)| n != name);
            files.push((name.clone(), contents.clone()));
            FileOutcome::Written
        }
    }
}

fn serve(files: &mut Vec<(Vec<u8>, Vec<u8>)>, request: HttpRequest) -> HttpResponse {
    match handle_request(request, &ServerConfig::default()) {
        Handling::Complete(response) => response,
        Handling::NeedsFile(operation) => {
            let outcome = perform(files, &operation);
            complete_file_request(operation.file_name(), outcome)
        }
    }
}

#[test]
fn root_returns_the_greeting() {
    let response = respond(HttpRequest::new("GET", "/"));
    assert_eq!(response.status_code, 200);
    assert_eq!(response.body, b"Welcome to the server!".to_vec());
    assert_eq!(header(&response, "Content-Type"), Some(&b"text/plain"[..]));
    assert_eq!(header(&response, "Content-Length"), Some(&b"22"[..]));
}

#[test]
fn root_ignores_headers_method_and_body() {
    let request = HttpRequest::new("DELETE", "/")
        .with_header("Accept-Encoding", "gzip")
        .with_header("User-Agent", "x")
        .with_body(b"ignored".to_vec());
    let response = respond(request);
    assert_eq!(response.status_code, 200);
    assert_eq!(response.body, b"Welcome to the server!".to_vec());
    assert_eq!(header(&response, "Content-Encoding"), None);
}

#[test]
fn root_serves_paths_without_a_first_segment() {
    for path in ["", "/", "//", "//echo", "no-slash"] {
        let response = respond(HttpRequest::new("GET", path));
        assert_eq!(response.status_code, 200);
        assert_eq!(response.body, b"Welcome to the server!".to_vec());
    }
}

#[test]
fn echo_returns_the_text() {
    let response = respond(HttpRequest::new("GET", "/echo/hello"));
    assert_eq!(response.status_code, 200);
    assert_eq!(header(&response, "Content-Type"), Some(&b"text/plain"[..]));
    assert_eq!(header(&response, "Content-Length"), Some(&b"5"[..]));
    assert_eq!(header(&response, "Content-Encoding"), None);
    assert_eq!(response.body, b"hello".to_vec());
    assert_eq!(
        response.to_bytes(),
        b"HTTP/1.1 200 OK\r\nContent-Length: 5\r\nContent-Type: text/plain\r\n\r\nhello".to_vec()
    );
}

#[test]
fn echo_takes_the_third_piece_only() {
    assert_eq!(respond(HttpRequest::new("GET", "/echo/a/b")).body, b"a".to_vec());
    let empty = respond(HttpRequest::new("GET", "/echo/"));
    assert_eq!(empty.status_code, 200);
    assert!(empty.body.is_empty());
    assert_eq!(header(&empty, "Content-Length"), Some(&b"0"[..]));
}

#[test]
fn echo_serves_any_method() {
    let response = respond(HttpRequest::new("POST", "/echo/x"));
    assert_eq!(response.status_code, 200);
    assert_eq!(response.body, b"x".to_vec());
}

#[test]
fn echo_with_gzip_compresses_the_text() {
    let request = HttpRequest::new("GET", "/echo/hello").with_header("Accept-Encoding", "gzip");
    let response = respond(request);
    assert_eq!(response.status_code, 200);
    assert_eq!(header(&response, "Content-Encoding"), Some(&b"gzip"[..]));
    assert_eq!(header(&response, "Content-Type"), Some(&b"text/plain"[..]));
    assert_eq!(
        header(&response, "Content-Length"),
        Some(response.body.len().to_string().as_bytes())
    );
    assert_ne!(response.body, b"hello".to_vec());
    assert_eq!(&response.body[..3], &[0x1f, 0x8b, 0x08]);
    assert_eq!(gunzip(&response.body), b"hello".to_vec());
}

#[test]
fn echo_gzip_is_the_same_every_time() {
    let first = respond(HttpRequest::new("GET", "/echo/hello").with_header("Accept-Encoding", "gzip"));
    let second = respond(HttpRequest::new("GET", "/echo/hello").with_header("Accept-Encoding", "gzip"));
    assert_eq!(first.body, second.body);
}

#[test]
fn echo_gzip_of_a_longer_text() {
    let text = "abcdefghij".repeat(500);
    let path = format!("/echo/{}", text);
    let response = respond(HttpRequest::new("GET", &path).with_header("Accept-Encoding", "gzip"));
    assert!(response.body.len() < text.len());
    assert_eq!(gunzip(&response.body), text.into_bytes());
}

#[test]
fn accept_encoding_is_matched_in_any_case_and_position() {
    for value in ["GZIP", "deflate, GzIp;q=0.8", "xgzipx"] {
        let request = HttpRequest::new("GET", "/echo/hi").with_header("Accept-Encoding", value);
        assert!(EchoHandler::wants_gzip(&request));
        let response = respond(request);
        assert_eq!(header(&response, "Content-Encoding"), Some(&b"gzip"[..]));
        assert_eq!(gunzip(&response.body), b"hi".to_vec());
    }
}

#[test]
fn other_encodings_are_not_gzip() {
    for value in ["", "deflate", "br, identity", "g zip", "gzi"] {
        let request = HttpRequest::new("GET", "/echo/hi").with_header("Accept-Encoding", value);
        assert!(!EchoHandler::wants_gzip(&request));
        assert_eq!(respond(request).body, b"hi".to_vec());
    }
    let lower = HttpRequest::new("GET", "/echo/hi").with_header("accept-encoding", "gzip");
    assert!(!EchoHandler::wants_gzip(&lower));
}

#[test]
fn gzip_detection_agrees_with_lowercasing_the_text() {
    let samples = [
        "gzip", "GZIP", "GzIp", "deflate", "",
        "gz\u{130}p", "GZ\u{130}P", "g\u{17f}zip", "\u{212a}gzip", "gzi\u{307}p",
        "\u{ff47}zip", "x-gzip;q=1", "gzi p", "GZI\u{a0}P", "br, \u{c9}GZIP\u{e9}",
    ];
    for sample in samples {
        let request = HttpRequest::new("GET", "/echo/x").with_header("Accept-Encoding", sample);
        assert_eq!(
            EchoHandler::wants_gzip(&request),
            sample.to_lowercase().contains("gzip"),
            "{:?}",
            sample
        );
    }
}

#[test]
fn echo_without_content_is_invalid() {
    let result = EchoHandler.handle(&HttpRequest::new("GET", "/echo"));
    assert!(matches!(result, Err(HandleError::InvalidRequest(ref m)) if m == "No echo content provided"));
    let response = respond(HttpRequest::new("GET", "/echo"));
    assert_eq!(response.status_code, 400);
    assert_eq!(response.body, b"No echo content provided".to_vec());
    assert_eq!(header(&response, "Content-Type"), Some(&b"text/plain"[..]));
}

#[test]
fn encoded_reports_a_failed_compressor() {
    let failed = EchoHandler::encoded(Err(std::io::Error::new(std::io::ErrorKind::Other, "boom")));
    assert!(matches!(failed, Err(HandleError::EncodingError(_))));
    let response = into_response(failed);
    assert_eq!(response.status_code, 500);
    assert_eq!(response.body, b"Encoding Error".to_vec());
    let fine = EchoHandler::encoded(Ok(vec![1, 2, 3])).unwrap();
    assert_eq!(fine.body, vec![1, 2, 3]);
    assert_eq!(header(&fine, "Content-Encoding"), Some(&b"gzip"[..]));
    assert_eq!(header(&fine, "Content-Length"), Some(&b"3"[..]));
}

#[test]
fn user_agent_returns_the_header_value() {
    let request = HttpRequest::new("GET", "/user-agent").with_header("User-Agent", "test-client/1");
    let response = respond(request);
    assert_eq!(response.status_code, 200);
    assert_eq!(response.body, b"test-client/1".to_vec());
    assert_eq!(header(&response, "Content-Type"), Some(&b"text/plain"[..]));
    assert_eq!(header(&response, "Content-Length"), Some(&b"13"[..]));
}

#[test]
fn user_agent_without_header_is_invalid() {
    let result = UserAgentHandler.handle(&HttpRequest::new("GET", "/user-agent"));
    assert!(matches!(result, Err(HandleError::InvalidRequest(ref m)) if m == "No User-Agent header"));
    let response = respond(HttpRequest::new("GET", "/user-agent").with_header("user-agent", "x"));
    assert_eq!(response.status_code, 400);
    assert_eq!(response.body, b"No User-Agent header".to_vec());
}

#[test]
fn post_then_get_returns_the_file() {
    let mut files = Vec::new();
    let posted = serve(&mut files, HttpRequest::new("POST", "/files/a.txt").with_body(b"xyz".to_vec()));
    assert_eq!(posted.status_code, 201);
    assert_eq!(posted.body, b"File created successfully".to_vec());
    assert_eq!(header(&posted, "Content-Type"), Some(&b"text/plain"[..]));
    let got = serve(&mut files, HttpRequest::new("GET", "/files/a.txt"));
    assert_eq!(got.status_code, 200);
    assert_eq!(got.body, b"xyz".to_vec());
    assert_eq!(header(&got, "Content-Type"), Some(&b"application/octet-stream"[..]));
    assert_eq!(header(&got, "Content-Length"), Some(&b"3"[..]));
}

#[test]
fn post_replaces_an_existing_file() {
    let mut files = Vec::new();
    serve(&mut files, HttpRequest::new("POST", "/files/a.txt").with_body(b"first".to_vec()));
    serve(&mut files, HttpRequest::new("POST", "/files/a.txt").with_body(b"2".to_vec()));
    assert_eq!(serve(&mut files, HttpRequest::new("GET", "/files/a.txt")).body, b"2".to_vec());
}

#[test]
fn get_of_a_missing_file_is_not_found() {
    let mut files = Vec::new();
    let response = serve(&mut files, HttpRequest::new("GET", "/files/does-not-exist.bin"));
    assert_eq!(response.status_code, 404);
    assert_eq!(response.body, b"File not found".to_vec());
}

#[test]
fn file_handler_names_the_operation() {
    let handler = FileHandler { base_dir: "/srv/data".to_string() };
    match handler.handle(HttpRequest::new("GET", "/files/a.txt")).unwrap() {
        FileOperation::Read { directory, name } => {
            assert_eq!(directory, "/srv/data");
            assert_eq!(name, b"a.txt".to_vec());
        }
        other => panic!("unexpected {:?}", other),
    }
    match handler.handle(HttpRequest::new("POST", "/files/b/c").with_body(b"xyz".to_vec())).unwrap() {
        FileOperation::Write { directory, name, contents } => {
            assert_eq!(directory, "/srv/data");
            assert_eq!(name, b"b".to_vec());
            assert_eq!(contents, b"xyz".to_vec());
        }
        other => panic!("unexpected {:?}", other),
    }
}

#[test]
fn file_route_uses_the_configured_directory() {
    let config = ServerConfig::from_settings(None, None, None, Some("/tmp/files".to_string()));
    match handle_request(HttpRequest::new("GET", "/files/x"), &config) {
        Handling::NeedsFile(FileOperation::Read { directory, name }) => {
            assert_eq!(directory, "/tmp/files");
            assert_eq!(name, b"x".to_vec());
        }
        other => panic!("unexpected {:?}", other),
    }
}

#[test]
fn file_without_name_is_invalid() {
    let handler = FileHandler { base_dir: "./".to_string() };
    let result = handler.handle(HttpRequest::new("GET", "/files"));
    assert!(matches!(result, Err(HandleError::InvalidRequest(ref m)) if m == "No filename provided"));
    let response = respond(HttpRequest::new("POST", "/files"));
    assert_eq!(response.status_code, 400);
    assert_eq!(response.body, b"No filename provided".to_vec());
}

#[test]
fn file_with_other_method_is_invalid() {
    for method in ["PUT", "DELETE", "get", "HEAD", ""] {
        let response = respond(HttpRequest::new(method, "/files/a.txt"));
        assert_eq!(response.status_code, 400);
        assert_eq!(response.body, b"Method not allowed".to_vec());
    }
}

#[test]
fn file_outcomes_map_to_results() {
    let read = FileHandler::finish(b"a".to_vec(), FileOutcome::Contents(vec![1, 2])).unwrap();
    assert_eq!(read.status_code, 200);
    assert_eq!(read.body, vec![1, 2]);
    let missing = FileHandler::finish(b"a".to_vec(), FileOutcome::Missing);
    assert!(matches!(missing, Err(HandleError::FileNotFound(ref n)) if n == b"a"));
    let written = FileHandler::finish(b"a".to_vec(), FileOutcome::Written).unwrap();
    assert_eq!(written.status_code, 201);
    assert_eq!(
        written.to_bytes(),
        b"HTTP/1.1 201 Unknown\r\nContent-Type: text/plain\r\nContent-Length: 25\r\n\r\nFile created successfully".to_vec()
    );
    let failed = FileHandler::finish(
        b"a".to_vec(),
        FileOutcome::Failed(std::io::Error::new(std::io::ErrorKind::PermissionDenied, "no")),
    );
    assert!(matches!(failed, Err(HandleError::IoError(_))));
}

#[test]
fn file_system_failure_is_a_server_error() {
    let outcome = FileOutcome::Failed(std::io::Error::new(std::io::ErrorKind::Other, "disk"));
    let response = complete_file_request(b"a.txt".to_vec(), outcome);
    assert_eq!(response.status_code, 500);
    assert_eq!(response.body, b"Internal Server Error".to_vec());
}

#[test]
fn unknown_route_is_not_found() {
    for path in ["/nope", "/echoes/x", "/Echo/x", "/files2", "/user-agent2", "x/y"] {
        let response = respond(HttpRequest::new("GET", path));
        assert_eq!(response.status_code, 404);
        assert_eq!(response.body, b"Not Found".to_vec());
        assert_eq!(header(&response, "Content-Type"), Some(&b"text/plain"[..]));
    }
}

#[test]
fn error_response_maps_each_kind() {
    let not_found = error_response(HandleError::FileNotFound(b"a".to_vec()));
    assert_eq!((not_found.status_code, not_found.body), (404, b"File not found".to_vec()));
    let invalid = error_response(HandleError::InvalidRequest("why".to_string()));
    assert_eq!((invalid.status_code, invalid.body), (400, b"why".to_vec()));
    let io = error_response(HandleError::from(std::io::Error::new(std::io::ErrorKind::Other, "x")));
    assert_eq!((io.status_code, io.body), (500, b"Internal Server Error".to_vec()));
    let encoding = error_response(HandleError::EncodingError("x".to_string()));
    assert_eq!((encoding.status_code, encoding.body), (500, b"Encoding Error".to_vec()));
}

#[test]
fn error_message_keeps_non_ascii_text() {
    let response = error_response(HandleError::InvalidRequest("caf\u{e9}".to_string()));
    assert_eq!(response.body, "caf\u{e9}".as_bytes().to_vec());
    assert_eq!(header(&response, "Content-Length"), Some(&b"5"[..]));
}

#[test]
fn route_goes_by_the_first_segment() {
    assert_eq!(route(b""), Route::Root);
    assert_eq!(route(b"/"), Route::Root);
    assert_eq!(route(b"abc"), Route::Root);
    assert_eq!(route(b"//x"), Route::Root);
    assert_eq!(route(b"/echo"), Route::Echo);
    assert_eq!(route(b"/echo/x/y"), Route::Echo);
    assert_eq!(route(b"x/echo"), Route::Echo);
    assert_eq!(route(b"/user-agent"), Route::UserAgent);
    assert_eq!(route(b"/files/a"), Route::Files);
    assert_eq!(route(b"/other"), Route::Unknown);
    assert_eq!(route(b"/ECHO"), Route::Unknown);
}

#[test]
fn path_segment_cuts_at_slashes() {
    assert_eq!(path_segment(b"/echo/hello", 0), Some(Vec::new()));
    assert_eq!(path_segment(b"/echo/hello", 1), Some(b"echo".to_vec()));
    assert_eq!(path_segment(b"/echo/hello", 2), Some(b"hello".to_vec()));
    assert_eq!(path_segment(b"/echo/hello", 3), None);
    assert_eq!(path_segment(b"/echo/", 2), Some(Vec::new()));
    assert_eq!(path_segment(b"", 0), Some(Vec::new()));
    assert_eq!(path_segment(b"", 1), None);
    assert_eq!(path_segment(b"a//b", 1), Some(Vec::new()));
    assert_eq!(path_segment(b"a//b", 2), Some(b"b".to_vec()));
}

#[test]
fn handlers_answer_directly() {
    let root = RootHandler.handle(&HttpRequest::new("GET", "/anything")).unwrap();
    assert_eq!(root.body, b"Welcome to the server!".to_vec());
    let text = plain_text(418, b"tea".to_vec());
    assert_eq!(
        text.to_bytes(),
        b"HTTP/1.1 418 Unknown\r\nContent-Length: 3\r\nContent-Type: text/plain\r\n\r\ntea".to_vec()
    );
}

#[test]
fn every_built_in_response_declares_its_body_length() {
    let mut files = vec![(b"f".to_vec(), b"data".to_vec())];
    let requests = vec![
        HttpRequest::new("GET", "/"),
        HttpRequest::new("GET", "/echo/abc"),
        HttpRequest::new("GET", "/echo/abc").with_header("Accept-Encoding", "gzip"),
        HttpRequest::new("GET", "/echo"),
        HttpRequest::new("GET", "/user-agent").with_header("User-Agent", "ua"),
        HttpRequest::new("GET", "/user-agent"),
        HttpRequest::new("GET", "/files/f"),
        HttpRequest::new("GET", "/files/g"),
        HttpRequest::new("POST", "/files/h").with_body(b"1".to_vec()),
        HttpRequest::new("PUT", "/files/h"),
        HttpRequest::new("GET", "/unknown"),
    ];
    for request in requests {
        let response = serve(&mut files, request);
        assert_eq!(
            header(&response, "Content-Length"),
            Some(response.body.len().to_string().as_bytes())
        );
    }
}
