use http_server::{
    handle_connection, handle_get_files_request, handle_post_files_request, parse_request, route,
    Args, FileCreated, FileRead, ServeError, Step,
};

const NOT_FOUND: &str = "HTTP/1.1 404 NOT FOUND\r\n\r\n";

fn respond(raw: &[u8], directory: Option<&str>) -> String {
    match handle_connection(raw, directory.map(|d| d.to_string())) {
        Ok(Step::Respond(text)) => text,
        other => panic!("no response: {:?}", other),
    }
}

#[test]
fn get_root_is_a_bare_200() {
    assert_eq!(respond(b"GET / HTTP/1.1\r\n\r\n", None), "HTTP/1.1 200 OK\r\n\r\n");
    assert_eq!(respond(b"GET / HTTP/1.1\r\n\r\n", Some("/tmp")), "HTTP/1.1 200 OK\r\n\r\n");
}

#[test]
fn target_without_a_slash_counts_as_root() {
    assert_eq!(respond(b"GET", None), "HTTP/1.1 200 OK\r\n\r\n");
    assert_eq!(respond(b"GET index.html HTTP/1.1", None), "HTTP/1.1 200 OK\r\n\r\n");
}

#[test]
fn echo_reflects_the_second_segment() {
    assert_eq!(
        respond(b"GET /echo/abc HTTP/1.1\r\nHost: localhost\r\n\r\n", None),
        "HTTP/1.1 200 OK\r\nContent-Type: text/plain\r\nContent-Length: 3\r\n\r\nabc"
    );
}

#[test]
fn echo_keeps_slashes_of_its_argument() {
    let text = respond(b"GET /echo/a/b HTTP/1.1\r\n\r\n", None);
    assert!(text.ends_with("Content-Length: 3\r\n\r\na/b"));
}

#[test]
fn echo_without_argument_has_no_body_section() {
    let expected = "HTTP/1.1 200 OK\r\nContent-Type: text/plain\r\n\r\n";
    assert_eq!(respond(b"GET /echo HTTP/1.1\r\n\r\n", None), expected);
    assert_eq!(respond(b"GET /echo/ HTTP/1.1\r\n\r\n", None), expected);
}

#[test]
fn echo_advertises_gzip_when_accepted() {
    let raw = b"GET /echo/abc HTTP/1.1\r\nAccept-Encoding: gzip\r\n\r\n";
    assert_eq!(
        respond(raw, None),
        "HTTP/1.1 200 OK\r\nContent-Type: text/plain\r\nContent-Encoding: gzip\r\nContent-Length: 3\r\n\r\nabc"
    );
}

#[test]
fn echo_finds_gzip_among_the_listed_codings() {
    let expected = "HTTP/1.1 200 OK\r\nContent-Type: text/plain\r\nContent-Encoding: gzip\r\nContent-Length: 3\r\n\r\nabc";
    for value in ["gzip", "deflate, gzip", "gzip, deflate", "gzip,deflate", "br,  gzip ,deflate", "deflate,gzip"] {
        let raw = format!("GET /echo/abc HTTP/1.1\r\nAccept-Encoding: {}\r\nHost: x\r\n\r\n", value);
        assert_eq!(respond(raw.as_bytes(), None), expected, "{}", value);
    }
}

#[test]
fn echo_ignores_codings_it_does_not_offer() {
    let plain = respond(b"GET /echo/abc HTTP/1.1\r\n\r\n", None);
    assert_eq!(
        plain,
        "HTTP/1.1 200 OK\r\nContent-Type: text/plain\r\nContent-Length: 3\r\n\r\nabc"
    );
    for value in ["deflate", "deflate, br", "GZIP", "gzipped", "x-gzip", "gzip;q=0.5", "g zip", ",", "identity"] {
        let raw = format!("GET /echo/abc HTTP/1.1\r\nAccept-Encoding: {}\r\nHost: x\r\n\r\n", value);
        assert_eq!(respond(raw.as_bytes(), None), plain, "{}", value);
    }
    let raw = b"GET /echo/abc HTTP/1.1\r\naccept-encoding: gzip\r\n\r\n";
    assert_eq!(respond(raw, None), plain);
    let raw = b"GET /echo/abc HTTP/1.1\r\nAccept-Encoding\r\nHost: x\r\n\r\n";
    assert_eq!(respond(raw, None), plain);
}

#[test]
fn content_encoding_never_names_another_coding() {
    let raw = b"GET /echo/abc HTTP/1.1\r\nAccept-Encoding: deflate, gzip, br\r\n\r\n";
    let text = respond(raw, None);
    assert!(text.contains("\r\nContent-Encoding: gzip\r\n"));
    assert!(!text.contains("deflate"));
    assert!(!text.contains("br"));
}

#[test]
fn user_agent_is_reflected() {
    let raw = b"GET /user-agent HTTP/1.1\r\nHost: localhost\r\nUser-Agent: test-agent\r\n\r\n";
    assert_eq!(
        respond(raw, None),
        "HTTP/1.1 200 OK\r\nContent-Type: text/plain\r\nContent-Length: 10\r\n\r\ntest-agent"
    );
}

#[test]
fn missing_user_agent_counts_as_empty() {
    assert_eq!(
        respond(b"GET /user-agent HTTP/1.1\r\nHost: localhost\r\n\r\n", None),
        "HTTP/1.1 200 OK\r\nContent-Type: text/plain\r\n\r\n"
    );
}

#[test]
fn unknown_route_is_not_found() {
    assert_eq!(respond(b"GET /bogus HTTP/1.1\r\n\r\n", None), NOT_FOUND);
    assert_eq!(respond(b"GET /bogus/echo HTTP/1.1\r\n\r\n", Some("/tmp")), NOT_FOUND);
    assert_eq!(respond(b"GET /Echo/abc HTTP/1.1\r\n\r\n", None), NOT_FOUND);
    assert_eq!(respond(b"GET /echoes/abc HTTP/1.1\r\n\r\n", None), NOT_FOUND);
}

#[test]
fn post_answers_only_on_files() {
    assert_eq!(respond(b"POST / HTTP/1.1\r\n\r\nhello", Some("/tmp")), NOT_FOUND);
    assert_eq!(respond(b"POST /echo/abc HTTP/1.1\r\n\r\n", Some("/tmp")), NOT_FOUND);
    assert_eq!(respond(b"POST /user-agent HTTP/1.1\r\n\r\n", Some("/tmp")), NOT_FOUND);
}

#[test]
fn put_and_delete_are_not_found() {
    assert_eq!(respond(b"PUT /files/a.txt HTTP/1.1\r\n\r\nhello", Some("/tmp")), NOT_FOUND);
    assert_eq!(respond(b"DELETE /files/a.txt HTTP/1.1\r\n\r\n", Some("/tmp")), NOT_FOUND);
    assert_eq!(respond(b"PUT / HTTP/1.1\r\n\r\n", None), NOT_FOUND);
    assert_eq!(respond(b"DELETE /echo/abc HTTP/1.1\r\n\r\n", None), NOT_FOUND);
}

#[test]
fn files_without_a_directory_are_not_found() {
    assert_eq!(respond(b"GET /files/a.txt HTTP/1.1\r\n\r\n", None), NOT_FOUND);
    assert_eq!(respond(b"POST /files/a.txt HTTP/1.1\r\n\r\nhello", None), NOT_FOUND);
}

#[test]
fn get_files_asks_for_the_file() {
    let step = handle_connection(
        b"GET /files/missing.txt HTTP/1.1\r\n\r\n",
        Some("/srv/data".to_string()),
    );
    assert_eq!(
        step,
        Ok(Step::ReadFile { directory: "/srv/data".to_string(), name: "missing.txt".to_string() })
    );
    let step = handle_connection(b"GET /files HTTP/1.1\r\n\r\n", Some("/srv".to_string()));
    assert_eq!(step, Ok(Step::ReadFile { directory: "/srv".to_string(), name: String::new() }));
}

#[test]
fn missing_file_is_not_found() {
    assert_eq!(handle_get_files_request(FileRead::Missing), Ok(NOT_FOUND.to_string()));
}

#[test]
fn file_content_is_served_as_octet_stream() {
    assert_eq!(
        handle_get_files_request(FileRead::Content("hello".to_string())),
        Ok("HTTP/1.1 200 OK\r\nContent-Type: application/octet-stream\r\nContent-Length: 5\r\n\r\nhello"
            .to_string())
    );
}

#[test]
fn empty_file_is_served_without_body_section() {
    assert_eq!(
        handle_get_files_request(FileRead::Content(String::new())),
        Ok("HTTP/1.1 200 OK\r\nContent-Type: application/octet-stream\r\n\r\n".to_string())
    );
}

#[test]
fn failed_read_is_an_io_error() {
    assert_eq!(handle_get_files_request(FileRead::Failed), Err(ServeError::Io));
}

#[test]
fn post_files_asks_to_create_the_file() {
    let step = handle_connection(
        b"POST /files/new.txt HTTP/1.1\r\nContent-Length: 5\r\n\r\nhello",
        Some("/srv/data".to_string()),
    );
    assert_eq!(
        step,
        Ok(Step::CreateFile {
            directory: "/srv/data".to_string(),
            name: "new.txt".to_string(),
            content: "hello".to_string(),
        })
    );
}

#[test]
fn created_file_is_answered_with_201() {
    assert_eq!(
        handle_post_files_request(FileCreated::Created),
        Ok("HTTP/1.1 201 OK\r\nContent-Type: text/plain\r\nContent-Length: 7\r\n\r\nCreated"
            .to_string())
    );
}

#[test]
fn existing_file_is_not_overwritten() {
    assert_eq!(handle_post_files_request(FileCreated::Exists), Ok(NOT_FOUND.to_string()));
}

#[test]
fn failed_create_is_an_io_error() {
    assert_eq!(handle_post_files_request(FileCreated::Failed), Err(ServeError::Io));
}

#[test]
fn errors_end_the_connection_without_a_step() {
    assert_eq!(handle_connection(&[0xff, 0xfe], None), Err(ServeError::Encoding));
    assert_eq!(handle_connection(b"FETCH / HTTP/1.1\r\n\r\n", None), Err(ServeError::Parse));
    assert_eq!(handle_connection(b"", Some("/tmp".to_string())), Err(ServeError::Parse));
}

#[test]
fn repeated_get_gives_the_same_bytes() {
    let requests: [&[u8]; 5] = [
        b"GET / HTTP/1.1\r\n\r\n",
        b"GET /echo/abc HTTP/1.1\r\nAccept-Encoding: gzip\r\n\r\n",
        b"GET /user-agent HTTP/1.1\r\nUser-Agent: test-agent\r\n\r\n",
        b"GET /files/a.txt HTTP/1.1\r\n\r\n",
        b"GET /bogus HTTP/1.1\r\n\r\n",
    ];
    for raw in requests {
        let first = handle_connection(raw, Some("/srv".to_string()));
        let second = handle_connection(raw, Some("/srv".to_string()));
        assert_eq!(first, second);
        assert!(!matches!(first, Ok(Step::CreateFile { .. })));
    }
    assert_eq!(
        handle_get_files_request(FileRead::Content("same".to_string())),
        handle_get_files_request(FileRead::Content("same".to_string()))
    );
}

#[test]
fn route_takes_a_parsed_request() {
    let request = parse_request(b"GET /echo/hi HTTP/1.1\r\n\r\n").unwrap();
    assert_eq!(
        route(request, None),
        Step::Respond(
            "HTTP/1.1 200 OK\r\nContent-Type: text/plain\r\nContent-Length: 2\r\n\r\nhi"
                .to_string()
        )
    );
}

#[test]
fn args_hold_the_directory() {
    let args = Args { directory: Some("/srv".to_string()) };
    let step = handle_connection(b"GET /files/a HTTP/1.1\r\n\r\n", args.directory);
    assert_eq!(step, Ok(Step::ReadFile { directory: "/srv".to_string(), name: "a".to_string() }));
    let args = Args { directory: None };
    assert_eq!(args.directory, None);
}

fn head_and_body(text: &str) -> (Vec<&str>, &str) {
    let (head, body) = text.split_once("\r\n\r\n").expect("no empty line");
    (head.split("\r\n").collect(), body)
}

#[test]
fn every_response_falls_into_head_and_body_at_its_first_empty_line() {
    let (head, body) = head_and_body("HTTP/1.1 200 OK\r\n\r\n");
    assert_eq!((head, body), (vec!["HTTP/1.1 200 OK"], ""));
    let text = respond(b"GET /echo/a\r\n\r\nb HTTP/1.1", None);
    let (head, body) = head_and_body(&text);
    assert_eq!(head, vec!["HTTP/1.1 200 OK", "Content-Type: text/plain", "Content-Length: 1"]);
    assert_eq!(body, "a");
    let text = respond(b"GET /user-agent HTTP/1.1\r\nUser-Agent: caf\xc3\xa9\r\n\r\n", None);
    let (head, body) = head_and_body(&text);
    assert_eq!(head, vec!["HTTP/1.1 200 OK", "Content-Type: text/plain", "Content-Length: 5"]);
    assert_eq!(body, "caf\u{e9}");
    let text = respond(b"GET /user-agent HTTP/1.1\r\n\r\n", None);
    let (head, body) = head_and_body(&text);
    assert_eq!((head, body), (vec!["HTTP/1.1 200 OK", "Content-Type: text/plain"], ""));
    let content = "one\r\n\r\ntwo\r\n";
    let text = handle_get_files_request(FileRead::Content(content.to_string())).unwrap();
    let (head, body) = head_and_body(&text);
    assert_eq!(
        head,
        vec!["HTTP/1.1 200 OK", "Content-Type: application/octet-stream", "Content-Length: 12"]
    );
    assert_eq!(body, content);
    let text = handle_get_files_request(FileRead::Content(String::new())).unwrap();
    let (head, body) = head_and_body(&text);
    assert_eq!(head, vec!["HTTP/1.1 200 OK", "Content-Type: application/octet-stream"]);
    assert_eq!(body, "");
    let text = handle_post_files_request(FileCreated::Created).unwrap();
    let (head, body) = head_and_body(&text);
    assert_eq!(head, vec!["HTTP/1.1 201 OK", "Content-Type: text/plain", "Content-Length: 7"]);
    assert_eq!(body, "Created");
    let (head, body) = head_and_body(NOT_FOUND);
    assert_eq!((head, body), (vec!["HTTP/1.1 404 NOT FOUND"], ""));
}
