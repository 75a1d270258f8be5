use http_server::{response_with_404, response_with_content};

#[test]
fn not_found_is_the_bare_status_line() {
    assert_eq!(response_with_404(), "HTTP/1.1 404 NOT FOUND\r\n\r\n");
}

#[test]
fn content_is_framed_with_its_length() {
    assert_eq!(
        response_with_content("abc", "Content-Type: text/plain", 200),
        "HTTP/1.1 200 OK\r\nContent-Type: text/plain\r\nContent-Length: 3\r\n\r\nabc"
    );
}

#[test]
fn header_block_is_taken_as_it_stands() {
    assert_eq!(
        response_with_content("abc", "Content-Type: text/plain\r\n", 200),
        "HTTP/1.1 200 OK\r\nContent-Type: text/plain\r\n\r\nContent-Length: 3\r\n\r\nabc"
    );
}

#[test]
fn empty_content_has_no_body_section() {
    assert_eq!(response_with_content("", "", 200), "HTTP/1.1 200 OK\r\n\r\n");
    assert_eq!(
        response_with_content("", "Content-Type: text/plain", 200),
        "HTTP/1.1 200 OK\r\nContent-Type: text/plain\r\n\r\n"
    );
    assert_eq!(
        response_with_content("", "A: b\r\nC: d", 200),
        "HTTP/1.1 200 OK\r\nA: b\r\nC: d\r\n\r\n"
    );
    assert_eq!(response_with_content("", "\n", 200), "HTTP/1.1 200 OK\r\n\n\r\n\r\n");
    assert_eq!(response_with_content("", "\r\n", 200), "HTTP/1.1 200 OK\r\n\r\n\r\n");
    assert_eq!(
        response_with_content("", "Content-Type: text/plain\r\n", 200),
        "HTTP/1.1 200 OK\r\nContent-Type: text/plain\r\n\r\n"
    );
}

#[test]
fn created_keeps_the_reason_ok() {
    assert_eq!(
        response_with_content("Created", "Content-Type: text/plain", 201),
        "HTTP/1.1 201 OK\r\nContent-Type: text/plain\r\nContent-Length: 7\r\n\r\nCreated"
    );
}

#[test]
fn content_length_counts_bytes_not_characters() {
    let response = response_with_content("h\u{e9}llo \u{4e16}\u{754c}", "", 200);
    assert_eq!(
        response,
        "HTTP/1.1 200 OK\r\n\r\nContent-Length: 13\r\n\r\nh\u{e9}llo \u{4e16}\u{754c}"
    );
}

#[test]
fn content_length_of_a_long_body_has_all_its_digits() {
    let body = "x".repeat(1024);
    let response = response_with_content(&body, "", 200);
    assert!(response.starts_with("HTTP/1.1 200 OK\r\n\r\nContent-Length: 1024\r\n\r\n"));
    assert!(response.ends_with(&body));
    let body = "y".repeat(100);
    let response = response_with_content(&body, "", 200);
    assert!(response.starts_with("HTTP/1.1 200 OK\r\n\r\nContent-Length: 100\r\n\r\n"));
}

#[test]
fn status_codes_are_written_in_decimal() {
    assert!(response_with_content("a", "", 0).starts_with("HTTP/1.1 0 OK\r\n"));
    assert!(response_with_content("a", "", 7).starts_with("HTTP/1.1 7 OK\r\n"));
    assert!(response_with_content("a", "", 255).starts_with("HTTP/1.1 255 OK\r\n"));
}
