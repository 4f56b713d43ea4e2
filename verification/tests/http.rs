use relay::http::extract_http_host;
use relay::http::find_header_end;
use relay::http::find_header_end_from;
use relay::http::http_error_response;
use relay::http::trim_ascii;

#[test]
fn extracts_and_normalizes_host() {
    let request =
        b"GET / HTTP/1.1\r\nHost: UtuWcUQps7w0.GetPioneer.Dev:443\r\nUser-Agent: test\r\n\r\n";
    assert_eq!(
        extract_http_host(request).as_deref(),
        Some("utuwcuqps7w0.getpioneer.dev")
    );
}

#[test]
fn header_ends_behind_its_empty_line() {
    assert_eq!(find_header_end(b"GET /\r\n\r\nbody"), Some(9));
    assert_eq!(find_header_end(b"\r\n\r\n"), Some(4));
    assert_eq!(find_header_end(b"\r\n\r\n\r\n\r\n"), Some(4));
    assert_eq!(find_header_end(b"\r\r\n\r\n"), Some(5));
    assert_eq!(find_header_end(b"GET /\r\n\r"), None);
    assert_eq!(find_header_end(b"GET /\n\n"), None);
    assert_eq!(find_header_end(b""), None);
}

#[test]
fn search_for_the_header_end_starts_where_it_is_told() {
    let buf = b"a\r\n\r\nb\r\n\r\n";
    assert_eq!(find_header_end_from(buf, 0), Some(5));
    assert_eq!(find_header_end_from(buf, 1), Some(5));
    assert_eq!(find_header_end_from(buf, 2), Some(10));
    assert_eq!(find_header_end_from(buf, 7), None);
    assert_eq!(find_header_end_from(buf, 10), None);
    assert_eq!(find_header_end_from(buf, 11), None);
    assert_eq!(find_header_end_from(buf, usize::MAX), None);
}

#[test]
fn looking_again_at_three_bytes_is_enough() {
    let request = b"GET /\r\n\r\n";
    for cut in 0..request.len() {
        assert_eq!(find_header_end(&request[..cut]), None);
        assert_eq!(find_header_end_from(request, cut.saturating_sub(3)), Some(9));
    }
}

#[test]
fn what_follows_the_header_does_not_matter() {
    let header = b"GET / HTTP/1.1\r\nHost: a\r\n\r\n".to_vec();
    let mut longer = header.clone();
    longer.extend_from_slice(b"Host: b\r\n\r\n");
    assert_eq!(find_header_end(&longer), find_header_end(&header));
    assert_eq!(extract_http_host(&longer), extract_http_host(&header));
    let late = b"GET / HTTP/1.1\r\nAccept: x\r\n\r\nHost: b\r\n\r\n";
    assert_eq!(extract_http_host(late), None);
}

#[test]
fn ascii_white_space_is_trimmed() {
    assert_eq!(trim_ascii(b" \t\r\n\x0cab c \n"), b"ab c");
    assert_eq!(trim_ascii(b"\x0bab\x0b"), b"\x0bab\x0b");
    assert_eq!(trim_ascii(b" \t "), b"");
    assert_eq!(trim_ascii(b""), b"");
}

#[test]
fn host_field_is_found_in_any_case_and_spacing() {
    for field in ["host:a", "HOST: a", "HoSt :a", " Host\t:\t a \t", "Host: a:1", "Host: A."] {
        let request = format!("GET / HTTP/1.1\r\nX: y\r\n{field}\r\n\r\n");
        assert_eq!(extract_http_host(request.as_bytes()).as_deref(), Some("a"), "{field}");
    }
}

#[test]
fn first_host_field_counts() {
    let request = b"GET / HTTP/1.1\r\nno colon\r\nHosts: c\r\nHost: a\r\nHost: b\r\n\r\n";
    assert_eq!(extract_http_host(request).as_deref(), Some("a"));
    let empty = b"GET / HTTP/1.1\r\nHost:\r\nHost: b\r\n\r\n";
    assert_eq!(extract_http_host(empty), None);
}

#[test]
fn request_line_is_no_field() {
    assert_eq!(extract_http_host(b"Host: a\r\n\r\n"), None);
    assert_eq!(extract_http_host(b"Host: a"), None);
    assert_eq!(extract_http_host(b""), None);
    assert_eq!(extract_http_host(b"\nHost: a").as_deref(), Some("a"));
}

#[test]
fn lines_may_end_with_a_line_feed_alone() {
    assert_eq!(
        extract_http_host(b"GET / HTTP/1.1\nHost: a\nX: y\n").as_deref(),
        Some("a")
    );
}

#[test]
fn host_that_is_not_text_is_refused() {
    assert_eq!(extract_http_host(b"GET / HTTP/1.1\r\nHost: \xff\r\nHost: a\r\n\r\n"), None);
    assert_eq!(
        extract_http_host(b"GET / HTTP/1.1\r\nHost: \xc3\xa9\r\n\r\n").as_deref(),
        Some("\u{e9}")
    );
}

#[test]
fn requests_without_a_host_are_told_apart() {
    assert_eq!(extract_http_host(b"GET / HTTP/1.1\r\nAccept: x\r\n\r\n"), None);
    assert_eq!(extract_http_host(b"GET / HTTP/1.1\r\nHost: [::1\r\n\r\n"), None);
}

#[test]
fn error_answer_announces_its_length() {
    assert_eq!(
        http_error_response(404, "Not Found"),
        "HTTP/1.1 404 Not Found\r\nConnection: close\r\nContent-Type: text/plain\r\n\
         Content-Length: 14\r\n\r\n404 Not Found\n"
    );
    assert_eq!(
        http_error_response(0, "\u{e9}"),
        "HTTP/1.1 0 \u{e9}\r\nConnection: close\r\nContent-Type: text/plain\r\n\
         Content-Length: 5\r\n\r\n0 \u{e9}\n"
    );
}

#[test]
fn error_answer_is_a_header_and_a_body() {
    for reason in ["Bad Gateway", "", "\u{e9}t\u{e9}"] {
        let answer = http_error_response(502, reason);
        let body = format!("502 {reason}\n");
        let end = find_header_end(answer.as_bytes()).unwrap();
        assert_eq!(&answer[end..], body);
        let field = format!("\r\nContent-Length: {}\r\n\r\n", body.len());
        assert!(answer[..end].ends_with(&field));
    }
}
