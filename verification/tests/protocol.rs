//! The request line, the header parser, and the response encoders.
use formrelay::http::primitives::{
    read_headers, HttpError, HttpMethod, HttpResponse, HttpStatus,
};
use formrelay::http::read_request;
use formrelay::strutil::lower;

fn lines(v: &[&str]) -> Vec<String> {
    v.iter().map(|s| s.to_string()).collect()
}

#[test]
fn request_line_tokens() {
    let (method, path) = read_request("GET /index.html HTTP/1.1").unwrap();
    assert_eq!(method, "GET");
    assert_eq!(path, "/index.html");
}

#[test]
fn request_line_extra_whitespace() {
    let (method, path) = read_request("  POST   /submit   HTTP/1.0  ").unwrap();
    assert_eq!(method, "POST");
    assert_eq!(path, "/submit");
}

#[test]
fn request_line_too_short() {
    assert_eq!(read_request("GET /"), Err(HttpError::MalformedRequestLine));
}

#[test]
fn request_line_bad_protocol() {
    assert_eq!(
        read_request("GET / SMTP/1.1"),
        Err(HttpError::MalformedRequestLine)
    );
}

#[test]
fn method_decode_case_insensitive() {
    assert_eq!(HttpMethod::decode("GeT"), Some(HttpMethod::Get));
    assert_eq!(HttpMethod::decode("post"), Some(HttpMethod::Post));
    assert_eq!(HttpMethod::decode("PUT"), None);
}

#[test]
fn lower_folds_ascii_uppercase() {
    assert_eq!(lower("AbC-Xyz"), "abc-xyz");
    assert_eq!(lower(""), "");
}

#[test]
fn headers_lowercase_and_trim() {
    let ls = lines(&["Content-Type:  text/plain  ", "Host: example", "", "body"]);
    let (headers, next) = read_headers(&ls, 0).unwrap();
    assert_eq!(next, 3);
    assert_eq!(headers.get("content-type").unwrap(), "text/plain");
    assert_eq!(headers.get("host").unwrap(), "example");
    assert!(headers.get("Content-Type").is_none());
}

#[test]
fn headers_value_keeps_later_colons() {
    let ls = lines(&["Host: example.com:8080", ""]);
    let (headers, _) = read_headers(&ls, 0).unwrap();
    assert_eq!(headers.get("host").unwrap(), "example.com:8080");
}

#[test]
fn headers_last_occurrence_wins() {
    let ls = lines(&["X-Tag: one", "X-Tag: two", ""]);
    let (headers, _) = read_headers(&ls, 0).unwrap();
    assert_eq!(headers.get("x-tag").unwrap(), "two");
}

#[test]
fn headers_case_insensitive_lookup() {
    // The same request written with `Content-Type` and with `content-type`
    // decodes identically.
    let upper = lines(&["Content-Type: multipart/form-data", ""]);
    let lower_case = lines(&["content-type: multipart/form-data", ""]);
    let (h1, _) = read_headers(&upper, 0).unwrap();
    let (h2, _) = read_headers(&lower_case, 0).unwrap();
    assert_eq!(
        h1.get("content-type").unwrap(),
        h2.get("content-type").unwrap()
    );
}

#[test]
fn headers_missing_colon() {
    let ls = lines(&["NoColonHere", ""]);
    assert_eq!(read_headers(&ls, 0).unwrap_err(), HttpError::MalformedHeaderLine);
}

#[test]
fn headers_truncated() {
    let ls = lines(&["Host: example"]);
    assert_eq!(read_headers(&ls, 0).unwrap_err(), HttpError::TruncatedHeaders);
}

#[test]
fn lenient_headers_accept_missing_blank_line() {
    let ls = lines(&["Host: example"]);
    let (headers, next) = formrelay::http::read_headers(&ls, 0).unwrap();
    assert_eq!(next, 1);
    assert_eq!(headers.get("host").unwrap(), "example");
}

#[test]
fn status_texts() {
    assert_eq!(HttpStatus::Okay.encode(), "200 OK");
    assert_eq!(HttpStatus::NoContent.encode(), "204 No Content");
    assert_eq!(HttpStatus::Found.encode(), "302 Found");
    assert_eq!(HttpStatus::BadRequest.encode(), "400 Bad Request");
    assert_eq!(HttpStatus::NotFound.encode(), "404 Not Found");
}

#[test]
fn encode_headers_blank_line_terminated() {
    let response = HttpResponse {
        status: HttpStatus::Found,
        headers: vec!["Location: /done".to_string(), "X-Extra: yes".to_string()],
        body: Vec::new(),
    };
    assert_eq!(
        response.encode_headers(),
        "Location: /done\r\nX-Extra: yes\r\n\r\n"
    );
}

#[test]
fn encode_head_whole_preamble() {
    let response = HttpResponse {
        status: HttpStatus::NoContent,
        headers: Vec::new(),
        body: Vec::new(),
    };
    assert_eq!(response.encode_head(), "HTTP/1.1 204 No Content\r\n\r\n");
}
