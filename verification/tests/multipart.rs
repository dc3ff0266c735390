//! The multipart decoder and encoder.
use formrelay::formdata::{
    encode_multipart, get_multipart_boundary, parse_content_disposition, read_multipart,
};
use formrelay::http::primitives::HttpError;
use formrelay::keyvalue::KeyValue;

fn lines(v: &[&str]) -> Vec<String> {
    v.iter().map(|s| s.to_string()).collect()
}

#[test]
fn boundary_parsed() {
    assert_eq!(
        get_multipart_boundary("multipart/form-data; boundary=XYZ").unwrap(),
        "XYZ"
    );
}

#[test]
fn boundary_key_case_insensitive() {
    assert_eq!(
        get_multipart_boundary("multipart/form-data; Boundary=abc").unwrap(),
        "abc"
    );
}

#[test]
fn boundary_last_wins() {
    assert_eq!(
        get_multipart_boundary("multipart/form-data; boundary=a; boundary=b").unwrap(),
        "b"
    );
}

#[test]
fn boundary_not_multipart() {
    assert_eq!(
        get_multipart_boundary("text/plain; boundary=a").unwrap_err(),
        HttpError::NotMultipart
    );
}

#[test]
fn boundary_missing() {
    assert_eq!(
        get_multipart_boundary("multipart/form-data; charset=utf-8").unwrap_err(),
        HttpError::MissingBoundary
    );
}

#[test]
fn disposition_name() {
    assert_eq!(
        parse_content_disposition("form-data; name=\"email\"").unwrap(),
        "email"
    );
    assert_eq!(parse_content_disposition("attachment; name=\"x\""), None);
    assert_eq!(parse_content_disposition("form-data; filename=\"x\""), None);
}

#[test]
fn decode_two_fields() {
    let body = lines(&[
        "--B",
        "Content-Disposition: form-data; name=\"name\"",
        "",
        "Alice",
        "--B",
        "Content-Disposition: form-data; name=\"subject\"",
        "",
        "Hello",
        "--B--",
    ]);
    let fields = read_multipart(&body, "multipart/form-data; boundary=B").unwrap();
    assert_eq!(fields.get("name").unwrap(), "Alice");
    assert_eq!(fields.get("subject").unwrap(), "Hello");
}

#[test]
fn decode_multiline_value() {
    let body = lines(&[
        "--B",
        "Content-Disposition: form-data; name=\"message\"",
        "",
        "first",
        "second",
        "--B--",
    ]);
    let fields = read_multipart(&body, "multipart/form-data; boundary=B").unwrap();
    assert_eq!(fields.get("message").unwrap(), "first\r\nsecond");
}

#[test]
fn decode_duplicate_field_overwrites() {
    let body = lines(&[
        "--B",
        "Content-Disposition: form-data; name=\"x\"",
        "",
        "old",
        "--B",
        "Content-Disposition: form-data; name=\"x\"",
        "",
        "new",
        "--B--",
    ]);
    let fields = read_multipart(&body, "multipart/form-data; boundary=B").unwrap();
    assert_eq!(fields.get("x").unwrap(), "new");
}

#[test]
fn decode_missing_part_name() {
    let body = lines(&["--B", "X-Other: header", "", "data", "--B--"]);
    assert_eq!(
        read_multipart(&body, "multipart/form-data; boundary=B").unwrap_err(),
        HttpError::MissingPartName
    );
}

#[test]
fn decode_bad_preamble() {
    let body = lines(&["--WRONG", "", "--B--"]);
    assert_eq!(
        read_multipart(&body, "multipart/form-data; boundary=B").unwrap_err(),
        HttpError::MalformedMultipartPreamble
    );
}

#[test]
fn decode_without_terminal_boundary_is_truncated() {
    // The final boundary line lacks the trailing `--`: decoding never
    // signals completion and fails with a truncation error.
    let body = lines(&[
        "--B",
        "Content-Disposition: form-data; name=\"name\"",
        "",
        "Alice",
        "--B",
    ]);
    assert_eq!(
        read_multipart(&body, "multipart/form-data; boundary=B").unwrap_err(),
        HttpError::TruncatedMultipartBody
    );
}

#[test]
fn decode_empty_body_is_truncated() {
    let body: Vec<String> = Vec::new();
    assert_eq!(
        read_multipart(&body, "multipart/form-data; boundary=B").unwrap_err(),
        HttpError::TruncatedMultipartBody
    );
}

#[test]
fn encode_exact_lines() {
    let mut fields = KeyValue::new();
    fields.insert("name".to_string(), "Alice".to_string());
    let encoded = encode_multipart(&fields, "B");
    assert_eq!(
        encoded,
        vec![
            "--B".to_string(),
            "Content-Disposition: form-data; name=\"name\"".to_string(),
            "".to_string(),
            "Alice".to_string(),
            "--B--".to_string(),
        ]
    );
}

#[test]
fn round_trip_form_fields() {
    // Decoding after encoding with the same boundary reproduces the field
    // set, including a multi-line message.
    let mut fields = KeyValue::new();
    fields.insert("name".to_string(), "Alice".to_string());
    fields.insert("email".to_string(), "alice@example.com".to_string());
    fields.insert("subject".to_string(), "Hi".to_string());
    fields.insert("message".to_string(), "line one\r\nline two".to_string());
    let encoded = encode_multipart(&fields, "XbOuNd");
    let decoded = read_multipart(&encoded, "multipart/form-data; boundary=XbOuNd").unwrap();
    assert_eq!(decoded.get("name").unwrap(), "Alice");
    assert_eq!(decoded.get("email").unwrap(), "alice@example.com");
    assert_eq!(decoded.get("subject").unwrap(), "Hi");
    assert_eq!(decoded.get("message").unwrap(), "line one\r\nline two");
}
