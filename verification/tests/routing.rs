//! The connection handler's routing, end to end over request lines.
use formrelay::api::{submission_response, Config, HandlerStep};
use formrelay::http::primitives::{HttpError, HttpStatus};
use formrelay::http::server::{error_response, handle, read_request};

fn lines(v: &[&str]) -> Vec<String> {
    v.iter().map(|s| s.to_string()).collect()
}

#[test]
fn healthcheck_no_content() {
    // `GET /healthcheck` answers `204 No Content` with an empty body.
    let request = lines(&["GET /healthcheck HTTP/1.1", ""]);
    match handle(&request) {
        HandlerStep::Reply(resp) => {
            assert_eq!(resp.status, HttpStatus::NoContent);
            assert!(resp.headers.is_empty());
            assert!(resp.body.is_empty());
            assert_eq!(resp.encode_head(), "HTTP/1.1 204 No Content\r\n\r\n");
        }
        HandlerStep::Notify(_) => panic!("healthcheck must not notify"),
    }
}

#[test]
fn unknown_route_not_found() {
    let request = lines(&["GET /elsewhere HTTP/1.1", ""]);
    match handle(&request) {
        HandlerStep::Reply(resp) => assert_eq!(resp.status, HttpStatus::NotFound),
        HandlerStep::Notify(_) => panic!("unknown route must not notify"),
    }
}

#[test]
fn submit_missing_fields_bad_request() {
    // Only `name` is present; `email`, `subject` and `message` are absent.
    let request = lines(&[
        "POST /submit HTTP/1.1",
        "Content-Type: multipart/form-data; boundary=X",
        "",
        "--X",
        "Content-Disposition: form-data; name=\"name\"",
        "",
        "Alice",
        "--X--",
    ]);
    match handle(&request) {
        HandlerStep::Reply(resp) => assert_eq!(resp.status, HttpStatus::BadRequest),
        HandlerStep::Notify(_) => panic!("incomplete submission must not notify"),
    }
}

#[test]
fn submit_all_fields_notifies_once() {
    // With all four fields present the handler hands exactly one mail to
    // the notifier, with the submitted subject.
    let request = lines(&[
        "POST /submit HTTP/1.1",
        "Content-Type: multipart/form-data; boundary=X",
        "",
        "--X",
        "Content-Disposition: form-data; name=\"name\"",
        "",
        "Alice",
        "--X",
        "Content-Disposition: form-data; name=\"email\"",
        "",
        "alice@example.com",
        "--X",
        "Content-Disposition: form-data; name=\"subject\"",
        "",
        "Greetings",
        "--X",
        "Content-Disposition: form-data; name=\"message\"",
        "",
        "Hello there",
        "--X--",
    ]);
    match handle(&request) {
        HandlerStep::Notify(sub) => {
            assert_eq!(sub.subject, "Greetings");
            assert_eq!(
                sub.body,
                "From: Alice <alice@example.com>\r\n\r\nHello there"
            );
        }
        HandlerStep::Reply(_) => panic!("complete submission must notify"),
    }
}

#[test]
fn submission_redirects_to_success_url() {
    let config = Config {
        final_url: "https://example.com/thanks".to_string(),
        error_url: "https://example.com/sorry".to_string(),
    };
    let resp = submission_response(&config, true);
    assert_eq!(resp.status, HttpStatus::Found);
    assert_eq!(resp.headers, vec!["Location: https://example.com/thanks".to_string()]);
    assert!(resp.body.is_empty());
}

#[test]
fn submission_redirects_to_error_url_on_failure() {
    let config = Config {
        final_url: "https://example.com/thanks".to_string(),
        error_url: "https://example.com/sorry".to_string(),
    };
    let resp = submission_response(&config, false);
    assert_eq!(resp.status, HttpStatus::Found);
    assert_eq!(resp.headers, vec!["Location: https://example.com/sorry".to_string()]);
}

#[test]
fn post_without_multipart_carries_no_payload() {
    let request = lines(&["POST /submit HTTP/1.1", "Content-Type: text/plain", "", "hi"]);
    let parsed = read_request(&request).unwrap();
    assert!(parsed.payload.is_none());
    match handle(&request) {
        HandlerStep::Reply(resp) => assert_eq!(resp.status, HttpStatus::NotFound),
        HandlerStep::Notify(_) => panic!("plain POST must not notify"),
    }
}

#[test]
fn multipart_without_boundary_is_rejected() {
    let request = lines(&["POST /submit HTTP/1.1", "Content-Type: multipart/form-data", "", ""]);
    assert_eq!(read_request(&request).unwrap_err(), HttpError::MissingBoundary);
}

#[test]
fn unsupported_method_maps_to_not_found() {
    let request = lines(&["PUT /submit HTTP/1.1", ""]);
    assert_eq!(read_request(&request).unwrap_err(), HttpError::UnsupportedMethod);
    match handle(&request) {
        HandlerStep::Reply(resp) => assert_eq!(resp.status, HttpStatus::NotFound),
        HandlerStep::Notify(_) => panic!("parse failure must not notify"),
    }
}

#[test]
fn parse_failures_map_to_bad_request() {
    let resp = error_response(HttpError::TruncatedHeaders);
    assert_eq!(resp.status, HttpStatus::BadRequest);
    let resp = error_response(HttpError::MalformedRequestLine);
    assert_eq!(resp.status, HttpStatus::BadRequest);
    let resp = error_response(HttpError::UnsupportedMethod);
    assert_eq!(resp.status, HttpStatus::NotFound);
}

#[test]
fn request_headers_case_insensitive_end_to_end() {
    let upper = lines(&[
        "POST /submit HTTP/1.1",
        "Content-Type: multipart/form-data; boundary=X",
        "",
        "--X",
        "Content-Disposition: form-data; name=\"name\"",
        "",
        "Alice",
        "--X--",
    ]);
    let mut folded = upper.clone();
    folded[1] = "content-type: multipart/form-data; boundary=X".to_string();
    let a = read_request(&upper).unwrap();
    let b = read_request(&folded).unwrap();
    match (a.payload, b.payload) {
        (
            Some(formrelay::http::primitives::HttpPayload::KeyValue(ka)),
            Some(formrelay::http::primitives::HttpPayload::KeyValue(kb)),
        ) => {
            assert_eq!(ka.get("name").unwrap(), kb.get("name").unwrap());
        }
        _ => panic!("both requests must decode a payload"),
    }
}
