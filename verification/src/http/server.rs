//! One connection's worth of work on plain values: assembling a request
//! from the lines read off the socket, and the response owed when parsing
//! fails.
use vstd::prelude::*;
use vstd::string::*;

use crate::api::{spec_step_ok, HandlerStep};
use crate::formdata::{is_multipart, read_multipart, spec_is_multipart, spec_read_multipart};
use crate::http::primitives::{
    lemma_parse_headers_bounds, spec_decode_method, spec_parse_headers, HttpError, HttpMethod,
    HttpPayload, HttpRequest, HttpStatus, RequestModel, read_headers,
};
use crate::http::{read_request as read_request_line, spec_parse_request_line};

verus! {

/// The request parsed from all lines read from one connection: the request
/// line, the headers, and, for a POST whose content type is multipart
/// form data, the decoded body. A POST without a content type, or with a
/// different one, carries no payload.
pub open spec fn spec_parse_request(lines: Seq<Seq<char>>) -> Result<RequestModel, HttpError> {
    if lines.len() == 0 {
        Err(HttpError::MalformedRequestLine)
    } else {
        match spec_parse_request_line(lines[0]) {
            Err(e) => Err(e),
            Ok(mp) => match spec_decode_method(mp.0) {
                None => Err(HttpError::UnsupportedMethod),
                Some(method) => match spec_parse_headers(lines, 1, true) {
                    Err(e) => Err(e),
                    Ok(hm) => {
                        if method == HttpMethod::Post && hm.0.contains_key("content-type"@)
                            && spec_is_multipart(hm.0["content-type"@]) {
                            match spec_read_multipart(lines.skip(hm.1), hm.0["content-type"@]) {
                                Err(e) => Err(e),
                                Ok(m) => Ok(
                                    RequestModel { method, path: mp.1, payload: Some(m) },
                                ),
                            }
                        } else {
                            Ok(RequestModel { method, path: mp.1, payload: None })
                        }
                    },
                },
            },
        }
    }
}

/// Parse a whole request from its lines (terminators removed).
pub fn read_request(lines: &Vec<String>) -> (r: Result<HttpRequest, HttpError>)
    ensures
        match r {
            Ok(req) => spec_parse_request(lines.deep_view()) == Ok::<RequestModel, HttpError>(
                req@,
            ),
            Err(e) => spec_parse_request(lines.deep_view()) == Err::<RequestModel, HttpError>(e),
        },
{
    let ghost ls = lines.deep_view();
    if lines.len() == 0 {
        return Err(HttpError::MalformedRequestLine);
    }
    proof {
        assert(ls[0] == lines@[0]@);
    }
    let (method_tok, path) = match read_request_line(lines[0].as_str()) {
        Err(e) => {
            return Err(e);
        },
        Ok(mp) => mp,
    };
    let method = match HttpMethod::decode(method_tok.as_str()) {
        None => {
            return Err(HttpError::UnsupportedMethod);
        },
        Some(m) => m,
    };
    let (headers, body_start) = match read_headers(lines, 1) {
        Err(e) => {
            return Err(e);
        },
        Ok(hm) => hm,
    };
    proof {
        lemma_parse_headers_bounds(ls, 1, Map::empty(), true);
    }
    let is_post = match method {
        HttpMethod::Post => true,
        HttpMethod::Get => false,
    };
    if is_post {
        match headers.get("content-type") {
            Some(ct) => {
                if is_multipart(ct.as_str()) {
                    let mut body: Vec<String> = Vec::new();
                    let mut k: usize = body_start;
                    proof {
                        assert(body.deep_view() =~= ls.subrange(
                            body_start as int,
                            body_start as int,
                        ));
                    }
                    while k < lines.len()
                        invariant
                            ls == lines.deep_view(),
                            body_start <= k <= lines.len(),
                            body.deep_view() == ls.subrange(body_start as int, k as int),
                        decreases lines.len() - k,
                    {
                        let ghost bv = body.deep_view();
                        body.push(lines[k].clone());
                        proof {
                            assert(ls[k as int] == lines@[k as int]@);
                            assert(body.deep_view() =~= bv.push(ls[k as int]));
                            assert(bv.push(ls[k as int]) =~= ls.subrange(
                                body_start as int,
                                k as int + 1,
                            ));
                        }
                        k += 1;
                    }
                    proof {
                        assert(ls.subrange(body_start as int, ls.len() as int) =~= ls.skip(
                            body_start as int,
                        ));
                    }
                    match read_multipart(&body, ct.as_str()) {
                        Err(e) => Err(e),
                        Ok(fields) => Ok(
                            HttpRequest {
                                method,
                                path,
                                payload: Some(HttpPayload::KeyValue(fields)),
                            },
                        ),
                    }
                } else {
                    Ok(HttpRequest { method, path, payload: None })
                }
            },
            None => Ok(HttpRequest { method, path, payload: None }),
        }
    } else {
        Ok(HttpRequest { method, path, payload: None })
    }
}

/// The status owed for a parse failure: an unsupported method is a routing
/// failure answered with not-found, every other protocol failure with
/// bad-request. A response is always sent once any bytes were read.
pub open spec fn spec_error_status(e: HttpError) -> HttpStatus {
    if e == HttpError::UnsupportedMethod {
        HttpStatus::NotFound
    } else {
        HttpStatus::BadRequest
    }
}

/// The bare response answering a parse failure.
pub fn error_response(e: HttpError) -> (r: crate::http::primitives::HttpResponse)
    ensures
        r.status == spec_error_status(e),
        r.headers.deep_view() == Seq::<Seq<char>>::empty(),
        r.body@ == Seq::<u8>::empty(),
{
    let status = match e {
        HttpError::UnsupportedMethod => HttpStatus::NotFound,
        _ => HttpStatus::BadRequest,
    };
    let headers: Vec<String> = Vec::new();
    let body: Vec<u8> = Vec::new();
    proof {
        assert(headers.deep_view() =~= Seq::<Seq<char>>::empty());
        assert(body@ =~= Seq::<u8>::empty());
    }
    crate::http::primitives::HttpResponse { status, headers, body }
}

/// Handle one connection's lines: parse them, and either answer a parse
/// failure at once or hand the parsed request to the handler.
pub fn handle(lines: &Vec<String>) -> (r: HandlerStep)
    ensures
        match spec_parse_request(lines.deep_view()) {
            Ok(q) => spec_step_ok(r, q),
            Err(e) => match r {
                HandlerStep::Reply(resp) => resp.status == spec_error_status(e)
                    && resp.headers.deep_view() == Seq::<Seq<char>>::empty() && resp.body@
                    == Seq::<u8>::empty(),
                HandlerStep::Notify(_) => false,
            },
        },
{
    match read_request(lines) {
        Err(e) => HandlerStep::Reply(error_response(e)),
        Ok(request) => crate::api::http_handler(request),
    }
}

} // verus!
