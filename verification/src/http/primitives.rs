//! Core HTTP vocabulary: methods, statuses, requests, responses, errors,
//! and the header parser shared by the connection handler.
use vstd::prelude::*;
use vstd::string::*;

use crate::keyvalue::KeyValue;
use crate::strutil::{
    crlf, has_char, head_until, lower, spec_lower, spec_trim, split_once, str_eq, tail_after, trim,
    append_crlf,
};

verus! {

/// Everything that can go wrong while reading a request.
#[derive(Clone, Copy, Debug, PartialEq, Eq, Structural)]
pub enum HttpError {
    /// The request line has fewer than three tokens or no `HTTP/` protocol.
    MalformedRequestLine,
    /// The method token names no supported method.
    UnsupportedMethod,
    /// A non-empty header line lacks a colon.
    MalformedHeaderLine,
    /// The stream ended before the blank line closing the headers.
    TruncatedHeaders,
    /// The content type is not `multipart/form-data`.
    NotMultipart,
    /// The content type has no usable `boundary` parameter.
    MissingBoundary,
    /// The first body line does not end with the boundary marker.
    MalformedMultipartPreamble,
    /// A part has no `Content-Disposition` name.
    MissingPartName,
    /// The body ended before the terminal boundary.
    TruncatedMultipartBody,
}

#[derive(Clone, Copy, Debug, PartialEq, Eq, Structural)]
pub enum HttpStatus {
    Okay,
    NoContent,
    Found,
    BadRequest,
    NotFound,
}

/// The status line text of each status.
pub open spec fn status_text(s: HttpStatus) -> Seq<char> {
    match s {
        HttpStatus::Okay => "200 OK"@,
        HttpStatus::NoContent => "204 No Content"@,
        HttpStatus::Found => "302 Found"@,
        HttpStatus::BadRequest => "400 Bad Request"@,
        HttpStatus::NotFound => "404 Not Found"@,
    }
}

impl HttpStatus {
    pub fn encode(&self) -> (r: &'static str)
        ensures
            r@ == status_text(*self),
    {
        match self {
            HttpStatus::Okay => "200 OK",
            HttpStatus::NoContent => "204 No Content",
            HttpStatus::Found => "302 Found",
            HttpStatus::BadRequest => "400 Bad Request",
            HttpStatus::NotFound => "404 Not Found",
        }
    }
}

#[derive(Clone, Copy, Debug, PartialEq, Eq, Structural)]
pub enum HttpMethod {
    Get,
    Post,
}

/// Which method a token names, compared without regard to ASCII case.
pub open spec fn spec_decode_method(s: Seq<char>) -> Option<HttpMethod> {
    if spec_lower(s) == "get"@ {
        Some(HttpMethod::Get)
    } else if spec_lower(s) == "post"@ {
        Some(HttpMethod::Post)
    } else {
        None
    }
}

/// The canonical token of each method.
pub open spec fn method_text(m: HttpMethod) -> Seq<char> {
    match m {
        HttpMethod::Get => "GET"@,
        HttpMethod::Post => "POST"@,
    }
}

impl HttpMethod {
    pub fn encode(&self) -> (r: &'static str)
        ensures
            r@ == method_text(*self),
    {
        match self {
            HttpMethod::Get => "GET",
            HttpMethod::Post => "POST",
        }
    }

    pub fn decode(method: &str) -> (r: Option<HttpMethod>)
        ensures
            r == spec_decode_method(method@),
    {
        let folded = lower(method);
        if str_eq(folded.as_str(), "get") {
            Some(HttpMethod::Get)
        } else if str_eq(folded.as_str(), "post") {
            Some(HttpMethod::Post)
        } else {
            None
        }
    }
}

/// A decoded request body.
#[derive(Debug)]
pub enum HttpPayload {
    KeyValue(KeyValue),
}

#[derive(Debug)]
pub struct HttpRequest {
    pub method: HttpMethod,
    pub path: String,
    pub payload: Option<HttpPayload>,
}

/// The mathematical content of a request.
pub struct RequestModel {
    pub method: HttpMethod,
    pub path: Seq<char>,
    pub payload: Option<Map<Seq<char>, Seq<char>>>,
}

impl View for HttpRequest {
    type V = RequestModel;

    open spec fn view(&self) -> RequestModel {
        RequestModel {
            method: self.method,
            path: self.path@,
            payload: match self.payload {
                Some(HttpPayload::KeyValue(kv)) => Some(kv@),
                None => None,
            },
        }
    }
}

pub struct HttpResponse {
    pub status: HttpStatus,
    pub headers: Vec<String>,
    pub body: Vec<u8>,
}

/// The mathematical content of a response.
pub struct ResponseModel {
    pub status: HttpStatus,
    pub headers: Seq<Seq<char>>,
    pub body: Seq<u8>,
}

impl View for HttpResponse {
    type V = ResponseModel;

    open spec fn view(&self) -> ResponseModel {
        ResponseModel { status: self.status, headers: self.headers.deep_view(), body: self.body@ }
    }
}

/// The raw header lines each followed by CRLF, closed by a blank line.
pub open spec fn spec_encode_headers(hs: Seq<Seq<char>>) -> Seq<char>
    decreases hs.len(),
{
    if hs.len() == 0 {
        crlf()
    } else {
        hs[0] + crlf() + spec_encode_headers(hs.skip(1))
    }
}

/// The whole response head: status line, header lines, blank line.
pub open spec fn spec_encode_head(status: HttpStatus, hs: Seq<Seq<char>>) -> Seq<char> {
    "HTTP/1.1 "@ + status_text(status) + crlf() + spec_encode_headers(hs)
}

impl HttpResponse {
    pub fn encode_headers(&self) -> (r: String)
        ensures
            r@ == spec_encode_headers(self.headers.deep_view()),
    {
        let ghost hs = self.headers.deep_view();
        let n = self.headers.len();
        let mut out = String::new();
        let mut i: usize = 0;
        proof {
            assert(hs.skip(0) =~= hs);
            assert(Seq::<char>::empty() + spec_encode_headers(hs) =~= spec_encode_headers(hs));
        }
        while i < n
            invariant
                n == self.headers.len(),
                hs == self.headers.deep_view(),
                i <= n,
                out@ + spec_encode_headers(hs.skip(i as int)) == spec_encode_headers(hs),
            decreases n - i,
        {
            proof {
                assert(hs[i as int] == self.headers@[i as int]@);
                assert(hs.skip(i as int)[0] == hs[i as int]);
                assert(hs.skip(i as int).skip(1) =~= hs.skip(i as int + 1));
            }
            out.append(self.headers[i].as_str());
            append_crlf(&mut out);
            proof {
                assert(out@ + spec_encode_headers(hs.skip(i as int + 1)) =~= spec_encode_headers(
                    hs,
                ));
            }
            i += 1;
        }
        proof {
            assert(hs.skip(n as int) =~= Seq::<Seq<char>>::empty());
        }
        append_crlf(&mut out);
        out
    }

    /// Everything written before the body bytes.
    pub fn encode_head(&self) -> (r: String)
        ensures
            r@ == spec_encode_head(self.status, self.headers.deep_view()),
    {
        let mut out = String::from_str("HTTP/1.1 ");
        out.append(self.status.encode());
        append_crlf(&mut out);
        let rest = self.encode_headers();
        out.append(rest.as_str());
        out
    }
}

/// One step per line: parse header lines into `m` starting at line `i`,
/// stopping at the first blank line. In strict mode running out of lines is
/// a truncation error; otherwise the headers read so far stand.
pub open spec fn spec_parse_headers_from(
    lines: Seq<Seq<char>>,
    i: int,
    m: Map<Seq<char>, Seq<char>>,
    strict: bool,
) -> Result<(Map<Seq<char>, Seq<char>>, int), HttpError>
    decreases lines.len() - i,
{
    if i < 0 || i >= lines.len() {
        if strict {
            Err(HttpError::TruncatedHeaders)
        } else {
            Ok((m, lines.len() as int))
        }
    } else if lines[i].len() == 0 {
        Ok((m, i + 1))
    } else if !has_char(lines[i], ':') {
        Err(HttpError::MalformedHeaderLine)
    } else {
        spec_parse_headers_from(
            lines,
            i + 1,
            m.insert(spec_lower(head_until(lines[i], ':')), spec_trim(tail_after(lines[i], ':'))),
            strict,
        )
    }
}

/// The headers of `lines` from line `i` on: names lowercased, values
/// trimmed, the last occurrence of a name winning.
pub open spec fn spec_parse_headers(lines: Seq<Seq<char>>, i: int, strict: bool) -> Result<
    (Map<Seq<char>, Seq<char>>, int),
    HttpError,
> {
    spec_parse_headers_from(lines, i, Map::empty(), strict)
}

/// The view of a header-parse result.
pub open spec fn header_result_view(r: Result<(KeyValue, usize), HttpError>) -> Result<
    (Map<Seq<char>, Seq<char>>, int),
    HttpError,
> {
    match r {
        Ok(p) => Ok((p.0@, p.1 as int)),
        Err(e) => Err(e),
    }
}

pub(crate) fn parse_header_block(lines: &Vec<String>, start: usize, strict: bool) -> (r: Result<
    (KeyValue, usize),
    HttpError,
>)
    requires
        start <= lines@.len(),
    ensures
        header_result_view(r) == spec_parse_headers(lines.deep_view(), start as int, strict),
{
    let ghost ls = lines.deep_view();
    let n = lines.len();
    let mut kv = KeyValue::new();
    let mut i: usize = start;
    while i < n
        invariant
            n == lines.len(),
            ls == lines.deep_view(),
            start <= i <= n,
            spec_parse_headers(ls, start as int, strict) == spec_parse_headers_from(
                ls,
                i as int,
                kv@,
                strict,
            ),
        decreases n - i,
    {
        let line = &lines[i];
        proof {
            assert(ls[i as int] == lines@[i as int]@);
        }
        if line.as_str().unicode_len() == 0 {
            return Ok((kv, i + 1));
        }
        match split_once(line.as_str(), ':') {
            None => {
                return Err(HttpError::MalformedHeaderLine);
            },
            Some((key, val)) => {
                let folded = lower(key);
                let trimmed = trim(val);
                kv.insert(folded, trimmed.to_owned());
                i += 1;
            },
        }
    }
    if strict {
        Err(HttpError::TruncatedHeaders)
    } else {
        Ok((kv, i))
    }
}

/// Parse header lines from `start` until a blank line: each non-empty line
/// must contain a colon; the name before the first colon is lowercased and
/// the value after it trimmed; a later occurrence of a name overwrites an
/// earlier one. Running out of lines before the blank line is a truncation
/// error. On success the line index just past the blank line is returned.
pub fn read_headers(lines: &Vec<String>, start: usize) -> (r: Result<(KeyValue, usize), HttpError>)
    requires
        start <= lines@.len(),
    ensures
        header_result_view(r) == spec_parse_headers(lines.deep_view(), start as int, true),
{
    parse_header_block(lines, start, true)
}

} // verus!

verus! {

/// A successful header parse stops between `i` and the end of the lines.
pub proof fn lemma_parse_headers_bounds(
    lines: Seq<Seq<char>>,
    i: int,
    m: Map<Seq<char>, Seq<char>>,
    strict: bool,
)
    requires
        0 <= i <= lines.len(),
    ensures
        match spec_parse_headers_from(lines, i, m, strict) {
            Ok(p) => i <= p.1 <= lines.len(),
            Err(_) => true,
        },
    decreases lines.len() - i,
{
    if i < lines.len() && lines[i].len() != 0 && has_char(lines[i], ':') {
        lemma_parse_headers_bounds(
            lines,
            i + 1,
            m.insert(spec_lower(head_until(lines[i], ':')), spec_trim(tail_after(lines[i], ':'))),
            strict,
        );
    }
}

} // verus!

verus! {

/// Two lines that are the same header up to the case of its name: both
/// blank, or both colonless, or carrying case-folded-equal names and
/// identical values.
pub open spec fn same_up_to_name_case(a: Seq<char>, b: Seq<char>) -> bool {
    &&& (a.len() == 0) == (b.len() == 0)
    &&& has_char(a, ':') == has_char(b, ':')
    &&& (has_char(a, ':') ==> spec_lower(head_until(a, ':')) == spec_lower(head_until(b, ':'))
        && tail_after(a, ':') == tail_after(b, ':'))
}

/// Header lookup is case-insensitive: header blocks whose lines differ
/// only in the case of their names parse to the same mapping, stop at the
/// same line, and fail alike.
pub proof fn lemma_headers_case_insensitive(
    lines1: Seq<Seq<char>>,
    lines2: Seq<Seq<char>>,
    i: int,
    m: Map<Seq<char>, Seq<char>>,
    strict: bool,
)
    requires
        lines1.len() == lines2.len(),
        forall|j: int| 0 <= j < lines1.len() ==> same_up_to_name_case(lines1[j], lines2[j]),
    ensures
        spec_parse_headers_from(lines1, i, m, strict) == spec_parse_headers_from(
            lines2,
            i,
            m,
            strict,
        ),
    decreases lines1.len() - i,
{
    if 0 <= i < lines1.len() && lines1[i].len() != 0 && has_char(lines1[i], ':') {
        lemma_headers_case_insensitive(
            lines1,
            lines2,
            i + 1,
            m.insert(
                spec_lower(head_until(lines1[i], ':')),
                spec_trim(tail_after(lines1[i], ':')),
            ),
            strict,
        );
    }
}

} // verus!
