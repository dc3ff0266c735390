//! Reading a request from its lines: the request line and the headers.
use vstd::prelude::*;
use vstd::string::*;

pub mod primitives;
pub mod server;

use crate::keyvalue::KeyValue;
use crate::strutil::{spec_starts_with, spec_tokens, starts_with, tokens};
use primitives::{header_result_view, spec_parse_headers, HttpError};

verus! {

/// What the request line yields: its method and path tokens, provided it
/// has at least three whitespace-separated tokens and the third starts
/// with `HTTP/`.
pub open spec fn spec_parse_request_line(line: Seq<char>) -> Result<
    (Seq<char>, Seq<char>),
    HttpError,
> {
    let toks = spec_tokens(line);
    if toks.len() < 3 || !spec_starts_with(toks[2], "HTTP/"@) {
        Err(HttpError::MalformedRequestLine)
    } else {
        Ok((toks[0], toks[1]))
    }
}

/// Parse the first line of a request into its method and path tokens.
pub fn read_request(line: &str) -> (r: Result<(String, String), HttpError>)
    ensures
        match r {
            Ok(mp) => spec_parse_request_line(line@) == Ok::<_, HttpError>((mp.0@, mp.1@)),
            Err(e) => spec_parse_request_line(line@) == Err::<(Seq<char>, Seq<char>), _>(e),
        },
{
    let mut toks = tokens(line);
    if toks.len() < 3 {
        return Err(HttpError::MalformedRequestLine);
    }
    proof {
        assert(toks.deep_view()[2] == toks@[2]@);
        assert(toks.deep_view()[0] == toks@[0]@);
        assert(toks.deep_view()[1] == toks@[1]@);
    }
    if !starts_with(toks[2].as_str(), "HTTP/") {
        return Err(HttpError::MalformedRequestLine);
    }
    let path = toks.remove(1);
    let method = toks.remove(0);
    Ok((method, path))
}

/// Parse header lines from `start` as `primitives::read_headers` does, but
/// treat the end of the lines like a blank line instead of failing: the
/// headers read to that point stand.
pub fn read_headers(lines: &Vec<String>, start: usize) -> (r: Result<(KeyValue, usize), HttpError>)
    requires
        start <= lines@.len(),
    ensures
        header_result_view(r) == spec_parse_headers(lines.deep_view(), start as int, false),
{
    primitives::parse_header_block(lines, start, false)
}

} // verus!
