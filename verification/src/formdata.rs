//! The `multipart/form-data` body decoder and the matching encoder: the
//! boundary parameter of the content type, the name of a part's
//! `Content-Disposition`, and the line-by-line decoding of named parts.
use vstd::prelude::*;
use vstd::string::*;

use crate::http::primitives::HttpError;
use crate::keyvalue::KeyValue;
use crate::strutil::{
    ends_with, has_char, head_until, lower, spec_ends_with, spec_lower, spec_split,
    spec_starts_with, spec_trim, spec_trim_quotes, split_char, split_once, starts_with, str_eq,
    tail_after, trim, trim_quotes, lemma_split_rec_len,
};

verus! {

/// The first of two options that is present, if any.
pub open spec fn opt_or(a: Option<Seq<char>>, b: Option<Seq<char>>) -> Option<Seq<char>> {
    match a {
        Some(_) => a,
        None => b,
    }
}

/// The boundary named by one `key=value` parameter: the key is trimmed and
/// case-folded, the value trimmed. A parameter without `=` or with another
/// key names none.
pub open spec fn spec_boundary_of_param(p: Seq<char>) -> Option<Seq<char>> {
    if has_char(p, '=') && spec_lower(spec_trim(head_until(p, '='))) == "boundary"@ {
        Some(spec_trim(tail_after(p, '=')))
    } else {
        None
    }
}

/// The part name carried by one parameter: like the boundary, except that
/// the value is stripped of double quotes rather than whitespace.
pub open spec fn spec_name_of_param(p: Seq<char>) -> Option<Seq<char>> {
    if has_char(p, '=') && spec_lower(spec_trim(head_until(p, '='))) == "name"@ {
        Some(spec_trim_quotes(tail_after(p, '=')))
    } else {
        None
    }
}

/// The boundary of a parameter list, the last `boundary` parameter winning.
pub open spec fn spec_param_boundary(params: Seq<Seq<char>>) -> Option<Seq<char>>
    decreases params.len(),
{
    if params.len() == 0 {
        None
    } else {
        opt_or(spec_param_boundary(params.skip(1)), spec_boundary_of_param(params[0]))
    }
}

/// The part name of a parameter list, the last `name` parameter winning.
pub open spec fn spec_param_name(params: Seq<Seq<char>>) -> Option<Seq<char>>
    decreases params.len(),
{
    if params.len() == 0 {
        None
    } else {
        opt_or(spec_param_name(params.skip(1)), spec_name_of_param(params[0]))
    }
}

/// Whether the content type names the `multipart/form-data` media type.
pub open spec fn spec_is_multipart(ct: Seq<char>) -> bool {
    spec_split(ct, ';')[0] == "multipart/form-data"@
}

/// The boundary parameter of a content type.
pub open spec fn spec_content_type_boundary(ct: Seq<char>) -> Option<Seq<char>> {
    spec_param_boundary(spec_split(ct, ';').skip(1))
}

/// What parsing a content type for its boundary yields.
pub open spec fn spec_get_boundary(ct: Seq<char>) -> Result<Seq<char>, HttpError> {
    if !spec_is_multipart(ct) {
        Err(HttpError::NotMultipart)
    } else {
        match spec_content_type_boundary(ct) {
            Some(b) => Ok(b),
            None => Err(HttpError::MissingBoundary),
        }
    }
}

/// Scan the parameters of `params` past the media type for the last
/// `boundary` (or, with `name_mode`, `name`) parameter.
fn scan_params(params: &Vec<String>, name_mode: bool) -> (r: Option<String>)
    requires
        params@.len() >= 1,
    ensures
        ({
            let spec_r = if name_mode {
                spec_param_name(params.deep_view().skip(1))
            } else {
                spec_param_boundary(params.deep_view().skip(1))
            };
            match r {
                Some(v) => spec_r == Some(v@),
                None => spec_r is None,
            }
        }),
{
    let ghost ps = params.deep_view();
    let n = params.len();
    let mut found: Option<String> = None;
    let mut i: usize = 1;
    while i < n
        invariant
            n == params.len(),
            ps == params.deep_view(),
            1 <= i <= n,
            ({
                let whole = if name_mode {
                    spec_param_name(ps.skip(1))
                } else {
                    spec_param_boundary(ps.skip(1))
                };
                let rest = if name_mode {
                    spec_param_name(ps.skip(i as int))
                } else {
                    spec_param_boundary(ps.skip(i as int))
                };
                let cur = match found {
                    Some(v) => Some(v@),
                    None => None,
                };
                whole == opt_or(rest, cur)
            }),
        decreases n - i,
    {
        let p = &params[i];
        proof {
            assert(ps[i as int] == params@[i as int]@);
            assert(ps.skip(i as int)[0] == ps[i as int]);
            assert(ps.skip(i as int).skip(1) =~= ps.skip(i as int + 1));
        }
        let hit: Option<String> = match split_once(p.as_str(), '=') {
            None => None,
            Some((k, v)) => {
                let folded = lower(trim(k));
                let want = if name_mode {
                    "name"
                } else {
                    "boundary"
                };
                if str_eq(folded.as_str(), want) {
                    if name_mode {
                        Some(trim_quotes(v).to_owned())
                    } else {
                        Some(trim(v).to_owned())
                    }
                } else {
                    None
                }
            },
        };
        match hit {
            Some(v) => {
                found = Some(v);
            },
            None => {},
        }
        i += 1;
    }
    proof {
        assert(ps.skip(n as int) =~= Seq::<Seq<char>>::empty());
    }
    found
}

/// Parse a `Content-Type` value as `multipart/form-data; boundary=<token>`:
/// the media type must match exactly, and the boundary is the value of the
/// last `boundary` parameter, whitespace-trimmed.
pub fn get_multipart_boundary(content_type: &str) -> (r: Result<String, HttpError>)
    ensures
        match r {
            Ok(b) => spec_get_boundary(content_type@) == Ok::<Seq<char>, HttpError>(b@),
            Err(e) => spec_get_boundary(content_type@) == Err::<Seq<char>, HttpError>(e),
        },
{
    let params = split_char(content_type, ';');
    proof {
        lemma_split_rec_len(content_type@, ';', Seq::empty());
        assert(params.deep_view()[0] == params@[0]@);
    }
    if !str_eq(params[0].as_str(), "multipart/form-data") {
        return Err(HttpError::NotMultipart);
    }
    match scan_params(&params, false) {
        Some(b) => Ok(b),
        None => Err(HttpError::MissingBoundary),
    }
}

/// The part name of a `Content-Disposition` value: the value must start
/// with the `form-data` token, and the name is the value of the last
/// `name` parameter, stripped of double quotes.
pub open spec fn spec_disposition_name(v: Seq<char>) -> Option<Seq<char>> {
    if spec_split(v, ';')[0] != "form-data"@ {
        None
    } else {
        spec_param_name(spec_split(v, ';').skip(1))
    }
}

/// Extract the part name from a `Content-Disposition` header value.
pub fn parse_content_disposition(value: &str) -> (r: Option<String>)
    ensures
        match r {
            Some(n) => spec_disposition_name(value@) == Some(n@),
            None => spec_disposition_name(value@) is None,
        },
{
    let params = split_char(value, ';');
    proof {
        lemma_split_rec_len(value@, ';', Seq::empty());
        assert(params.deep_view()[0] == params@[0]@);
    }
    if !str_eq(params[0].as_str(), "form-data") {
        return None;
    }
    scan_params(&params, true)
}

} // verus!

verus! {

/// Where the decoder stands between lines of the body.
pub enum PartState {
    /// Reading a part's header lines; `found` is the part name seen so far.
    Headers { found: Option<Seq<char>> },
    /// Reading a part's body lines; `acc` holds the lines read so far.
    Body { name: Seq<char>, acc: Seq<Seq<char>> },
}

/// One decoding step per line, starting at line `i` in state `st` with the
/// fields decoded so far in `m`. A blank line ends a part's headers (the
/// part must have a name by then); a line starting with `--<boundary>`
/// ends a part's body, storing its lines joined with CRLF; a boundary line
/// continuing with `--` ends the body. Running out of lines first is a
/// truncation error.
pub open spec fn spec_decode_lines(
    lines: Seq<Seq<char>>,
    b: Seq<char>,
    i: int,
    st: PartState,
    m: Map<Seq<char>, Seq<char>>,
) -> Result<Map<Seq<char>, Seq<char>>, HttpError>
    decreases lines.len() - i,
{
    if i < 0 || i >= lines.len() {
        Err(HttpError::TruncatedMultipartBody)
    } else {
        match st {
            PartState::Headers { found } => {
                if lines[i].len() == 0 {
                    match found {
                        None => Err(HttpError::MissingPartName),
                        Some(name) => spec_decode_lines(
                            lines,
                            b,
                            i + 1,
                            PartState::Body { name, acc: Seq::empty() },
                            m,
                        ),
                    }
                } else if !has_char(lines[i], ':') {
                    Err(HttpError::MalformedHeaderLine)
                } else {
                    spec_decode_lines(
                        lines,
                        b,
                        i + 1,
                        PartState::Headers {
                            found: if spec_lower(head_until(lines[i], ':'))
                                == "content-disposition"@ {
                                spec_disposition_name(spec_trim(tail_after(lines[i], ':')))
                            } else {
                                found
                            },
                        },
                        m,
                    )
                }
            },
            PartState::Body { name, acc } => {
                if spec_starts_with(lines[i], "--"@ + b) {
                    if spec_starts_with(lines[i].skip(2 + b.len() as int), "--"@) {
                        Ok(m.insert(name, crate::strutil::spec_join_crlf(acc)))
                    } else {
                        spec_decode_lines(
                            lines,
                            b,
                            i + 1,
                            PartState::Headers { found: None },
                            m.insert(name, crate::strutil::spec_join_crlf(acc)),
                        )
                    }
                } else {
                    spec_decode_lines(
                        lines,
                        b,
                        i + 1,
                        PartState::Body { name, acc: acc.push(lines[i]) },
                        m,
                    )
                }
            },
        }
    }
}

/// Decoding a whole body: the first line must end with `--<boundary>`,
/// then the parts follow.
pub open spec fn spec_decode_multipart(lines: Seq<Seq<char>>, b: Seq<char>) -> Result<
    Map<Seq<char>, Seq<char>>,
    HttpError,
> {
    if lines.len() == 0 {
        Err(HttpError::TruncatedMultipartBody)
    } else if !spec_ends_with(lines[0], "--"@ + b) {
        Err(HttpError::MalformedMultipartPreamble)
    } else {
        spec_decode_lines(lines, b, 1, PartState::Headers { found: None }, Map::empty())
    }
}

/// Decoding a body against its content type.
pub open spec fn spec_read_multipart(lines: Seq<Seq<char>>, ct: Seq<char>) -> Result<
    Map<Seq<char>, Seq<char>>,
    HttpError,
> {
    match spec_get_boundary(ct) {
        Err(e) => Err(e),
        Ok(b) => spec_decode_multipart(lines, b),
    }
}

/// The view of a decoding result.
pub open spec fn multipart_result_view(r: Result<KeyValue, HttpError>) -> Result<
    Map<Seq<char>, Seq<char>>,
    HttpError,
> {
    match r {
        Ok(kv) => Ok(kv@),
        Err(e) => Err(e),
    }
}

proof fn lemma_join_crlf_snoc(ls: Seq<Seq<char>>, x: Seq<char>)
    ensures
        crate::strutil::spec_join_crlf(ls.push(x)) == if ls.len() == 0 {
            x
        } else {
            crate::strutil::spec_join_crlf(ls) + crate::strutil::crlf() + x
        },
    decreases ls.len(),
{
    if ls.len() == 0 {
        assert(ls.push(x)[0] == x);
    } else {
        lemma_join_crlf_snoc(ls.skip(1), x);
        assert(ls.push(x).skip(1) =~= ls.skip(1).push(x));
        assert(ls.push(x)[0] == ls[0]);
        if ls.len() == 1 {
            assert(ls.skip(1).push(x)[0] == x);
            assert(ls.skip(1).len() == 0);
        }
    }
}

/// Join the lines with CRLF between them.
fn join_crlf(v: &Vec<String>) -> (r: String)
    ensures
        r@ == crate::strutil::spec_join_crlf(v.deep_view()),
{
    let ghost ls = v.deep_view();
    let n = v.len();
    let mut out = String::new();
    if n == 0 {
        proof {
            assert(ls.len() == 0);
        }
        return out;
    }
    out.append(v[0].as_str());
    proof {
        assert(ls[0] == v@[0]@);
        assert(ls.take(1) =~= seq![ls[0]]);
        assert(Seq::<char>::empty() + ls[0] =~= ls[0]);
        assert(crate::strutil::spec_join_crlf(ls.take(1)) == ls[0]);
    }
    let mut i: usize = 1;
    while i < n
        invariant
            n == v.len(),
            ls == v.deep_view(),
            1 <= i <= n,
            out@ == crate::strutil::spec_join_crlf(ls.take(i as int)),
        decreases n - i,
    {
        crate::strutil::append_crlf(&mut out);
        out.append(v[i].as_str());
        proof {
            assert(ls[i as int] == v@[i as int]@);
            assert(ls.take(i as int).push(ls[i as int]) =~= ls.take(i as int + 1));
            lemma_join_crlf_snoc(ls.take(i as int), ls[i as int]);
        }
        i += 1;
    }
    proof {
        assert(ls.take(n as int) =~= ls);
    }
    out
}

/// The decoder's in-progress state.
enum DecState {
    Headers(Option<String>),
    Body(String, Vec<String>),
}

/// The mathematical content of the decoder state.
spec fn dec_state_view(st: DecState) -> PartState {
    match st {
        DecState::Headers(f) => PartState::Headers {
            found: match f {
                Some(s) => Some(s@),
                None => None,
            },
        },
        DecState::Body(n, acc) => PartState::Body { name: n@, acc: acc.deep_view() },
    }
}

/// Decode a multipart body given as its lines (line terminators already
/// removed) against the `Content-Type` value `content_type`. On success the
/// decoded fields are returned, a later part with the same name
/// overwriting an earlier one.
pub fn read_multipart(lines: &Vec<String>, content_type: &str) -> (r: Result<KeyValue, HttpError>)
    ensures
        multipart_result_view(r) == spec_read_multipart(lines.deep_view(), content_type@),
{
    let ghost ls = lines.deep_view();
    let boundary = match get_multipart_boundary(content_type) {
        Err(e) => {
            return Err(e);
        },
        Ok(b) => b,
    };
    let mut marker = String::from_str("--");
    marker.append(boundary.as_str());
    let n = lines.len();
    if n == 0 {
        return Err(HttpError::TruncatedMultipartBody);
    }
    proof {
        assert(ls[0] == lines@[0]@);
    }
    if !ends_with(lines[0].as_str(), marker.as_str()) {
        return Err(HttpError::MalformedMultipartPreamble);
    }
    let ghost b = boundary@;
    let mut kv = KeyValue::new();
    let mut st = DecState::Headers(None);
    let mut i: usize = 1;
    while i < n
        invariant
            n == lines.len(),
            ls == lines.deep_view(),
            1 <= i <= n,
            marker@ == "--"@ + b,
            spec_read_multipart(ls, content_type@) == spec_decode_lines(
                ls,
                b,
                i as int,
                dec_state_view(st),
                kv@,
            ),
        decreases n - i,
    {
        let line = &lines[i];
        let ghost stv = dec_state_view(st);
        let ghost kv0 = kv@;
        let ghost iv = i as int;
        proof {
            assert(ls[iv] == lines@[iv]@);
        }
        st = match st {
            DecState::Headers(found) => {
                if line.as_str().unicode_len() == 0 {
                    match found {
                        None => {
                            return Err(HttpError::MissingPartName);
                        },
                        Some(name) => {
                            let acc0: Vec<String> = Vec::new();
                            proof {
                                assert(acc0.deep_view() =~= Seq::<Seq<char>>::empty());
                            }
                            DecState::Body(name, acc0)
                        },
                    }
                } else {
                    match split_once(line.as_str(), ':') {
                        None => {
                            return Err(HttpError::MalformedHeaderLine);
                        },
                        Some((k, v)) => {
                            let key = lower(k);
                            let val = trim(v);
                            if str_eq(key.as_str(), "content-disposition") {
                                DecState::Headers(parse_content_disposition(val))
                            } else {
                                DecState::Headers(found)
                            }
                        },
                    }
                }
            },
            DecState::Body(name, mut acc) => {
                if starts_with(line.as_str(), marker.as_str()) {
                    let joined = join_crlf(&acc);
                    let ghost namev = name@;
                    kv.insert(name, joined);
                    let ll = line.as_str().unicode_len();
                    let ml = marker.as_str().unicode_len();
                    let rest = line.as_str().substring_char(ml, ll);
                    proof {
                        reveal_strlit("--");
                        assert(ml == 2 + b.len());
                        assert(line@.subrange(ml as int, ll as int) =~= line@.skip(
                            2 + b.len() as int,
                        ));
                    }
                    if starts_with(rest, "--") {
                        return Ok(kv);
                    }
                    DecState::Headers(None)
                } else {
                    let ghost accv = acc.deep_view();
                    acc.push(line.clone());
                    proof {
                        assert(acc.deep_view() =~= accv.push(line@));
                    }
                    DecState::Body(name, acc)
                }
            },
        };
        proof {
            assert(spec_decode_lines(ls, b, iv, stv, kv0) == spec_decode_lines(
                ls,
                b,
                iv + 1,
                dec_state_view(st),
                kv@,
            ));
        }
        i += 1;
    }
    Err(HttpError::TruncatedMultipartBody)
}

} // verus!

verus! {

/// The `Content-Disposition` line of a part named `name`.
pub open spec fn spec_disposition_line(name: Seq<char>) -> Seq<char> {
    "Content-Disposition: form-data; name=\""@ + name + "\""@
}

/// The lines of one encoded part: its disposition line, a blank line, the
/// value's lines, and a boundary line, terminal for the last part.
pub open spec fn spec_part_block(p: (Seq<char>, Seq<char>), b: Seq<char>, last: bool) -> Seq<
    Seq<char>,
> {
    seq![spec_disposition_line(p.0), Seq::<char>::empty()]
        + crate::strutil::spec_split_crlf(p.1) + seq![
        if last {
            "--"@ + b + "--"@
        } else {
            "--"@ + b
        },
    ]
}

/// The encoded parts of `pairs`, the last one closed by the terminal
/// boundary line.
pub open spec fn spec_encode_parts(pairs: Seq<(Seq<char>, Seq<char>)>, b: Seq<char>) -> Seq<
    Seq<char>,
>
    decreases pairs.len(),
{
    if pairs.len() == 0 {
        Seq::empty()
    } else if pairs.len() == 1 {
        spec_part_block(pairs[0], b, true)
    } else {
        spec_part_block(pairs[0], b, false) + spec_encode_parts(pairs.skip(1), b)
    }
}

/// A whole encoded body: the opening boundary line, then the parts.
pub open spec fn spec_encode_multipart(pairs: Seq<(Seq<char>, Seq<char>)>, b: Seq<char>) -> Seq<
    Seq<char>,
> {
    seq!["--"@ + b] + spec_encode_parts(pairs, b)
}

/// Encode the fields as the lines of a multipart body with the given
/// boundary, in insertion order, each value split at CRLF into lines.
pub fn encode_multipart(fields: &KeyValue, boundary: &str) -> (r: Vec<String>)
    ensures
        r.deep_view() == spec_encode_multipart(fields.pairs(), boundary@),
{
    let ghost ps = fields.pairs();
    let ghost b = boundary@;
    let n = fields.len();
    let mut out: Vec<String> = Vec::new();
    let mut opener = String::from_str("--");
    opener.append(boundary);
    out.push(opener);
    proof {
        assert(out.deep_view() =~= seq!["--"@ + b]);
        assert(ps.skip(0) =~= ps);
        assert(seq!["--"@ + b] + spec_encode_parts(ps, b) =~= spec_encode_multipart(ps, b));
    }
    let mut i: usize = 0;
    while i < n
        invariant
            n == fields.pairs().len(),
            ps == fields.pairs(),
            b == boundary@,
            i <= n,
            spec_encode_multipart(ps, b) == out.deep_view() + spec_encode_parts(
                ps.skip(i as int),
                b,
            ),
        decreases n - i,
    {
        let ghost dv0 = out.deep_view();
        let ghost last = i + 1 == n;
        let key = fields.key_at(i);
        let mut dl = String::from_str("Content-Disposition: form-data; name=\"");
        dl.append(key.as_str());
        dl.append("\"");
        out.push(dl);
        out.push(String::new());
        let ghost dv1 = out.deep_view();
        proof {
            assert(dv1 =~= dv0 + seq![spec_disposition_line(ps[i as int].0), Seq::<char>::empty()]);
        }
        let body_lines = crate::strutil::split_crlf(fields.value_at(i).as_str());
        let ghost blv = body_lines.deep_view();
        let m = body_lines.len();
        let mut j: usize = 0;
        proof {
            assert(dv1 + blv.take(0) =~= dv1);
        }
        while j < m
            invariant
                m == body_lines.len(),
                blv == body_lines.deep_view(),
                j <= m,
                out.deep_view() == dv1 + blv.take(j as int),
            decreases m - j,
        {
            let ghost dvj = out.deep_view();
            out.push(body_lines[j].clone());
            proof {
                assert(blv[j as int] == body_lines@[j as int]@);
                assert(out.deep_view() =~= dvj.push(blv[j as int]));
                assert(dv1 + blv.take(j as int + 1) =~= (dv1 + blv.take(j as int)).push(
                    blv[j as int],
                ));
            }
            j += 1;
        }
        proof {
            assert(blv.take(m as int) =~= blv);
        }
        let mut sep = String::from_str("--");
        sep.append(boundary);
        if i + 1 == n {
            sep.append("--");
        }
        let ghost dv2 = out.deep_view();
        let ghost sepv = sep@;
        out.push(sep);
        proof {
            assert(out.deep_view() =~= dv2.push(sepv));
            assert(dv2 =~= dv1 + blv);
            assert(sepv == if last {
                "--"@ + b + "--"@
            } else {
                "--"@ + b
            });
            assert(out.deep_view() =~= dv0 + spec_part_block(ps[i as int], b, last));
            assert(ps.skip(i as int)[0] == ps[i as int]);
            assert(ps.skip(i as int).skip(1) =~= ps.skip(i as int + 1));
            if last {
                assert(ps.skip(i as int).len() == 1);
                assert(spec_encode_parts(ps.skip(i as int + 1), b) =~= Seq::<Seq<char>>::empty());
                assert(dv0 + spec_part_block(ps[i as int], b, true) + Seq::<Seq<char>>::empty()
                    =~= dv0 + spec_part_block(ps[i as int], b, true));
                assert(out.deep_view() + spec_encode_parts(ps.skip(i as int + 1), b)
                    =~= out.deep_view());
            } else {
                assert(dv0 + (spec_part_block(ps[i as int], b, false) + spec_encode_parts(
                    ps.skip(i as int + 1),
                    b,
                )) =~= dv0 + spec_part_block(ps[i as int], b, false) + spec_encode_parts(
                    ps.skip(i as int + 1),
                    b,
                ));
            }
        }
        i += 1;
    }
    proof {
        assert(ps.skip(n as int) =~= Seq::<(Seq<char>, Seq<char>)>::empty());
        assert(out.deep_view() + spec_encode_parts(ps.skip(n as int), b) =~= out.deep_view());
    }
    out
}

} // verus!

verus! {

/// Whether a content type names `multipart/form-data`.
pub fn is_multipart(content_type: &str) -> (r: bool)
    ensures
        r == spec_is_multipart(content_type@),
{
    let params = split_char(content_type, ';');
    proof {
        lemma_split_rec_len(content_type@, ';', Seq::empty());
        assert(params.deep_view()[0] == params@[0]@);
    }
    str_eq(params[0].as_str(), "multipart/form-data")
}

} // verus!

verus! {

/// A boundary usable in a content type: non-empty, free of whitespace and
/// of the characters that delimit parameters.
pub open spec fn boundary_ok(b: Seq<char>) -> bool {
    b.len() > 0 && forall|i: int|
        0 <= i < b.len() ==> !crate::strutil::is_space(b[i]) && b[i] != ';' && b[i] != '='
}

/// A field name an encoded part can carry: free of double quotes,
/// semicolons and line breaks.
pub open spec fn name_ok(n: Seq<char>) -> bool {
    forall|i: int| 0 <= i < n.len() ==> n[i] != '"' && n[i] != ';' && n[i] != '\r' && n[i] != '\n'
}

/// A field value an encoded part can carry under boundary `b`: none of
/// its lines begins with the boundary marker.
pub open spec fn value_ok(v: Seq<char>, b: Seq<char>) -> bool {
    forall|k: int|
        0 <= k < crate::strutil::spec_split_crlf(v).len() ==> !spec_starts_with(
            crate::strutil::spec_split_crlf(v)[k],
            "--"@ + b,
        )
}

/// A well-formed boundary parses back out of the content type built
/// around it.
proof fn lemma_content_type_of_boundary(b: Seq<char>)
    requires
        boundary_ok(b),
    ensures
        spec_get_boundary("multipart/form-data; boundary="@ + b) == Ok::<Seq<char>, HttpError>(b),
{
    reveal_strlit("multipart/form-data; boundary=");
    reveal_strlit("multipart/form-data");
    reveal_strlit(" boundary=");
    reveal_strlit(" boundary");
    reveal_strlit("boundary");
    let ct = "multipart/form-data; boundary="@ + b;
    let a = "multipart/form-data"@;
    let d = " boundary="@ + b;
    assert(ct =~= a + seq![';'] + d);
    assert(forall|j: int| 0 <= j < a.len() ==> a[j] != ';');
    assert forall|j: int| 0 <= j < d.len() implies d[j] != ';' by {
        if j >= 10 {
            assert(d[j] == b[j - 10]);
        }
    }
    crate::strutil::lemma_split_rec_sep(a, d, ';', Seq::empty());
    crate::strutil::lemma_split_rec_none(d, ';', Seq::empty());
    assert(Seq::<char>::empty() + a =~= a);
    assert(Seq::<char>::empty() + d =~= d);
    assert(spec_split(ct, ';') == seq![a] + seq![d]);
    assert((seq![a] + seq![d])[0] == a);
    assert(spec_is_multipart(ct));
    assert((seq![a] + seq![d]).skip(1) =~= seq![d]);
    assert(seq![d].skip(1) =~= Seq::<Seq<char>>::empty());
    assert(forall|j: int| 0 <= j < 9 ==> d[j] != '=');
    assert(d[9] == '=');
    crate::strutil::lemma_split_once_found(d, '=', 9);
    assert(d.take(9) =~= " boundary"@);
    assert(d.skip(10) =~= b);
    let h = " boundary"@;
    assert(crate::strutil::space_pred()(h[0]));
    assert(!crate::strutil::space_pred()(h[1]));
    crate::strutil::lemma_strip_front_skip(h, crate::strutil::space_pred(), 1);
    assert(h.skip(1) =~= "boundary"@);
    assert(!crate::strutil::space_pred()("boundary"@.last()));
    crate::strutil::lemma_strip_back_take("boundary"@, crate::strutil::space_pred(), 8);
    assert("boundary"@.take(8) =~= "boundary"@);
    assert(spec_trim(h) == "boundary"@);
    assert(spec_lower("boundary"@) =~= "boundary"@) by {
        assert(forall|j: int|
            0 <= j < 8 ==> crate::strutil::spec_lower("boundary"@)[j] == "boundary"@[j]);
    }
    crate::strutil::lemma_trim_noop(b);
    assert(spec_boundary_of_param(d) == Some(b));
    assert(spec_param_boundary(Seq::<Seq<char>>::empty()) is None);
    assert(seq![d][0] == d);
    assert(spec_param_boundary(seq![d]) == Some(b));
}

/// Stripping the quotes the encoder wrapped around a quote-free name
/// gives the name back.
proof fn lemma_trim_quotes_wrap(n: Seq<char>)
    requires
        forall|i: int| 0 <= i < n.len() ==> n[i] != '"',
    ensures
        spec_trim_quotes("\""@ + n + "\""@) == n,
{
    reveal_strlit("\"");
    let q = "\""@;
    let s = q + n + q;
    if n.len() == 0 {
        assert(s[0] == '"' && s[1] == '"');
        assert(crate::strutil::quote_pred()(s[0]));
        assert(crate::strutil::quote_pred()(s[1]));
        crate::strutil::lemma_strip_front_skip(s, crate::strutil::quote_pred(), 2);
        assert(s.skip(2) =~= Seq::<char>::empty());
        assert(crate::strutil::strip_back(Seq::<char>::empty(), crate::strutil::quote_pred())
            =~= n);
    } else {
        assert(s[0] == '"');
        assert(s[1] == n[0]);
        assert(crate::strutil::quote_pred()(s[0]));
        assert(!crate::strutil::quote_pred()(s[1]));
        crate::strutil::lemma_strip_front_skip(s, crate::strutil::quote_pred(), 1);
        assert(s.skip(1) =~= n + q);
        assert forall|j: int| n.len() <= j < (n + q).len() implies crate::strutil::quote_pred()(
            (n + q)[j],
        ) by {
            assert((n + q)[j] == '"');
        }
        assert(!crate::strutil::quote_pred()((n + q)[n.len() - 1]));
        crate::strutil::lemma_strip_back_take(n + q, crate::strutil::quote_pred(), n.len() as int);
        assert((n + q).take(n.len() as int) =~= n);
    }
}

/// The disposition line the encoder writes for a well-formed name parses
/// back to that name.
proof fn lemma_disposition_line(n: Seq<char>)
    requires
        name_ok(n),
    ensures
        spec_disposition_line(n).len() > 0,
        has_char(spec_disposition_line(n), ':'),
        spec_lower(head_until(spec_disposition_line(n), ':')) == "content-disposition"@,
        spec_disposition_name(spec_trim(tail_after(spec_disposition_line(n), ':'))) == Some(n),
{
    reveal_strlit("Content-Disposition: form-data; name=\"");
    reveal_strlit("Content-Disposition");
    reveal_strlit("content-disposition");
    reveal_strlit("\"");
    reveal_strlit(" form-data; name=\"");
    reveal_strlit("form-data; name=\"");
    reveal_strlit("form-data");
    reveal_strlit(" name=\"");
    reveal_strlit(" name");
    reveal_strlit("name");
    let cd = "Content-Disposition: form-data; name=\""@;
    let q = "\""@;
    let line = cd + n + q;
    assert(line.len() > 0);
    assert(forall|j: int| 0 <= j < 19 ==> line[j] != ':');
    assert(line[19] == ':');
    crate::strutil::lemma_split_once_found(line, ':', 19);
    assert(line.take(19) =~= "Content-Disposition"@);
    assert(spec_lower("Content-Disposition"@) =~= "content-disposition"@) by {
        assert(forall|j: int|
            0 <= j < 19 ==> crate::strutil::spec_lower("Content-Disposition"@)[j]
                == "content-disposition"@[j]);
    }
    let u = line.skip(20);
    let vl = " form-data; name=\""@;
    assert(u =~= vl + n + q);
    assert(crate::strutil::space_pred()(u[0]));
    assert(!crate::strutil::space_pred()(u[1]));
    crate::strutil::lemma_strip_front_skip(u, crate::strutil::space_pred(), 1);
    let w = "form-data; name=\""@ + n + q;
    assert(u.skip(1) =~= w);
    assert(!crate::strutil::space_pred()(w.last())) by {
        assert(w.last() == '"');
    }
    crate::strutil::lemma_strip_back_take(w, crate::strutil::space_pred(), w.len() as int);
    assert(w.take(w.len() as int) =~= w);
    assert(spec_trim(tail_after(line, ':')) == w);
    let a2 = "form-data"@;
    let d2 = " name=\""@ + n + q;
    assert(w =~= a2 + seq![';'] + d2);
    assert(forall|j: int| 0 <= j < a2.len() ==> a2[j] != ';');
    assert forall|j: int| 0 <= j < d2.len() implies d2[j] != ';' by {
        if 7 <= j < 7 + n.len() {
            assert(d2[j] == n[j - 7]);
        }
        if j >= 7 + n.len() {
            assert(d2[j] == '"');
        }
    }
    crate::strutil::lemma_split_rec_sep(a2, d2, ';', Seq::empty());
    crate::strutil::lemma_split_rec_none(d2, ';', Seq::empty());
    assert(Seq::<char>::empty() + a2 =~= a2);
    assert(Seq::<char>::empty() + d2 =~= d2);
    assert(spec_split(w, ';') == seq![a2] + seq![d2]);
    assert((seq![a2] + seq![d2])[0] == a2);
    assert((seq![a2] + seq![d2]).skip(1) =~= seq![d2]);
    assert(seq![d2].skip(1) =~= Seq::<Seq<char>>::empty());
    assert(forall|j: int| 0 <= j < 5 ==> d2[j] != '=');
    assert(d2[5] == '=');
    crate::strutil::lemma_split_once_found(d2, '=', 5);
    assert(d2.take(5) =~= " name"@);
    let h2 = " name"@;
    assert(crate::strutil::space_pred()(h2[0]));
    assert(!crate::strutil::space_pred()(h2[1]));
    crate::strutil::lemma_strip_front_skip(h2, crate::strutil::space_pred(), 1);
    assert(h2.skip(1) =~= "name"@);
    assert(!crate::strutil::space_pred()("name"@.last()));
    crate::strutil::lemma_strip_back_take("name"@, crate::strutil::space_pred(), 4);
    assert("name"@.take(4) =~= "name"@);
    assert(spec_trim(h2) == "name"@);
    assert(spec_lower("name"@) =~= "name"@) by {
        assert(forall|j: int| 0 <= j < 4 ==> crate::strutil::spec_lower("name"@)[j] == "name"@[j]);
    }
    assert(d2.skip(6) =~= q + n + q);
    lemma_trim_quotes_wrap(n);
    assert(spec_name_of_param(d2) == Some(n));
    assert(spec_param_name(Seq::<Seq<char>>::empty()) is None);
    assert(seq![d2][0] == d2);
    assert(spec_param_name(seq![d2]) == Some(n));
}

} // verus!

verus! {

/// Lines that are not boundary lines are accumulated one by one into the
/// part's body.
proof fn lemma_decode_body_lines(
    lines: Seq<Seq<char>>,
    b: Seq<char>,
    i: int,
    bl: Seq<Seq<char>>,
    name: Seq<char>,
    acc: Seq<Seq<char>>,
    m: Map<Seq<char>, Seq<char>>,
)
    requires
        0 <= i,
        i + bl.len() <= lines.len(),
        forall|k: int| 0 <= k < bl.len() ==> lines[i + k] == bl[k],
        forall|k: int| 0 <= k < bl.len() ==> !spec_starts_with(bl[k], "--"@ + b),
    ensures
        spec_decode_lines(lines, b, i, PartState::Body { name, acc }, m) == spec_decode_lines(
            lines,
            b,
            i + bl.len(),
            PartState::Body { name, acc: acc + bl },
            m,
        ),
    decreases bl.len(),
{
    if bl.len() == 0 {
        assert(acc + bl =~= acc);
    } else {
        assert(lines[i] == bl[0]);
        assert forall|k: int| 0 <= k < bl.skip(1).len() implies lines[i + 1 + k] == bl.skip(1)[k] by {
            assert(bl.skip(1)[k] == bl[k + 1]);
        }
        lemma_decode_body_lines(lines, b, i + 1, bl.skip(1), name, acc.push(bl[0]), m);
        assert(acc.push(bl[0]) + bl.skip(1) =~= acc + bl);
    }
}

/// Decoding the encoded parts, starting at their first line in part-header
/// state, stores every field in order.
proof fn lemma_decode_encoded_parts(
    lines: Seq<Seq<char>>,
    pairs: Seq<(Seq<char>, Seq<char>)>,
    b: Seq<char>,
    i: int,
    m: Map<Seq<char>, Seq<char>>,
)
    requires
        boundary_ok(b),
        pairs.len() >= 1,
        forall|k: int| 0 <= k < pairs.len() ==> name_ok(pairs[k].0) && value_ok(pairs[k].1, b),
        0 <= i <= lines.len(),
        lines.skip(i) == spec_encode_parts(pairs, b),
    ensures
        spec_decode_lines(lines, b, i, PartState::Headers { found: None }, m) == Ok::<
            Map<Seq<char>, Seq<char>>,
            HttpError,
        >(crate::keyvalue::insert_all(m, pairs)),
    decreases pairs.len(),
{
    reveal_strlit("--");
    let p = pairs[0];
    let last = pairs.len() == 1;
    let block = spec_part_block(p, b, last);
    let bl = crate::strutil::spec_split_crlf(p.1);
    let rest = spec_encode_parts(pairs.skip(1), b);
    let enc = spec_encode_parts(pairs, b);
    assert(enc == if last {
        block
    } else {
        block + rest
    });
    assert(block.len() == 3 + bl.len()) by {
        crate::strutil::lemma_crlf_rec_len(p.1, Seq::empty());
    }
    assert forall|t: int| 0 <= t < block.len() implies lines[i + t] == block[t] by {
        assert(lines.skip(i)[t] == lines[i + t]);
        if !last {
            assert((block + rest)[t] == block[t]);
        }
    }
    assert(i + block.len() <= lines.len()) by {
        assert(lines.skip(i).len() == lines.len() - i);
        if !last {
            assert((block + rest).len() == block.len() + rest.len());
        }
    }
    // The disposition line.
    lemma_disposition_line(p.0);
    assert(block[0] == spec_disposition_line(p.0));
    assert(spec_decode_lines(lines, b, i, PartState::Headers { found: None }, m)
        == spec_decode_lines(lines, b, i + 1, PartState::Headers { found: Some(p.0) }, m));
    // The blank line closing the part headers.
    assert(block[1] =~= Seq::<char>::empty());
    assert(spec_decode_lines(lines, b, i + 1, PartState::Headers { found: Some(p.0) }, m)
        == spec_decode_lines(
        lines,
        b,
        i + 2,
        PartState::Body { name: p.0, acc: Seq::empty() },
        m,
    ));
    // The value's lines.
    assert forall|k: int| 0 <= k < bl.len() implies lines[i + 2 + k] == bl[k] by {
        assert(block[2 + k] == bl[k]);
    }
    lemma_decode_body_lines(lines, b, i + 2, bl, p.0, Seq::empty(), m);
    assert(Seq::<Seq<char>>::empty() + bl =~= bl);
    // The boundary line.
    let j = i + 2 + bl.len();
    let marker = "--"@ + b;
    let sep = block[2 + bl.len() as int];
    assert(lines[j] == sep);
    assert(sep == if last {
        marker + "--"@
    } else {
        marker
    });
    assert(spec_starts_with(sep, marker)) by {
        if last {
            assert((marker + "--"@).subrange(0, marker.len() as int) =~= marker);
        } else {
            assert(marker.subrange(0, marker.len() as int) =~= marker);
        }
    }
    crate::strutil::lemma_join_split_crlf(p.1);
    let m2 = m.insert(p.0, p.1);
    assert(crate::keyvalue::insert_all(m, pairs) == crate::keyvalue::insert_all(
        m2,
        pairs.skip(1),
    ));
    if last {
        assert(sep.skip(2 + b.len() as int) =~= "--"@);
        assert(spec_starts_with("--"@, "--"@)) by {
            assert("--"@.subrange(0, 2) =~= "--"@);
        }
        assert(spec_decode_lines(lines, b, j, PartState::Body { name: p.0, acc: bl }, m) == Ok::<
            Map<Seq<char>, Seq<char>>,
            HttpError,
        >(m2));
        assert(crate::keyvalue::insert_all(m2, pairs.skip(1)) == m2);
    } else {
        assert(sep.skip(2 + b.len() as int) =~= Seq::<char>::empty());
        assert(!spec_starts_with(Seq::<char>::empty(), "--"@));
        assert(spec_decode_lines(lines, b, j, PartState::Body { name: p.0, acc: bl }, m)
            == spec_decode_lines(lines, b, j + 1, PartState::Headers { found: None }, m2));
        assert(lines.skip(j + 1) =~= rest) by {
            assert forall|t: int| 0 <= t < rest.len() implies lines.skip(j + 1)[t] == rest[t] by {
                assert(lines.skip(i)[block.len() + t] == lines[i + block.len() + t]);
                assert((block + rest)[block.len() + t] == rest[t]);
            }
            assert(lines.skip(j + 1).len() == rest.len());
        }
        assert forall|k: int|
            0 <= k < pairs.skip(1).len() implies name_ok(pairs.skip(1)[k].0) && value_ok(
            pairs.skip(1)[k].1,
            b,
        ) by {
            assert(pairs.skip(1)[k] == pairs[k + 1]);
        }
        lemma_decode_encoded_parts(lines, pairs.skip(1), b, j + 1, m2);
    }
}

/// Decoding an encoded body with the content type built around the same
/// boundary reproduces exactly the encoded field set: the round trip over
/// all well-formed fields and boundaries.
pub proof fn lemma_multipart_round_trip(pairs: Seq<(Seq<char>, Seq<char>)>, b: Seq<char>)
    requires
        pairs.len() >= 1,
        boundary_ok(b),
        forall|k: int| 0 <= k < pairs.len() ==> name_ok(pairs[k].0) && value_ok(pairs[k].1, b),
    ensures
        spec_read_multipart(spec_encode_multipart(pairs, b), "multipart/form-data; boundary="@ + b)
            == Ok::<Map<Seq<char>, Seq<char>>, HttpError>(crate::keyvalue::map_of(pairs)),
{
    lemma_content_type_of_boundary(b);
    let lines = spec_encode_multipart(pairs, b);
    let marker = "--"@ + b;
    assert(lines[0] == marker);
    assert(spec_ends_with(lines[0], marker)) by {
        assert(marker.subrange(0, marker.len() as int) =~= marker);
    }
    assert(lines.skip(1) =~= spec_encode_parts(pairs, b));
    lemma_decode_encoded_parts(lines, pairs, b, 1, Map::empty());
    crate::keyvalue::lemma_insert_all_map_of(pairs);
}

} // verus!

verus! {

/// Decoding never signals completion without a terminal boundary line: if
/// no line both starts with `--<boundary>` and continues with `--`, the
/// decoder cannot succeed — it runs off the end of the body and fails,
/// with a truncation error once the lines are exhausted.
pub proof fn lemma_no_terminal_no_completion(
    lines: Seq<Seq<char>>,
    b: Seq<char>,
    i: int,
    st: PartState,
    m: Map<Seq<char>, Seq<char>>,
)
    requires
        forall|j: int|
            i <= j < lines.len() ==> !(spec_starts_with(lines[j], "--"@ + b) && spec_starts_with(
                lines[j].skip(2 + b.len() as int),
                "--"@,
            )),
    ensures
        !(spec_decode_lines(lines, b, i, st, m) is Ok),
    decreases lines.len() - i,
{
    if 0 <= i < lines.len() {
        match st {
            PartState::Headers { found } => {
                if lines[i].len() == 0 {
                    match found {
                        None => {},
                        Some(name) => {
                            lemma_no_terminal_no_completion(
                                lines,
                                b,
                                i + 1,
                                PartState::Body { name, acc: Seq::empty() },
                                m,
                            );
                        },
                    }
                } else if has_char(lines[i], ':') {
                    lemma_no_terminal_no_completion(
                        lines,
                        b,
                        i + 1,
                        PartState::Headers {
                            found: if spec_lower(head_until(lines[i], ':'))
                                == "content-disposition"@ {
                                spec_disposition_name(spec_trim(tail_after(lines[i], ':')))
                            } else {
                                found
                            },
                        },
                        m,
                    );
                }
            },
            PartState::Body { name, acc } => {
                if spec_starts_with(lines[i], "--"@ + b) {
                    lemma_no_terminal_no_completion(
                        lines,
                        b,
                        i + 1,
                        PartState::Headers { found: None },
                        m.insert(name, crate::strutil::spec_join_crlf(acc)),
                    );
                } else {
                    lemma_no_terminal_no_completion(
                        lines,
                        b,
                        i + 1,
                        PartState::Body { name, acc: acc.push(lines[i]) },
                        m,
                    );
                }
            },
        }
    }
}

} // verus!
