//! Routing decisions: which response a parsed request earns, and which
//! submissions are handed to the notifier before answering.
use vstd::prelude::*;
use vstd::string::*;

use crate::http::primitives::{
    HttpMethod, HttpPayload, HttpRequest, HttpResponse, HttpStatus, RequestModel,
};
use crate::strutil::str_eq;

verus! {

/// The two redirect targets of the submission flow.
pub struct Config {
    pub final_url: String,
    pub error_url: String,
}

/// A mail handed to the notifier: its subject and its body text.
pub struct Submission {
    pub subject: String,
    pub body: String,
}

/// What the handler decides for a request: answer at once, or hand a mail
/// to the notifier first and answer with a redirect afterwards.
pub enum HandlerStep {
    Reply(HttpResponse),
    Notify(Submission),
}

/// The mail body composed from the submitted fields.
pub open spec fn spec_mail_body(name: Seq<char>, email: Seq<char>, message: Seq<char>) -> Seq<
    char,
> {
    "From: "@ + name + " <"@ + email + ">\r\n\r\n"@ + message
}

/// The request is a form submission: a POST to `/submit` with a decoded
/// body.
pub open spec fn spec_is_submit(q: RequestModel) -> bool {
    q.method == HttpMethod::Post && q.path == "/submit"@ && q.payload is Some
}

/// The request is a health check: a GET to `/healthcheck`.
pub open spec fn spec_is_health(q: RequestModel) -> bool {
    q.method == HttpMethod::Get && q.path == "/healthcheck"@
}

/// The decoded fields of a submission (empty for other requests).
pub open spec fn spec_submit_fields(q: RequestModel) -> Map<Seq<char>, Seq<char>> {
    match q.payload {
        Some(m) => m,
        None => Map::empty(),
    }
}

/// All four required form fields are present.
pub open spec fn spec_has_required_fields(m: Map<Seq<char>, Seq<char>>) -> bool {
    m.contains_key("name"@) && m.contains_key("email"@) && m.contains_key("subject"@)
        && m.contains_key("message"@)
}

/// The status of the immediate answer to a request that needs no notifier:
/// a submission with a missing field is a bad request, the health route
/// answers no-content, anything else is not found.
pub open spec fn spec_plain_status(q: RequestModel) -> HttpStatus {
    if spec_is_submit(q) {
        HttpStatus::BadRequest
    } else if spec_is_health(q) {
        HttpStatus::NoContent
    } else {
        HttpStatus::NotFound
    }
}

/// The handler's whole contract over the request model `q`: a submission
/// with all fields present becomes a mail whose subject is the submitted
/// subject; everything else is answered at once with a bare response.
pub open spec fn spec_step_ok(r: HandlerStep, q: RequestModel) -> bool {
    &&& (r is Notify) == (spec_is_submit(q) && spec_has_required_fields(spec_submit_fields(q)))
    &&& match r {
        HandlerStep::Notify(sub) => {
            let m = spec_submit_fields(q);
            sub.subject@ == m["subject"@] && sub.body@ == spec_mail_body(
                m["name"@],
                m["email"@],
                m["message"@],
            )
        },
        HandlerStep::Reply(resp) => resp.status == spec_plain_status(q) && resp.headers.deep_view()
            == Seq::<Seq<char>>::empty() && resp.body@ == Seq::<u8>::empty(),
    }
}

fn compose_mail(name: &str, email: &str, message: &str) -> (r: String)
    ensures
        r@ == spec_mail_body(name@, email@, message@),
{
    let mut out = String::from_str("From: ");
    out.append(name);
    out.append(" <");
    out.append(email);
    out.append(">\r\n\r\n");
    out.append(message);
    out
}

fn bare_response(status: HttpStatus) -> (r: HttpResponse)
    ensures
        r.status == status,
        r.headers.deep_view() == Seq::<Seq<char>>::empty(),
        r.body@ == Seq::<u8>::empty(),
{
    let headers: Vec<String> = Vec::new();
    let body: Vec<u8> = Vec::new();
    proof {
        assert(headers.deep_view() =~= Seq::<Seq<char>>::empty());
        assert(body@ =~= Seq::<u8>::empty());
    }
    HttpResponse { status, headers, body }
}

/// Decide a parsed request.
pub fn http_handler(request: HttpRequest) -> (r: HandlerStep)
    ensures
        spec_step_ok(r, request@),
{
    let is_post = match request.method {
        HttpMethod::Post => true,
        HttpMethod::Get => false,
    };
    let path_submit = str_eq(request.path.as_str(), "/submit");
    let path_health = str_eq(request.path.as_str(), "/healthcheck");
    if is_post && path_submit {
        match request.payload {
            Some(HttpPayload::KeyValue(fields)) => {
                match (
                    fields.get("name"),
                    fields.get("email"),
                    fields.get("subject"),
                    fields.get("message"),
                ) {
                    (Some(name), Some(email), Some(subject), Some(message)) => {
                        let body = compose_mail(name.as_str(), email.as_str(), message.as_str());
                        HandlerStep::Notify(Submission { subject: subject.clone(), body })
                    },
                    _ => HandlerStep::Reply(bare_response(HttpStatus::BadRequest)),
                }
            },
            None => HandlerStep::Reply(bare_response(HttpStatus::NotFound)),
        }
    } else if !is_post && path_health {
        HandlerStep::Reply(bare_response(HttpStatus::NoContent))
    } else {
        HandlerStep::Reply(bare_response(HttpStatus::NotFound))
    }
}

/// The redirect closing a submission: to the success URL when the notifier
/// delivered the mail, to the error URL when it failed.
pub fn submission_response(config: &Config, delivered: bool) -> (r: HttpResponse)
    ensures
        r.status == HttpStatus::Found,
        r.headers.deep_view() == seq![
            "Location: "@ + if delivered {
                config.final_url@
            } else {
                config.error_url@
            },
        ],
        r.body@ == Seq::<u8>::empty(),
{
    let mut loc = String::from_str("Location: ");
    if delivered {
        loc.append(config.final_url.as_str());
    } else {
        loc.append(config.error_url.as_str());
    }
    let mut headers: Vec<String> = Vec::new();
    let ghost locv = loc@;
    headers.push(loc);
    let body: Vec<u8> = Vec::new();
    proof {
        assert(headers.deep_view() =~= seq![locv]);
        assert(body@ =~= Seq::<u8>::empty());
    }
    HttpResponse { status: HttpStatus::Found, headers, body }
}

} // verus!
