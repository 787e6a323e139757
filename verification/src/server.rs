//! The rules of the bridge's HTTP server.

use crate::application::{ApiError, ApiResponse, ErrorCode};
use crate::json::{Json, JsonView};
use crate::text;
use vstd::prelude::*;

verus! {

/// Whether a host is this server by one of its local names.
pub open spec fn is_own_host(host: Seq<char>, port: u16) -> bool {
    let number = text::decimal(port as nat);
    ||| host == "127.0.0.1:"@ + number
    ||| host == "localhost:"@ + number
    ||| host == "[::1]:"@ + number
}

/// Whether an origin is a page of this server.
pub open spec fn is_own_origin(origin: Seq<char>, port: u16) -> bool {
    let number = text::decimal(port as nat);
    ||| origin == "http://127.0.0.1:"@ + number
    ||| origin == "http://localhost:"@ + number
    ||| origin == "http://[::1]:"@ + number
}

/// The origin that a request names.
pub enum Origin {
    /// None, as a program sends it.
    Absent,
    /// One that is not text.
    Unreadable,
    Named(String),
}

/// Whether a request is let in: it must be meant for this server, and come from
/// a program or from one of this server's own pages.
pub open spec fn is_let_in(host: Option<Seq<char>>, origin: Origin, port: u16) -> bool {
    (host matches Some(host) && is_own_host(host, port)) && match origin {
        Origin::Absent => true,
        Origin::Unreadable => false,
        Origin::Named(origin) => is_own_origin(origin@, port),
    }
}

fn ends_in_port(name: &str, start: &str, number: &str) -> (r: bool)
    ensures
        r == (name@ == start@ + number@),
{
    let whole = text::joined(start, number);
    text::same(name, whole.as_str())
}

/// Whether a request is let in. `host` is the host that it names, if that is
/// text.
pub fn origin_guard(host: &Option<String>, origin: &Origin, port: u16) -> (r: bool)
    ensures
        r == is_let_in(text::option_view(*host), *origin, port),
{
    let number = text::decimal_text(port as u64);
    let n = number.as_str();
    let own: bool = match host {
        Some(host) => ends_in_port(host.as_str(), "127.0.0.1:", n) || ends_in_port(
            host.as_str(),
            "localhost:",
            n,
        ) || ends_in_port(host.as_str(), "[::1]:", n),
        None => false,
    };
    own && match origin {
        Origin::Absent => true,
        Origin::Unreadable => false,
        Origin::Named(origin) => ends_in_port(origin.as_str(), "http://127.0.0.1:", n)
            || ends_in_port(origin.as_str(), "http://localhost:", n) || ends_in_port(
            origin.as_str(),
            "http://[::1]:",
            n,
        ),
    }
}

/// A page of another site is never let in.
pub proof fn law_foreign_pages_stay_out(host: Option<Seq<char>>, origin: String, port: u16)
    requires
        !is_own_origin(origin@, port),
    ensures
        !is_let_in(host, Origin::Named(origin), port),
{
}

/// The HTTP status of a response.
pub open spec fn status_of(response: ApiResponse) -> u16 {
    match response {
        ApiResponse::Success { .. } => 200,
        ApiResponse::Failure { error } => if error.code == ErrorCode::InvalidInput {
            400
        } else {
            422
        },
    }
}

/// The HTTP status of a response: 400 for invalid input, 422 for any other
/// error.
pub fn http_status(response: &ApiResponse) -> (r: u16)
    ensures
        r == status_of(*response),
{
    match response {
        ApiResponse::Success { .. } => 200,
        ApiResponse::Failure { error } => match error.code {
            ErrorCode::InvalidInput => 400,
            _ => 422,
        },
    }
}

/// The response to what a request came to.
pub fn respond(result: Result<Json, ApiError>) -> (r: ApiResponse)
    ensures
        match result {
            Ok(data) => r == (ApiResponse::Success { data }),
            Err(error) => r == (ApiResponse::Failure { error }),
        },
{
    match result {
        Ok(data) => ApiResponse::Success { data },
        Err(error) => ApiResponse::Failure { error },
    }
}

/// The workspace that a request to attach names; empty if it names none.
pub fn attach_path(body: &Json) -> (r: &str)
    ensures
        r@ == body@.field("workspace"@).text_or_empty(),
{
    body.at("workspace").str_or_empty()
}

/// A plain error as JSON.
pub fn plain_error(message: &str) -> (r: Json)
    ensures
        r@ == JsonView::object().with("error"@, JsonView::Text(message@)),
{
    Json::object().with("error", Json::text(message))
}

/// A request to this machine by one of its own names, with the right port, is let in,
/// from no page or from one of this machine; no other is.
pub proof fn law_own_requests_are_let_in(host: Option<Seq<char>>, origin: Origin, port: u16)
    ensures
        ({
            let number = text::decimal(port as nat);
            let own = host == Some("127.0.0.1:"@ + number) || host == Some("localhost:"@ + number)
                || host == Some("[::1]:"@ + number);
            let page = match origin {
                Origin::Absent => true,
                Origin::Unreadable => false,
                Origin::Named(name) => name@ == "http://127.0.0.1:"@ + number || name@
                    == "http://localhost:"@ + number || name@ == "http://[::1]:"@ + number,
            };
            is_let_in(host, origin, port) <==> own && page
        }),
{
}

/// A response that holds data succeeds; one for invalid input is a bad request, and
/// any other error one that could not be carried out.
pub proof fn law_statuses_of_responses(response: ApiResponse)
    ensures
        response is Success ==> status_of(response) == 200,
        response matches ApiResponse::Failure { error } ==> status_of(response) == if error.code
            == ErrorCode::InvalidInput {
            400u16
        } else {
            422u16
        },
{
}

} // verus!
