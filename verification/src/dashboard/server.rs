//! Who may see the dashboard, and what is served.
use vstd::prelude::*;

use super::api::{error_answer, error_reply, ApiReply, Reply};
use crate::config::opt_str;
use crate::text::{
    decimal, decimal_text, joined, trim_leading, trim_trailing, without_leading, without_trailing,
};

verus! {

/// Whether a request to the dashboard is let in.
#[derive(Debug)]
pub enum AuthDecision {
    Admit,
    Refuse { reply: ApiReply },
}

/// What a decision says.
#[verifier::ext_equal]
pub enum Auth {
    Admit,
    Refuse { reply: Reply },
}

impl View for AuthDecision {
    type V = Auth;

    open spec fn view(&self) -> Auth {
        match self {
            AuthDecision::Admit => Auth::Admit,
            AuthDecision::Refuse { reply } => Auth::Refuse { reply: reply@ },
        }
    }
}

/// The paths that monitoring systems read without a token.
pub open spec fn is_public(path: Seq<char>) -> bool {
    path == "/health"@ || path == "/metrics"@
}

/// The path of the live stream, which asks for the token itself.
pub open spec fn is_live(path: Seq<char>) -> bool {
    path == "/api/ws/live"@
}

/// The authorization that a token makes.
pub open spec fn bearer(token: Seq<char>) -> Seq<char> {
    "Bearer "@ + token
}

/// What is decided of a request for a path with this authorization, if any.
pub open spec fn authorized(
    path: Seq<char>,
    authorization: Option<Seq<char>>,
    token: Seq<char>,
) -> Auth {
    if is_public(path) || is_live(path) || authorization == Some(bearer(token)) {
        Auth::Admit
    } else {
        Auth::Refuse {
            reply: error_reply(401, "Invalid or missing Authorization: Bearer token"@),
        }
    }
}

/// Decides on a request for a path.
pub fn authorize(path: &str, authorization: Option<&str>, token: &str) -> (d: AuthDecision)
    ensures
        d@ == authorized(path@, opt_str(authorization), token@),
{
    if *path == *"/health" || *path == *"/metrics" {
        return AuthDecision::Admit;
    }
    if *path == *"/api/ws/live" {
        return AuthDecision::Admit;
    }
    let expected = joined("Bearer ", token);
    let admitted = match authorization {
        Some(provided) => *provided == *expected.as_str(),
        None => false,
    };
    if admitted {
        AuthDecision::Admit
    } else {
        AuthDecision::Refuse {
            reply: error_answer(401, "Invalid or missing Authorization: Bearer token"),
        }
    }
}

/// Whether the live stream is opened for a caller with this token, if any.
pub fn admits_to_live(given: Option<&str>, token: &str) -> (r: bool)
    ensures
        r == (opt_str(given) == Some(token@)),
{
    match given {
        Some(given) => *given == *token,
        None => false,
    }
}

/// Every path but the public ones and that of the live stream is for those alone
/// who have the token.
pub proof fn law_only_bearers_are_admitted(
    path: Seq<char>,
    authorization: Option<Seq<char>>,
    token: Seq<char>,
)
    requires
        !is_public(path),
        !is_live(path),
    ensures
        authorized(path, authorization, token) is Admit <==> authorization == Some(bearer(token)),
{
}

/// The origins from which a browser may talk to the dashboard on a port: this
/// machine, by either of its names.
pub fn allowed_origins(port: u16) -> (origins: (String, String))
    ensures
        origins.0@ == "http://localhost:"@ + decimal(port as nat),
        origins.1@ == "http://127.0.0.1:"@ + decimal(port as nat),
{
    let number = decimal_text(port as u64);
    (
        joined("http://localhost:", number.as_str()),
        joined("http://127.0.0.1:", number.as_str()),
    )
}

/// Where a path is looked up among the files of the dashboard, one place after
/// the other: the path itself, the index of the directory of that name, and the
/// index of all.
pub fn asset_keys(path: &str) -> (keys: (String, String, String))
    ensures
        keys.0@ == without_leading(path@, '/'),
        keys.1@ == without_leading(without_trailing(path@, '/') + "/index.html"@, '/'),
        keys.2@ == "index.html"@,
{
    let directory = joined(trim_trailing(path, '/').as_str(), "/index.html");
    (
        trim_leading(path, '/'),
        trim_leading(directory.as_str(), '/'),
        "index.html".to_owned(),
    )
}

/// The media type that `mime_guess` guesses from a path.
pub uninterp spec fn guessed_type(path: Seq<char>) -> Seq<char>;

/// `mime_guess::from_path`, its first guess: the media type that goes by the
/// extension of a path, and that of mere bytes where none is known.
#[verifier::external_body]
fn guess_type(path: &str) -> (media_type: String)
    ensures
        media_type@ == guessed_type(path@),
{
    mime_guess::from_path(path).first_or_octet_stream().to_string()
}

/// The media type of a file of the dashboard.
pub fn content_type(key: &str) -> (media_type: String)
    ensures
        media_type@ == guessed_type(key@),
{
    guess_type(key)
}

/// The answer where there are no files of the dashboard.
pub fn not_built() -> (r: ApiReply)
    ensures
        r@ == (Reply {
            status: 503,
            json: false,
            body: "Dashboard not built. Run `npm run build` inside the `dashboard/` directory."@,
        }),
{
    ApiReply {
        status: 503,
        json: false,
        body: "Dashboard not built. Run `npm run build` inside the `dashboard/` directory.".to_owned(),
    }
}

/// Two paths are open to all, that of the live stream asks for the token itself, and a
/// request for any other is let in if and only if its authorization is the word `Bearer`,
/// a blank and the token; else it is refused with the status 401.
pub proof fn law_the_token_opens_the_dashboard(
    path: Seq<char>,
    authorization: Option<Seq<char>>,
    token: Seq<char>,
)
    ensures
        authorized("/health"@, authorization, token) is Admit,
        authorized("/metrics"@, authorization, token) is Admit,
        authorized("/api/ws/live"@, authorization, token) is Admit,
        path != "/health"@ && path != "/metrics"@ && path != "/api/ws/live"@ ==> {
            &&& authorized(path, authorization, token) is Admit <==> authorization == Some(
                "Bearer "@ + token,
            )
            &&& authorized(path, authorization, token) matches Auth::Refuse { reply }
                ==> reply.status == 401
        },
{
}

} // verus!
