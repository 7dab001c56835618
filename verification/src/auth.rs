//! What the authentication layer decides: which token a request carries, how
//! its errors are answered, and how upstream failures are reported.
use vstd::prelude::*;
use crate::proto::auth::{AuthErrorBody, Session, TokenClaims};
use crate::text::{chars_of, push_str, string_from, string_of};

verus! {

/// Errors of authentication, as values.
pub enum AuthErrorView {
    MissingHeader,
    MalformedHeader,
    InvalidToken(Seq<char>),
}

/// Errors of authentication.
#[derive(Debug)]
pub enum AuthError {
    MissingHeader,
    MalformedHeader,
    InvalidToken(String),
}

impl View for AuthError {
    type V = AuthErrorView;

    open spec fn view(&self) -> AuthErrorView {
        match self {
            AuthError::MissingHeader => AuthErrorView::MissingHeader,
            AuthError::MalformedHeader => AuthErrorView::MalformedHeader,
            AuthError::InvalidToken(m) => AuthErrorView::InvalidToken(m@),
        }
    }
}

/// The message of an authentication error.
pub open spec fn auth_error_text(e: AuthErrorView) -> Seq<char> {
    match e {
        AuthErrorView::MissingHeader => "missing Authorization header"@,
        AuthErrorView::MalformedHeader => "malformed Authorization header"@,
        AuthErrorView::InvalidToken(m) => "invalid token: "@ + m,
    }
}

impl AuthError {
    /// The error's message.
    pub fn message(&self) -> (r: String)
        ensures
            r@ == auth_error_text(self@),
    {
        match self {
            AuthError::MissingHeader => string_from("missing Authorization header"),
            AuthError::MalformedHeader => string_from("malformed Authorization header"),
            AuthError::InvalidToken(m) => {
                let mut r = string_from("invalid token: ");
                push_str(&mut r, m.as_str());
                r
            },
        }
    }

    /// The HTTP status that answers every authentication error: unauthorized.
    pub fn status(&self) -> (r: u16)
        ensures
            r == 401,
    {
        401
    }
}

/// The claims of a verified token, attached to the request it came with.
pub struct AuthClaims(pub TokenClaims);

/// The token that an `Authorization` header carries: `None` when there is no
/// header, `Some(None)` when its value is not text, else its text, which must
/// start with `Bearer `.
pub open spec fn bearer_of(header: Option<Option<Seq<char>>>) -> Result<Seq<char>, AuthErrorView> {
    match header {
        None => Err(AuthErrorView::MissingHeader),
        Some(None) => Err(AuthErrorView::MalformedHeader),
        Some(Some(v)) => {
            let p = "Bearer "@;
            if v.len() >= p.len() && v.subrange(0, p.len() as int) == p {
                Ok(v.subrange(p.len() as int, v.len() as int))
            } else {
                Err(AuthErrorView::MalformedHeader)
            }
        },
    }
}

pub open spec fn header_view(h: Option<Option<&str>>) -> Option<Option<Seq<char>>> {
    match h {
        None => None,
        Some(None) => Some(None),
        Some(Some(s)) => Some(Some(s@)),
    }
}

pub open spec fn token_view(r: Result<String, AuthError>) -> Result<Seq<char>, AuthErrorView> {
    match r {
        Ok(s) => Ok(s@),
        Err(e) => Err(e@),
    }
}

/// The bearer token of a request's `Authorization` header.
pub fn bearer_token(header: Option<Option<&str>>) -> (r: Result<String, AuthError>)
    ensures
        token_view(r) == bearer_of(header_view(header)),
{
    let value = match header {
        None => return Err(AuthError::MissingHeader),
        Some(None) => return Err(AuthError::MalformedHeader),
        Some(Some(v)) => v,
    };
    let cs = chars_of(value);
    let prefix = chars_of("Bearer ");
    if cs.len() < prefix.len() {
        return Err(AuthError::MalformedHeader);
    }
    let mut i: usize = 0;
    while i < prefix.len()
        invariant
            header_view(header) == Some(Some(value@)),
            prefix@ == "Bearer "@,
            cs@ == value@,
            prefix@.len() <= cs@.len(),
            i <= prefix@.len(),
            forall|j: int| 0 <= j < i ==> cs@[j] == prefix@[j],
        decreases prefix.len() - i,
    {
        if cs[i] != prefix[i] {
            assert(cs@.subrange(0, prefix@.len() as int)[i as int] != prefix@[i as int]);
            return Err(AuthError::MalformedHeader);
        }
        i = i + 1;
    }
    assert(cs@.subrange(0, prefix@.len() as int) =~= prefix@);
    Ok(string_of(&cs, prefix.len(), cs.len()))
}

/// The status that answers an upstream failure: unauthorized stays
/// unauthorized, other client errors become bad requests, the rest bad gateway.
pub open spec fn upstream_status_of(status: u16) -> u16 {
    if status == 401 {
        401
    } else if status < 500 {
        400
    } else {
        502
    }
}

/// The status that answers an upstream failure with `status`.
pub fn upstream_error_status(status: u16) -> (r: u16)
    ensures
        r == upstream_status_of(status),
{
    if status == 401 {
        401
    } else if status < 500 {
        400
    } else {
        502
    }
}

/// `s` without its trailing slashes.
pub open spec fn trim_slashes(s: Seq<char>) -> Seq<char>
    decreases s.len(),
{
    if s.len() > 0 && s[s.len() - 1] == '/' {
        trim_slashes(s.subrange(0, s.len() - 1))
    } else {
        s
    }
}

/// The base address of the upstream authentication server.
pub fn upstream_endpoint(url: &str) -> (r: String)
    ensures
        r@ == trim_slashes(url@),
{
    let cs = chars_of(url);
    let mut n = cs.len();
    assert(cs@.subrange(0, n as int) =~= cs@);
    while n > 0 && cs[n - 1] == '/'
        invariant
            n <= cs@.len(),
            trim_slashes(cs@) == trim_slashes(cs@.subrange(0, n as int)),
        decreases n,
    {
        assert(cs@.subrange(0, n as int).subrange(0, n - 1) =~= cs@.subrange(0, n - 1));
        n = n - 1;
    }
    string_of(&cs, 0, n)
}

/// The address of `path` on the upstream server at `endpoint`.
pub fn upstream_url(endpoint: &str, path: &str) -> (r: String)
    ensures
        r@ == endpoint@ + path@,
{
    let mut r = string_from(endpoint);
    push_str(&mut r, path);
    r
}

/// What the JSON text `body` holds as a string under `key`, when it is an
/// object with that key.
pub uninterp spec fn json_string_field(body: Seq<u8>, key: Seq<char>) -> Option<Seq<char>>;

/// `serde_json::from_slice` into a `serde_json::Value`, then `Value::get(key)`
/// on it, keeping the field when it is a JSON string. Its result is stated only
/// through [`json_string_field`], a function of the bytes and the key.
#[verifier::external_body]
fn json_string_at(body: &[u8], key: &str) -> (r: Option<String>)
    ensures
        match r {
            Some(s) => json_string_field(body@, key@) == Some(s@),
            None => json_string_field(body@, key@) is None,
        },
{
    let value: serde_json::Value = match serde_json::from_slice(body) {
        Ok(v) => v,
        Err(_) => return None,
    };
    match value.get(key) {
        Some(serde_json::Value::String(s)) => Some(s.clone()),
        _ => None,
    }
}

/// The message and code that an upstream error body gives: the message is the
/// first of `error_description`, `msg` and `error` that the body holds as a
/// string, else `auth error`; the code is `error_code`.
pub open spec fn upstream_error_of(body: Seq<u8>) -> (Seq<char>, Option<Seq<char>>) {
    let message = match json_string_field(body, "error_description"@) {
        Some(m) => m,
        None => match json_string_field(body, "msg"@) {
            Some(m) => m,
            None => match json_string_field(body, "error"@) {
                Some(m) => m,
                None => "auth error"@,
            },
        },
    };
    (message, json_string_field(body, "error_code"@))
}

pub open spec fn opt_view(o: Option<String>) -> Option<Seq<char>> {
    match o {
        Some(s) => Some(s@),
        None => None,
    }
}

/// The message and code of an upstream error body.
pub fn upstream_error(body: &[u8]) -> (r: (String, Option<String>))
    ensures
        (r.0@, opt_view(r.1)) == upstream_error_of(body@),
{
    let message = match json_string_at(body, "error_description") {
        Some(m) => m,
        None => match json_string_at(body, "msg") {
            Some(m) => m,
            None => match json_string_at(body, "error") {
                Some(m) => m,
                None => string_from("auth error"),
            },
        },
    };
    let code = json_string_at(body, "error_code");
    (message, code)
}

/// Whether an upstream status is a success (2xx).
pub fn upstream_succeeded(status: u16) -> (r: bool)
    ensures
        r == (200 <= status < 300),
{
    200 <= status && status < 300
}

/// What came of forwarding a sign-up, login or refresh to the upstream server.
pub enum SessionOutcome {
    /// The request could not be sent.
    Unreachable,
    /// The upstream answer's body could not be read.
    Unreadable,
    /// The upstream server answered with a status that is not a success, and this body.
    Failed { status: u16, body: Vec<u8> },
    /// The upstream server succeeded, but its body is not a session.
    Malformed,
    /// The session's access token failed local verification.
    Unverified,
    /// A session whose access token verified, with its claims.
    Issued { session: Session, claims: TokenClaims },
}

/// What came of forwarding a logout to the upstream server.
pub enum LogoutOutcome {
    /// The request carried no `Authorization` header, so nothing was forwarded.
    MissingHeader,
    /// The request could not be sent.
    Unreachable,
    /// The upstream server refused, with this body (empty where it could not be read).
    Failed { body: Vec<u8> },
    /// The upstream server logged the session out.
    LoggedOut,
}

/// The answer of the authentication service.
pub enum AuthReply {
    /// An error, with its HTTP status.
    Failure { status: u16, body: AuthErrorBody },
    /// A session with the claims of its access token (status 200).
    Session { session: Session, claims: TokenClaims },
    /// Nothing to send back (status 204).
    NoContent,
}

/// A failure's status, message and code, or `None` for another answer.
pub open spec fn failure_view(r: AuthReply) -> Option<(u16, Seq<char>, Option<Seq<char>>)> {
    match r {
        AuthReply::Failure { status, body } => Some((status, body.error@, opt_view(body.code))),
        _ => None,
    }
}

/// The failure that answers an upstream error body, with the given status.
pub open spec fn upstream_failure(status: u16, body: Seq<u8>) -> Option<
    (u16, Seq<char>, Option<Seq<char>>),
> {
    Some((status, upstream_error_of(body).0, upstream_error_of(body).1))
}

/// How a forwarded sign-up, login or refresh is answered: a failure of the
/// upstream server is a bad gateway, a refusal keeps the upstream message and
/// code under the mapped status, and an issued session is handed out.
pub open spec fn session_failure(outcome: SessionOutcome) -> Option<
    (u16, Seq<char>, Option<Seq<char>>),
> {
    match outcome {
        SessionOutcome::Unreachable => Some((502, "auth upstream unreachable"@, None)),
        SessionOutcome::Unreadable => Some((502, "auth upstream read failed"@, None)),
        SessionOutcome::Failed { status, body } => upstream_failure(
            upstream_status_of(status),
            body@,
        ),
        SessionOutcome::Malformed => Some((502, "unexpected upstream response"@, None)),
        SessionOutcome::Unverified => Some(
            (502, "issued token failed local verification"@, None),
        ),
        SessionOutcome::Issued { .. } => None,
    }
}

/// How a forwarded logout is answered: without a header it is unauthorized, an
/// unreachable upstream is a bad gateway, a refusal is a bad request with the
/// upstream message and code, and success has no content.
pub open spec fn logout_failure(outcome: LogoutOutcome) -> Option<
    (u16, Seq<char>, Option<Seq<char>>),
> {
    match outcome {
        LogoutOutcome::MissingHeader => Some((401, "missing Authorization header"@, None)),
        LogoutOutcome::Unreachable => Some((502, "auth upstream unreachable"@, None)),
        LogoutOutcome::Failed { body } => upstream_failure(400, body@),
        LogoutOutcome::LoggedOut => None,
    }
}

fn failure(status: u16, message: &str) -> (r: AuthReply)
    ensures
        failure_view(r) == Some((status, message@, None::<Seq<char>>)),
{
    AuthReply::Failure { status, body: AuthErrorBody { error: string_from(message), code: None } }
}

fn upstream_failure_reply(status: u16, body: &[u8]) -> (r: AuthReply)
    ensures
        failure_view(r) == upstream_failure(status, body@),
{
    let (error, code) = upstream_error(body);
    AuthReply::Failure { status, body: AuthErrorBody { error, code } }
}

/// The answer to a forwarded sign-up, login or refresh.
pub fn session_reply(outcome: SessionOutcome) -> (r: AuthReply)
    ensures
        failure_view(r) == session_failure(outcome),
        outcome matches SessionOutcome::Issued { session, claims } ==> r == (AuthReply::Session {
            session,
            claims,
        }),
{
    match outcome {
        SessionOutcome::Unreachable => failure(502, "auth upstream unreachable"),
        SessionOutcome::Unreadable => failure(502, "auth upstream read failed"),
        SessionOutcome::Failed { status, body } => upstream_failure_reply(
            upstream_error_status(status),
            body.as_slice(),
        ),
        SessionOutcome::Malformed => failure(502, "unexpected upstream response"),
        SessionOutcome::Unverified => failure(502, "issued token failed local verification"),
        SessionOutcome::Issued { session, claims } => AuthReply::Session { session, claims },
    }
}

/// The answer to a forwarded logout.
pub fn logout_reply(outcome: LogoutOutcome) -> (r: AuthReply)
    ensures
        failure_view(r) == logout_failure(outcome),
        outcome is LoggedOut ==> r is NoContent,
{
    match outcome {
        LogoutOutcome::MissingHeader => failure(401, "missing Authorization header"),
        LogoutOutcome::Unreachable => failure(502, "auth upstream unreachable"),
        LogoutOutcome::Failed { body } => upstream_failure_reply(400, body.as_slice()),
        LogoutOutcome::LoggedOut => AuthReply::NoContent,
    }
}

} // verus!
