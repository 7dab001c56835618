//! Messages of the authentication service.
use vstd::prelude::*;

verus! {

pub struct SignupRequest {
    pub email: String,
    pub password: String,
}

pub struct LoginRequest {
    pub email: String,
    pub password: String,
}

pub struct AuthResponse {
    pub access_token: String,
    pub token_type: String,
    pub subject: String,
}

/// What a verified access token says about its bearer.
pub struct TokenClaims {
    pub subject: String,
    pub exp: i64,
    pub email: Option<String>,
}

/// The tokens of a session that the upstream server issued.
pub struct Session {
    pub access_token: String,
    pub refresh_token: String,
    pub token_type: String,
    pub expires_in: i64,
}

/// The body of an authentication error.
pub struct AuthErrorBody {
    pub error: String,
    pub code: Option<String>,
}

} // verus!
