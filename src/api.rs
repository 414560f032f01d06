use vstd::prelude::*;

verus! {

/// The credentials sent to the server's login endpoint.
#[derive(Clone)]
pub struct LoginReq {
    pub username: String,
    pub password: String,
    pub stay_logged_in: bool,
}

/// The server's answer to a successful login.
#[derive(Clone)]
pub struct LoginRes {
    pub attachment_token: String,
    pub expires_at: String,
    pub token: String,
}

} // verus!
