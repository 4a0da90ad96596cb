//! User authentication decisions.
//!
//! Password hashing and checking go through bcrypt; everything decided
//! around the bcrypt calls — which credentials are accepted, which claims a
//! token carries, when a token is expired — is verified here. Encoding and
//! decoding the token itself is serialization and stays with the caller.

use vstd::prelude::*;

verus! {

use crate::models::Claims;
use crate::models::Credentials;
use crate::models::ResetPasswordCredentials;
use crate::models::User;

/// Seconds a freshly issued session token lives: 24 hours.
pub const TOKEN_LIFETIME: usize = 86400;

/// Whether `bcrypt::verify(password, hashed)` returns `Ok(true)`: the
/// bcrypt hash `hashed` is a hash of `password`. A function of the two
/// arguments alone.
pub uninterp spec fn verifies(password: Seq<char>, hashed: Seq<char>) -> bool;

/// Relies on bcrypt::hash: the result is a bcrypt hash of `password` with a
/// fresh random salt, and bcrypt::verify accepts `password` against it.
#[verifier::external_body]
fn hash_password(password: &str) -> (r: Option<String>)
    ensures
        r matches Some(h) ==> verifies(password@, h@),
{
    match bcrypt::hash(password, bcrypt::DEFAULT_COST) {
        Ok(h) => Some(h),
        Err(_) => None,
    }
}

/// Relies on bcrypt::verify: deterministic in the password and the hash;
/// `None` when the hash cannot be parsed as a bcrypt hash.
#[verifier::external_body]
fn verify_password(password: &str, hashed: &str) -> (r: Option<bool>)
    ensures
        r matches Some(b) ==> b == verifies(password@, hashed@),
{
    match bcrypt::verify(password, hashed) {
        Ok(b) => Some(b),
        Err(_) => None,
    }
}

/// What a login attempt decided.
pub enum LoginOutcome {
    /// The credentials are accepted; issue a token carrying these claims.
    Token(Claims),
    /// The password does not match the stored hash.
    InvalidCredentials,
    /// The user is unknown, or the stored hash could not be checked.
    Failure,
}

/// The login decision on plain values: `row` is the user's `(id, hashed
/// password)` as read from storage, `checked` the outcome of checking the
/// presented password against the stored hash. Accepted credentials yield
/// the claims of a token that names the user and expires `TOKEN_LIFETIME`
/// seconds after `now`.
pub fn login_decision(
    row: Option<(i64, String)>,
    checked: Option<bool>,
    username: &String,
    now: usize,
) -> (r: LoginOutcome)
    requires
        now + TOKEN_LIFETIME <= usize::MAX,
    ensures
        row is None ==> r is Failure,
        row is Some && checked is None ==> r is Failure,
        row is Some && checked == Some(false) ==> r is InvalidCredentials,
        row is Some && checked == Some(true) ==> (r matches LoginOutcome::Token(c) && {
            &&& c.userID == row->Some_0.0
            &&& c.sub == *username
            &&& c.exp == now + TOKEN_LIFETIME
        }),
{
    match row {
        None => LoginOutcome::Failure,
        Some((id, _)) => match checked {
            None => LoginOutcome::Failure,
            Some(false) => LoginOutcome::InvalidCredentials,
            Some(true) => LoginOutcome::Token(
                Claims { userID: id, sub: username.clone(), exp: now + TOKEN_LIFETIME },
            ),
        },
    }
}

/// Login: checks the presented password against the stored hash and issues
/// token claims when it matches. `row` is the `(id, hashed password)` read
/// for the username, `now` the current time in seconds since the epoch. The
/// token claims name the user, and carry an expiry 24 hours from `now`;
/// a wrong password is rejected; an unknown user is a failure, as is a
/// stored hash that bcrypt cannot parse.
pub fn login(row: Option<(i64, String)>, credentials: &Credentials, now: usize) -> (r:
    LoginOutcome)
    requires
        now + TOKEN_LIFETIME <= usize::MAX,
    ensures
        row is None ==> r is Failure,
        r is InvalidCredentials ==> (row matches Some((id, h)) && !verifies(
            credentials.password@,
            h@,
        )),
        r matches LoginOutcome::Token(c) ==> (row matches Some((id, h)) && {
            &&& verifies(credentials.password@, h@)
            &&& c.userID == id
            &&& c.sub == credentials.username
            &&& c.exp == now + TOKEN_LIFETIME
        }),
{
    match row {
        None => LoginOutcome::Failure,
        Some((id, hashed)) => {
            let checked = verify_password(credentials.password.as_str(), hashed.as_str());
            login_decision(Some((id, hashed)), checked, &credentials.username, now)
        },
    }
}

/// What a password-reset attempt decided.
pub enum ResetOutcome {
    /// The old password matched; store this new hash for the user.
    Update(i64, String),
    /// The old password does not match the stored hash.
    InvalidCredentials,
    /// The user is unknown, the stored hash could not be checked, or the
    /// new password could not be hashed.
    Failure,
}

/// Password reset: checks the old password against the stored hash and, if
/// it matches, hashes the new password for storage. `row` is the `(id,
/// hashed password)` read for the username. The update carries the user's
/// id and a hash that bcrypt accepts for the new password.
pub fn reset_password(row: Option<(i64, String)>, credentials: &ResetPasswordCredentials) -> (r:
    ResetOutcome)
    ensures
        row is None ==> r is Failure,
        r is InvalidCredentials ==> (row matches Some((id, h)) && !verifies(
            credentials.password@,
            h@,
        )),
        r matches ResetOutcome::Update(id, new_hash) ==> (row matches Some((row_id, h)) && {
            &&& verifies(credentials.password@, h@)
            &&& id == row_id
            &&& verifies(credentials.new_password@, new_hash@)
        }),
{
    match row {
        None => ResetOutcome::Failure,
        Some((id, hashed)) => {
            match verify_password(credentials.password.as_str(), hashed.as_str()) {
                None => ResetOutcome::Failure,
                Some(false) => ResetOutcome::InvalidCredentials,
                Some(true) => match hash_password(credentials.new_password.as_str()) {
                    None => ResetOutcome::Failure,
                    Some(new_hash) => ResetOutcome::Update(id, new_hash),
                },
            }
        },
    }
}

/// The stored form of a new user: the username and a bcrypt hash that
/// verifies the user's password. `None` only when bcrypt fails to hash.
pub fn register_user(user: &User) -> (r: Option<(String, String)>)
    ensures
        r matches Some((name, hashed)) ==> name == user.username && verifies(
            user.password@,
            hashed@,
        ),
{
    match hash_password(user.password.as_str()) {
        None => None,
        Some(hashed) => Some((user.username.clone(), hashed)),
    }
}

/// What the request middleware decided about a presented token.
#[derive(Debug, PartialEq, Eq, Structural)]
pub enum AuthDecision {
    /// The token is valid and not expired; the request acts as this user.
    Authorized(i64),
    /// The token is valid but its expiry has passed.
    TokenExpired,
    /// No valid token was presented.
    Unauthorized,
}

/// The middleware's decision on plain values: `claims` is what decoding and
/// signature-checking the presented token yielded, if anything; `now` the
/// current time in seconds since the epoch. A token whose expiry has passed
/// is rejected as expired; a missing or undecodable token is unauthorized.
pub fn authorize(claims: Option<&Claims>, now: usize) -> (r: AuthDecision)
    ensures
        claims is None ==> r == AuthDecision::Unauthorized,
        claims is Some && claims->Some_0.exp < now ==> r == AuthDecision::TokenExpired,
        claims is Some && claims->Some_0.exp >= now ==> r == AuthDecision::Authorized(
            claims->Some_0.userID,
        ),
{
    match claims {
        None => AuthDecision::Unauthorized,
        Some(c) => {
            if c.exp < now {
                AuthDecision::TokenExpired
            } else {
                AuthDecision::Authorized(c.userID)
            }
        },
    }
}

} // verus!
