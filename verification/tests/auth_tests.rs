use embedstore::auth::{
    authorize, login, reset_password, register_user, AuthDecision, LoginOutcome, ResetOutcome,
    TOKEN_LIFETIME,
};
use embedstore::models::{Claims, Credentials, ResetPasswordCredentials, User};

fn stored_user(username: &str, password: &str) -> (String, String) {
    let user = User {
        id: None,
        username: String::from(username),
        password: String::from(password),
    };
    register_user(&user).expect("hashing failed")
}

#[test]
fn test_add_user() {
    let (username, hashed) = stored_user("test_user", "password");
    assert_eq!(username, "test_user");
    // The stored value is a hash, not the password itself.
    assert_ne!(hashed, "password");
    // And bcrypt accepts the password against it.
    let credentials = Credentials {
        username: String::from("test_user"),
        password: String::from("password"),
    };
    let outcome = login(Some((1, hashed)), &credentials, 1_000);
    assert!(matches!(outcome, LoginOutcome::Token(_)));
}

#[test]
fn test_login_valid() {
    let (_, hashed) = stored_user("test_user", "password");
    let credentials = Credentials {
        username: String::from("test_user"),
        password: String::from("password"),
    };
    let now = 1_700_000_000usize;
    match login(Some((42, hashed)), &credentials, now) {
        LoginOutcome::Token(claims) => {
            assert_eq!(claims.userID, 42);
            assert_eq!(claims.sub, "test_user");
            assert_eq!(claims.exp, now + TOKEN_LIFETIME);
        },
        _ => panic!("expected a token"),
    }
}

#[test]
fn test_login_invalid() {
    let (_, hashed) = stored_user("test_user", "password");
    let credentials = Credentials {
        username: String::from("test_user"),
        password: String::from("incorrect_password"),
    };
    let outcome = login(Some((42, hashed)), &credentials, 1_000);
    assert!(matches!(outcome, LoginOutcome::InvalidCredentials));
}

#[test]
fn login_of_unknown_user_fails() {
    let credentials = Credentials {
        username: String::from("nobody"),
        password: String::from("password"),
    };
    let outcome = login(None, &credentials, 1_000);
    assert!(matches!(outcome, LoginOutcome::Failure));
}

#[test]
fn test_reset_password() {
    let (_, hashed) = stored_user("test_user", "password");
    let request = ResetPasswordCredentials {
        username: String::from("test_user"),
        password: String::from("password"),
        new_password: String::from("new_password"),
    };
    let new_hashed = match reset_password(Some((42, hashed)), &request) {
        ResetOutcome::Update(id, new_hashed) => {
            assert_eq!(id, 42);
            new_hashed
        },
        _ => panic!("expected an update"),
    };
    // The new hash accepts the new password and rejects the old one.
    let good = Credentials {
        username: String::from("test_user"),
        password: String::from("new_password"),
    };
    assert!(matches!(login(Some((42, new_hashed.clone())), &good, 1_000), LoginOutcome::Token(_)));
    let old = Credentials {
        username: String::from("test_user"),
        password: String::from("password"),
    };
    assert!(matches!(
        login(Some((42, new_hashed)), &old, 1_000),
        LoginOutcome::InvalidCredentials
    ));
}

#[test]
fn reset_with_wrong_password_is_rejected() {
    let (_, hashed) = stored_user("test_user", "password");
    let request = ResetPasswordCredentials {
        username: String::from("test_user"),
        password: String::from("incorrect_password"),
        new_password: String::from("new_password"),
    };
    assert!(matches!(
        reset_password(Some((42, hashed)), &request),
        ResetOutcome::InvalidCredentials
    ));
}

#[test]
fn expired_tokens_are_rejected() {
    let claims = Claims {
        userID: 9,
        sub: String::from("test_user"),
        exp: 1_000,
    };
    assert_eq!(authorize(Some(&claims), 999), AuthDecision::Authorized(9));
    assert_eq!(authorize(Some(&claims), 1_000), AuthDecision::Authorized(9));
    assert_eq!(authorize(Some(&claims), 1_001), AuthDecision::TokenExpired);
    assert_eq!(authorize(None, 0), AuthDecision::Unauthorized);
}
