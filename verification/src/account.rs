//! Accounts: the requests to register and to log in, the claims of a sign-on
//! token, and the check of a password against its stored hash.

use crate::number::{decimal, push_decimal};
use crate::text::{push_text, string_of};
use vstd::prelude::*;

verus! {

/// How long a token is valid, in seconds: one day.
pub const TOKEN_LIFETIME: u64 = 86400;

/// A request to register a new user.
pub struct RegisterRequest {
    /// The name that the user chose.
    pub username: String,
    /// The password that the user chose, as typed.
    pub password: String,
}

/// A request to log in with a name and a password.
pub struct LoginRequest {
    /// The user's name.
    pub username: String,
    /// The password, as typed.
    pub password: String,
}

/// A request to log in with a sign-on token.
pub struct JwtLoginRequest {
    /// The token, as the issuer signed it.
    pub token: String,
}

/// The claims of a sign-on token.
pub struct Claims {
    /// Who issued the token.
    pub iss: String,
    /// When it was issued, in seconds since the epoch.
    pub iat: u64,
    /// When it expires, in seconds since the epoch.
    pub exp: u64,
    /// The user's identifier at the issuer.
    pub sub: u64,
    /// The user's name.
    pub username: String,
    /// The user's mail address.
    pub email: String,
    /// The name to show, where it differs.
    pub display_name: Option<String>,
}

/// A user as the issuer of tokens knows them.
pub struct WordPressUser {
    pub wordpress_id: u64,
    pub username: String,
    pub email: String,
}

/// Why a password could not be hashed or checked.
pub struct PasswordError {
    /// What the hashing library says.
    pub message: String,
}

/// Why a login is refused.
pub enum LoginError {
    /// The password is not the user's.
    WrongPassword,
    /// The stored hash cannot be checked.
    Hash(PasswordError),
}

/// `bcrypt::BcryptError`, the error of the hashing library, carried as it
/// comes: nothing is known of what it holds.
#[verifier::external_type_specification]
#[verifier::external_body]
pub struct ExBcryptError(bcrypt::BcryptError);

/// What `bcrypt::verify` returns for a password and a stored hash: whether
/// the password is the one that was hashed, or `None` where it returns an
/// error.
pub uninterp spec fn bcrypt_verdict(password: Seq<char>, hash: Seq<char>) -> Option<bool>;

/// `bcrypt::verify`: checks `password` against `hash`. Its result depends on
/// the two texts alone and is named `bcrypt_verdict`. Not proved here.
#[verifier::external_body]
fn bcrypt_verify(password: &str, hash: &str) -> (r: Result<bool, bcrypt::BcryptError>)
    ensures
        match r {
            Ok(b) => bcrypt_verdict(password@, hash@) == Some(b),
            Err(_) => bcrypt_verdict(password@, hash@) is None,
        },
{
    bcrypt::verify(password, hash)
}

/// `bcrypt::hash` at `bcrypt::DEFAULT_COST`: hashes `password` with a salt
/// drawn at random, so that two calls differ. Whatever the salt, the hash
/// that comes back is one that `bcrypt::verify` accepts for the same
/// password. Not proved here.
#[verifier::external_body]
fn bcrypt_hash(password: &str) -> (r: Result<String, bcrypt::BcryptError>)
    ensures
        r is Ok ==> bcrypt_verdict(password@, r->Ok_0@) == Some(true),
{
    bcrypt::hash(password, bcrypt::DEFAULT_COST)
}

/// The text of a `bcrypt::BcryptError`, as its `Display` writes it. Nothing
/// is claimed of the text.
#[verifier::external_body]
fn bcrypt_error_text(e: &bcrypt::BcryptError) -> (s: String) {
    format!("{}", e)
}

/// The password that stands in for a user who signs on with a token: the
/// text "wp_sso_" and the user's identifier at the issuer.
pub open spec fn sso_password_spec(sub: u64) -> Seq<char> {
    "wp_sso_"@ + decimal(sub as nat)
}

/// The claims of a token issued at `now` for `user`: valid for one day from
/// then on.
pub fn create_jwt_token(user: &WordPressUser, now: u64) -> (c: Claims)
    requires
        now + TOKEN_LIFETIME <= u64::MAX,
    ensures
        c.iss@ == "QuantumGo"@,
        c.iat == now,
        c.exp == now + TOKEN_LIFETIME,
        c.sub == user.wordpress_id,
        c.username@ == user.username@,
        c.email@ == user.email@,
        c.display_name is None,
{
    Claims {
        iss: "QuantumGo".to_owned(),
        iat: now,
        exp: now + TOKEN_LIFETIME,
        sub: user.wordpress_id,
        username: user.username.clone(),
        email: user.email.clone(),
        display_name: None,
    }
}

/// The claims of a token issued at `now` for `user`, or `None` where a day
/// later cannot be counted in 64 bits.
pub fn issue_claims(user: &WordPressUser, now: u64) -> (c: Option<Claims>)
    ensures
        c is Some <==> now + TOKEN_LIFETIME <= u64::MAX,
        c is Some ==> c->Some_0.iat == now && c->Some_0.exp == now + TOKEN_LIFETIME
            && c->Some_0.sub == user.wordpress_id && c->Some_0.username@ == user.username@
            && c->Some_0.email@ == user.email@ && c->Some_0.iss@ == "QuantumGo"@
            && c->Some_0.display_name is None,
{
    if now <= u64::MAX - TOKEN_LIFETIME {
        Some(create_jwt_token(user, now))
    } else {
        None
    }
}

/// Whether a token with these claims has expired at `now`.
pub fn token_expired(claims: &Claims, now: u64) -> (r: bool)
    ensures
        r == (claims.exp < now),
{
    claims.exp < now
}

/// The password that stands in for a user who signs on with a token.
pub fn sso_password(sub: u64) -> (s: String)
    ensures
        s@ == sso_password_spec(sub),
{
    let mut out: Vec<char> = Vec::new();
    push_text(&mut out, "wp_sso_");
    push_decimal(&mut out, sub);
    string_of(&out)
}

/// What a call of `bcrypt::verify` means for a login: the user is let in if
/// the password is theirs, and refused if it is not or if the stored hash
/// cannot be checked.
pub fn login_verdict(checked: Result<bool, PasswordError>) -> (r: Result<(), LoginError>)
    ensures
        match checked {
            Ok(true) => r is Ok,
            Ok(false) => r is Err && r->Err_0 is WrongPassword,
            Err(e) => r is Err && r->Err_0 is Hash && r->Err_0->Hash_0 == e,
        },
{
    match checked {
        Ok(true) => Ok(()),
        Ok(false) => Err(LoginError::WrongPassword),
        Err(e) => Err(LoginError::Hash(e)),
    }
}

/// What a result of the hashing library means here: what it computed stays,
/// and its error is kept as text.
pub fn password_outcome<T>(result: Result<T, bcrypt::BcryptError>) -> (r: Result<T, PasswordError>)
    ensures
        match result {
            Ok(v) => r == Ok::<T, PasswordError>(v),
            Err(_) => r is Err,
        },
{
    match result {
        Ok(v) => Ok(v),
        Err(e) => Err(PasswordError { message: bcrypt_error_text(&e) }),
    }
}

/// Hashes a password for storing. The hash differs from call to call; it is
/// always one that `verify_password` accepts for the same password.
pub fn hash_password(password: &str) -> (r: Result<String, PasswordError>)
    ensures
        r is Ok ==> bcrypt_verdict(password@, r->Ok_0@) == Some(true),
{
    password_outcome(bcrypt_hash(password))
}

/// Checks a password against a stored hash.
pub fn verify_password(password: &str, hash: &str) -> (r: Result<bool, PasswordError>)
    ensures
        match r {
            Ok(b) => bcrypt_verdict(password@, hash@) == Some(b),
            Err(_) => bcrypt_verdict(password@, hash@) is None,
        },
{
    password_outcome(bcrypt_verify(password, hash))
}

/// Decides a login from the password given and the hash stored for the user.
pub fn verify_user(password: &str, stored: &str) -> (r: Result<(), LoginError>)
    ensures
        match bcrypt_verdict(password@, stored@) {
            Some(true) => r is Ok,
            Some(false) => r is Err && r->Err_0 is WrongPassword,
            None => r is Err && r->Err_0 is Hash,
        },
{
    login_verdict(verify_password(password, stored))
}

} // verus!
