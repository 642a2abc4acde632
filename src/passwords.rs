use vstd::prelude::*;
use crate::error::AppError;

verus! {

/// What bcrypt's check of a password against a stored hash gives: `Some`
/// of the verdict, or `None` when the hash cannot be read.
pub uninterp spec fn bcrypt_verdict(password: Seq<char>, hashed: Seq<char>) -> Option<bool>;

/// Relies on `bcrypt::hash` at `bcrypt::DEFAULT_COST`: the salt is random
/// and the call may fail, but a hash it returns verifies the password, as
/// `bcrypt::verify` recomputes it from the salt and cost stored in it.
#[verifier::external_body]
fn bcrypt_hash(password: &str) -> (r: Option<String>)
    ensures
        r matches Some(h) ==> bcrypt_verdict(password@, h@) == Some(true),
{
    bcrypt::hash(password, bcrypt::DEFAULT_COST).ok()
}

/// Relies on `bcrypt::verify`: the verdict depends on the password and the
/// stored hash alone.
#[verifier::external_body]
fn bcrypt_verify(password: &str, hashed: &str) -> (r: Option<bool>)
    ensures
        r == bcrypt_verdict(password@, hashed@),
{
    bcrypt::verify(password, hashed).ok()
}

/// Hashes a password for storage; a failure of the hashing is reported as
/// `WrongCredentials`.
pub fn hash(password: &str) -> (r: Result<String, AppError>)
    ensures
        r is Err ==> r == Err::<String, AppError>(AppError::WrongCredentials),
        r matches Ok(h) ==> bcrypt_verdict(password@, h@) == Some(true),
{
    match bcrypt_hash(password) {
        Some(h) => Ok(h),
        None => Err(AppError::WrongCredentials),
    }
}

/// Maps bcrypt's verdict on a password to the service's result: an unreadable
/// stored hash is reported as `WrongCredentials`.
pub fn verdict_to_result(verdict: Option<bool>) -> (r: Result<bool, AppError>)
    ensures
        match verdict {
            Some(b) => r == Ok::<bool, AppError>(b),
            None => r == Err::<bool, AppError>(AppError::WrongCredentials),
        },
{
    match verdict {
        Some(b) => Ok(b),
        None => Err(AppError::WrongCredentials),
    }
}

/// Checks a password against its stored hash.
pub fn verify(password: &str, hashed: &str) -> (r: Result<bool, AppError>)
    ensures
        match bcrypt_verdict(password@, hashed@) {
            Some(b) => r == Ok::<bool, AppError>(b),
            None => r == Err::<bool, AppError>(AppError::WrongCredentials),
        },
{
    verdict_to_result(bcrypt_verify(password, hashed))
}

} // verus!
