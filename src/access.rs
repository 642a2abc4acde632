use vstd::prelude::*;
use crate::error::AppError;
use crate::ids::{id_text, uuid_text};

verus! {

/// What a signed-in user may do.
#[derive(Debug, Clone, Copy, PartialEq, Eq, Structural)]
pub enum Role {
    Admin,
    User,
}

/// The name under which the store keeps a role.
pub open spec fn role_name(role: Role) -> Seq<char> {
    match role {
        Role::Admin => "admin"@,
        Role::User => "user"@,
    }
}

impl Role {
    /// The role's name in the store.
    pub fn name(&self) -> (r: String)
        ensures
            r@ == role_name(*self),
    {
        match self {
            Role::Admin => String::from_str("admin"),
            Role::User => String::from_str("user"),
        }
    }

    /// The role stored under `name`, if any.
    pub fn from_name(name: &String) -> (r: Option<Role>)
        ensures
            match r {
                Some(role) => role_name(role) == name@,
                None => name@ != role_name(Role::Admin) && name@ != role_name(Role::User),
            },
    {
        let admin = String::from_str("admin");
        let user = String::from_str("user");
        if *name == admin {
            Some(Role::Admin)
        } else if *name == user {
            Some(Role::User)
        } else {
            None
        }
    }
}

/// The claims a session token carries: the user, their role and the
/// expiry time in seconds since the Unix epoch.
#[derive(Debug, Clone, Copy, PartialEq, Eq)]
pub struct Claims {
    pub sub: u128,
    pub role: Role,
    pub exp: usize,
}

/// Relies on `chrono::Utc::now` and `DateTime::timestamp`: the current time
/// in whole seconds since the Unix epoch (nothing is known of its value).
#[verifier::external_body]
fn now_seconds() -> (r: i64) {
    chrono::Utc::now().timestamp()
}

impl Claims {
    /// Claims for `user_id` that expire `ttl` seconds after `now`; `None`
    /// when that instant is before the epoch or past what `usize` holds.
    pub fn expiring(user_id: u128, role: Role, now: i64, ttl: i64) -> (r: Option<Claims>)
        ensures
            match r {
                Some(c) => c.sub == user_id && c.role == role && c.exp as int == now + ttl,
                None => now + ttl < 0 || now + ttl > usize::MAX,
            },
    {
        let at = now as i128 + ttl as i128;
        if at < 0 || at > usize::MAX as i128 {
            None
        } else {
            Some(Claims { sub: user_id, role, exp: at as usize })
        }
    }

    /// Claims for `user_id` that expire `ttl` seconds from now.
    pub fn new(user_id: u128, role: Role, ttl: i64) -> (r: Option<Claims>)
        ensures
            r matches Some(c) ==> c.sub == user_id && c.role == role,
    {
        Claims::expiring(user_id, role, now_seconds(), ttl)
    }
}

/// Only administrators may change the catalog.
pub fn require_admin(role: Role) -> (r: Result<(), AppError>)
    ensures
        r is Ok <==> role == Role::Admin,
        r is Err ==> (r matches Err(AppError::Forbidden(m)) && m@ == "Admin role required"@),
{
    if role != Role::Admin {
        return Err(AppError::Forbidden(String::from_str("Admin role required")));
    }
    Ok(())
}

/// A sign-in needs both an email and a password.
pub fn require_credentials(email: &str, password: &str) -> (r: Result<(), AppError>)
    ensures
        r is Ok <==> (email@.len() > 0 && password@.len() > 0),
        r is Err ==> r == Err::<(), AppError>(AppError::MissingCredentials),
{
    if email.is_empty() || password.is_empty() {
        return Err(AppError::MissingCredentials);
    }
    Ok(())
}

/// A password check that came back negative is refused.
pub fn require_valid_password(valid: bool) -> (r: Result<(), AppError>)
    ensures
        r is Ok <==> valid,
        r is Err ==> r == Err::<(), AppError>(AppError::WrongCredentials),
{
    if !valid {
        return Err(AppError::WrongCredentials);
    }
    Ok(())
}

/// An update that touched no row names an entity that does not exist.
pub fn require_updated(rows_affected: u64, id: u128) -> (r: Result<(), AppError>)
    ensures
        r is Ok <==> rows_affected > 0,
        r is Err ==> (r matches Err(AppError::NotFound(s)) && s@ == uuid_text(id)),
{
    if rows_affected == 0 {
        return Err(AppError::NotFound(id_text(id)));
    }
    Ok(())
}

} // verus!
