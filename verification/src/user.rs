//! An owned account record and its constructors.

use vstd::prelude::*;

verus! {

/// A user account that owns all of its data.
#[derive(Debug)]
pub struct User {
    pub active: bool,
    pub username: String,
    pub email: String,
    pub sign_in_count: u64,
}

/// Builds an active account with a starting sign-in count of one.
pub fn build_user(email: String, username: String) -> (r: User)
    ensures
        r.email == email,
        r.username == username,
        r.active,
        r.sign_in_count == 1,
{
    User { email: email, username: username, active: true, sign_in_count: 1 }
}

/// The same constructor written with field-init shorthand.
pub fn build_user_field_init_shorthand(email: String, username: String) -> (r: User)
    ensures
        r.email == email,
        r.username == username,
        r.active,
        r.sign_in_count == 1,
{
    User { email, username, active: true, sign_in_count: 1 }
}

} // verus!
