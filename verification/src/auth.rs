//! Token checking. The configured password is read from the process
//! environment by the surrounding program and handed in as a plain value.

use crate::text::str_eq_str;
use vstd::prelude::*;

verus! {

/// The authentication service: a bearer token is valid exactly when it
/// equals the configured password.
pub struct AuthService;

impl AuthService {
    /// Whether `token` matches the configured password.
    pub fn is_valid_token(token: &str, password: &str) -> (r: bool)
        ensures
            r == (token@ == password@),
    {
        str_eq_str(token, password)
    }
}

} // verus!
