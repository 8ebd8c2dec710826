//! Tokens that tie a request to a browser session.

use vstd::prelude::*;
use crate::app_error::AppError;

verus! {

/// A token stored in a browser's session.
#[derive(Clone, Copy)]
pub struct AuthToken {
    pub token: u128,
}

impl AuthToken {
    /// Checks this token against the token that the session holds:
    /// `Ok` exactly when they are equal.
    pub fn verify(&self, session_token: u128) -> (r: Result<(), AppError>)
        ensures
            r is Ok <==> self.token == session_token,
            r matches Err(e) ==> e.is_bad_request("Invalid auth_token"@),
    {
        if self.token == session_token {
            Ok(())
        } else {
            Err(AppError::BadRequest("Invalid auth_token".to_string()))
        }
    }
}

} // verus!
