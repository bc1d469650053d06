//! What logging in takes, and what can go wrong.

use vstd::prelude::*;

verus! {

/// A username and password to log in with.
#[derive(Debug, Clone)]
pub struct LoginCredentials {
    pub username: String,
    pub password: String,
}

/// Logging in failed.
#[derive(Debug, Clone, Copy, PartialEq, Eq, Structural)]
pub struct LoginError;

/// Connecting a session failed; the message says why.
#[derive(Debug, Clone)]
pub struct SessionError(pub String);

impl LoginError {
    /// The text the error is shown with.
    pub fn to_string(&self) -> (s: String)
        ensures
            s@ == "Login failed"@,
    {
        "Login failed".to_string()
    }
}

impl SessionError {
    /// The text the error is shown with: `Session error: ` and the cause.
    pub fn to_string(&self) -> (s: String)
        ensures
            s@ == "Session error: "@ + self.0@,
    {
        let v = crate::text::concat_chars(&crate::text::chars_of("Session error: "), &crate::text::chars_of(self.0.as_str()));
        crate::text::string_from_chars(v.as_slice())
    }
}

} // verus!
