//! The errors a run can end with.

use vstd::prelude::*;

verus! {

/// What went wrong during a run. Every failure is fatal: a run either
/// yields a fully merged result or aborts with one of these.
#[derive(Clone, Copy, Debug, PartialEq, Eq, Structural)]
pub enum Error {
    /// A network call failed, timed out, or returned a non-2xx status.
    Request,
    /// The sign-in page did not have the expected shape.
    InvalidSignInPage,
    /// The watch page did not carry the expected metadata blob.
    InvalidWatchPage,
    /// The metadata blob could not be decoded.
    InvalidInfo,
    /// A key endpoint returned text that does not match the expected
    /// key=value pattern, or no default post target thread exists.
    InvalidKey,
    /// The session carries no user key.
    NotAuthorized,
    /// The final comment list could not be written out.
    Serialization,
}

impl Error {
    /// A short description, for callers that print the error.
    pub fn message(&self) -> (r: &'static str)
        ensures
            r@ =~= self.spec_message(),
    {
        proof {
            reveal_strlit("request failed");
            reveal_strlit("invalid sign in page");
            reveal_strlit("invalid watch page");
            reveal_strlit("invalid info");
            reveal_strlit("invalid key");
            reveal_strlit("not authorized");
            reveal_strlit("serialization error");
        }
        match self {
            Error::Request => "request failed",
            Error::InvalidSignInPage => "invalid sign in page",
            Error::InvalidWatchPage => "invalid watch page",
            Error::InvalidInfo => "invalid info",
            Error::InvalidKey => "invalid key",
            Error::NotAuthorized => "not authorized",
            Error::Serialization => "serialization error",
        }
    }

    /// What `message` returns for each variant.
    pub open spec fn spec_message(&self) -> Seq<char> {
        match self {
            Error::Request => "request failed"@,
            Error::InvalidSignInPage => "invalid sign in page"@,
            Error::InvalidWatchPage => "invalid watch page"@,
            Error::InvalidInfo => "invalid info"@,
            Error::InvalidKey => "invalid key"@,
            Error::NotAuthorized => "not authorized"@,
            Error::Serialization => "serialization error"@,
        }
    }
}

} // verus!
