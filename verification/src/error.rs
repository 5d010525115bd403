//! The failure taxonomy shared by every operation of the crate.

use vstd::prelude::*;

verus! {

/// Every way an operation of this crate can fail.
///
/// Validation failures (`EmptyId`, `UserNameTooShort`, `PasswordTooShort`,
/// `Unauthorized`) are detected before any mutation; `Internal` stands for a
/// storage or hashing failure whose details must not leak to callers.
#[derive(Debug, Clone, Copy, PartialEq, Eq, Structural)]
pub enum Error {
    NotFound,
    AlreadyExists,
    Internal,
    EmptyId,
    Unauthorized,
    UserNameTooShort,
    PasswordTooShort,
}

impl Error {
    /// The stable machine-readable code of this error.
    pub open spec fn spec_code(self) -> Seq<char> {
        match self {
            Error::AlreadyExists => "already-exists"@,
            Error::NotFound => "not-found"@,
            Error::Internal => "internal-error"@,
            Error::EmptyId => "empty-id"@,
            Error::Unauthorized => "unauthorized"@,
            Error::UserNameTooShort => "user-name-too-short"@,
            Error::PasswordTooShort => "password-too-short"@,
        }
    }

    /// The stable machine-readable code of this error, as shown to callers.
    pub fn code(&self) -> (r: &'static str)
        ensures
            r@ == self.spec_code(),
    {
        match self {
            Error::AlreadyExists => "already-exists",
            Error::NotFound => "not-found",
            Error::Internal => "internal-error",
            Error::EmptyId => "empty-id",
            Error::Unauthorized => "unauthorized",
            Error::UserNameTooShort => "user-name-too-short",
            Error::PasswordTooShort => "password-too-short",
        }
    }
}

} // verus!
