//! The ways in which an operation on the registry can fail.

use vstd::prelude::*;

verus! {

/// Why an operation was rejected. A rejected operation changes nothing.
#[derive(Clone, Copy, Debug, PartialEq, Eq, Structural)]
pub enum ProfileError {
    /// The username is longer than `MAX_USERNAME_LEN` bytes.
    UsernameTooLong,
    /// The bio is longer than `MAX_BIO_LEN` bytes.
    BioTooLong,
    /// More than `MAX_LINKS` links were given.
    TooManyLinks,
    /// One of the links is longer than `MAX_LINK_LEN` bytes.
    LinkTooLong,
    /// The caller is not the owner of the profile.
    Unauthorized,
    /// A record already exists at an address that the operation must allocate.
    AddressCollision,
}

impl ProfileError {
    /// The text that goes with each kind of failure.
    pub open spec fn spec_message(self) -> Seq<char> {
        match self {
            ProfileError::UsernameTooLong => "Username too long"@,
            ProfileError::BioTooLong => "Bio too long"@,
            ProfileError::TooManyLinks => "Too many links"@,
            ProfileError::LinkTooLong => "Link too long"@,
            ProfileError::Unauthorized => "Unauthorized"@,
            ProfileError::AddressCollision => "Address already in use"@,
        }
    }

    /// The text shown for this kind of failure.
    pub fn message(&self) -> (text: &'static str)
        ensures
            text@ == self.spec_message(),
    {
        match self {
            ProfileError::UsernameTooLong => "Username too long",
            ProfileError::BioTooLong => "Bio too long",
            ProfileError::TooManyLinks => "Too many links",
            ProfileError::LinkTooLong => "Link too long",
            ProfileError::Unauthorized => "Unauthorized",
            ProfileError::AddressCollision => "Address already in use",
        }
    }
}

} // verus!
