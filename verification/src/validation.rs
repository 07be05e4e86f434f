//! Length and cardinality rules on the fields that a caller supplies.

use crate::error::ProfileError;
use vstd::prelude::*;
use vstd::utf8::encode_utf8;

verus! {

/// Most bytes in a username.
pub const MAX_USERNAME_LEN: usize = 32;

/// Most bytes in a bio.
pub const MAX_BIO_LEN: usize = 280;

/// Most entries in a list of links.
pub const MAX_LINKS: usize = 8;

/// Most bytes in one link.
pub const MAX_LINK_LEN: usize = 128;

/// The length of a text in bytes, as stored: the length of its UTF-8 encoding.
pub open spec fn byte_len(text: Seq<char>) -> nat {
    encode_utf8(text).len()
}

/// The texts held by a list of strings.
pub open spec fn texts(strings: Seq<String>) -> Seq<Seq<char>> {
    strings.map_values(|s: String| s@)
}

/// Every link is short enough.
pub open spec fn links_fit(links: Seq<Seq<char>>) -> bool {
    forall|i: int| 0 <= i < links.len() ==> byte_len(#[trigger] links[i]) <= MAX_LINK_LEN
}

/// The verdict on a username: too long or acceptable.
pub open spec fn username_verdict(username: Seq<char>) -> Result<(), ProfileError> {
    if byte_len(username) > MAX_USERNAME_LEN {
        Err(ProfileError::UsernameTooLong)
    } else {
        Ok(())
    }
}

/// The verdict on a bio: too long or acceptable.
pub open spec fn bio_verdict(bio: Seq<char>) -> Result<(), ProfileError> {
    if byte_len(bio) > MAX_BIO_LEN {
        Err(ProfileError::BioTooLong)
    } else {
        Ok(())
    }
}

/// The verdict on a list of links. The count is judged before the entries.
pub open spec fn links_verdict(links: Seq<Seq<char>>) -> Result<(), ProfileError> {
    if links.len() > MAX_LINKS {
        Err(ProfileError::TooManyLinks)
    } else if !links_fit(links) {
        Err(ProfileError::LinkTooLong)
    } else {
        Ok(())
    }
}

/// Judges a username by its length in bytes.
pub fn check_username(username: &str) -> (verdict: Result<(), ProfileError>)
    ensures
        verdict == username_verdict(username@),
{
    if username.as_bytes().len() > MAX_USERNAME_LEN {
        Err(ProfileError::UsernameTooLong)
    } else {
        Ok(())
    }
}

/// Judges a bio by its length in bytes.
pub fn check_bio(bio: &str) -> (verdict: Result<(), ProfileError>)
    ensures
        verdict == bio_verdict(bio@),
{
    if bio.as_bytes().len() > MAX_BIO_LEN {
        Err(ProfileError::BioTooLong)
    } else {
        Ok(())
    }
}

/// Judges a list of links: first by the number of its entries, then by the
/// length in bytes of each entry, in order.
pub fn check_links(links: &Vec<String>) -> (verdict: Result<(), ProfileError>)
    ensures
        verdict == links_verdict(texts(links@)),
{
    if links.len() > MAX_LINKS {
        return Err(ProfileError::TooManyLinks);
    }
    let mut i: usize = 0;
    while i < links.len()
        invariant
            i <= links.len() <= MAX_LINKS,
            forall|j: int| 0 <= j < i ==> byte_len(#[trigger] texts(links@)[j]) <= MAX_LINK_LEN,
        decreases links.len() - i,
    {
        if links[i].as_str().as_bytes().len() > MAX_LINK_LEN {
            assert(byte_len(texts(links@)[i as int]) > MAX_LINK_LEN);
            return Err(ProfileError::LinkTooLong);
        }
        assert(texts(links@)[i as int] == links@[i as int]@);
        i += 1;
    }
    Ok(())
}

} // verus!
