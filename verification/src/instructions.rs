//! The two operations on profile records: creation and amendment.
//!
//! Each works on the records that it was handed and decides everything
//! before it writes anything, so a rejected call leaves them as they were.

use crate::address::same_key;
use crate::error::ProfileError;
use crate::records::{ProfileView, UserProfile, UsernameRegistry};
use crate::validation::{
    bio_verdict, check_bio, check_links, check_username, links_verdict, texts, username_verdict,
};
use vstd::prelude::*;

verus! {

/// What a creation works on: the signer and the two freshly allocated records.
pub struct CreateProfile {
    /// The identity that signed the request.
    pub user: [u8; 32],
    pub profile: UserProfile,
    pub username_registry: UsernameRegistry,
}

/// What an amendment works on: the signer and the profile to amend.
pub struct UpdateProfile {
    /// The identity that signed the request.
    pub user: [u8; 32],
    pub profile: UserProfile,
}

/// The text of an optional string.
pub open spec fn text_of(text: Option<String>) -> Option<Seq<char>> {
    match text {
        Some(t) => Some(t@),
        None => None,
    }
}

/// The texts of an optional list of strings.
pub open spec fn texts_of(list: Option<Vec<String>>) -> Option<Seq<Seq<char>>> {
    match list {
        Some(l) => Some(texts(l@)),
        None => None,
    }
}

/// The verdict on the fields of a new profile: the first rule broken, in the
/// order username, bio, number of links, length of each link.
pub open spec fn create_verdict(username: Seq<char>, bio: Seq<char>, links: Seq<Seq<char>>) -> Result<
    (),
    ProfileError,
> {
    if username_verdict(username) is Err {
        username_verdict(username)
    } else if bio_verdict(bio) is Err {
        bio_verdict(bio)
    } else {
        links_verdict(links)
    }
}

/// The verdict on an amendment of a profile owned by `owner`, asked for by
/// `user`: authorization first, then the bio if one is given, then the links
/// if they are given.
pub open spec fn update_verdict(
    owner: Seq<u8>,
    user: Seq<u8>,
    bio: Option<Seq<char>>,
    links: Option<Seq<Seq<char>>>,
) -> Result<(), ProfileError> {
    if owner != user {
        Err(ProfileError::Unauthorized)
    } else if bio is Some && bio_verdict(bio->0) is Err {
        bio_verdict(bio->0)
    } else if links is Some {
        links_verdict(links->0)
    } else {
        Ok(())
    }
}

/// The profile after an accepted amendment: a field that is given replaces
/// the stored one as a whole, a field that is absent stays.
pub open spec fn amended(
    profile: ProfileView,
    bio: Option<Seq<char>>,
    links: Option<Seq<Seq<char>>>,
) -> ProfileView {
    ProfileView {
        owner: profile.owner,
        username: profile.username,
        bio: if bio is Some { bio->0 } else { profile.bio },
        links: if links is Some { links->0 } else { profile.links },
    }
}

/// Fills the two fresh records of `ctx` for the signer, or rejects the
/// fields and leaves `ctx` untouched.
pub fn create_profile(
    ctx: &mut CreateProfile,
    username: String,
    bio: String,
    links: Vec<String>,
) -> (outcome: Result<(), ProfileError>)
    ensures
        outcome == create_verdict(username@, bio@, texts(links@)),
        outcome is Ok ==> {
            &&& final(ctx).user == old(ctx).user
            &&& final(ctx).profile@ == (ProfileView {
                owner: old(ctx).user@,
                username: username@,
                bio: bio@,
                links: texts(links@),
            })
            &&& final(ctx).username_registry@.owner == old(ctx).user@
        },
        outcome is Err ==> *final(ctx) == *old(ctx),
{
    check_username(username.as_str())?;
    check_bio(bio.as_str())?;
    check_links(&links)?;

    ctx.profile.owner = ctx.user;
    ctx.profile.username = username;
    ctx.profile.bio = bio;
    ctx.profile.links = links;
    ctx.username_registry.owner = ctx.user;
    Ok(())
}

/// Amends the profile of `ctx` on behalf of its signer, or rejects the call
/// and leaves `ctx` untouched.
pub fn update_profile(
    ctx: &mut UpdateProfile,
    bio: Option<String>,
    links: Option<Vec<String>>,
) -> (outcome: Result<(), ProfileError>)
    ensures
        outcome == update_verdict(
            old(ctx).profile@.owner,
            old(ctx).user@,
            text_of(bio),
            texts_of(links),
        ),
        outcome is Ok ==> {
            &&& final(ctx).user == old(ctx).user
            &&& final(ctx).profile@ == amended(old(ctx).profile@, text_of(bio), texts_of(links))
        },
        outcome is Err ==> *final(ctx) == *old(ctx),
{
    if !same_key(&ctx.profile.owner, &ctx.user) {
        return Err(ProfileError::Unauthorized);
    }
    if let Some(b) = &bio {
        check_bio(b.as_str())?;
    }
    if let Some(ls) = &links {
        check_links(ls)?;
    }

    if let Some(b) = bio {
        ctx.profile.bio = b;
    }
    if let Some(ls) = links {
        ctx.profile.links = ls;
    }
    Ok(())
}

} // verus!
