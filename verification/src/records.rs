//! The two kinds of record that the registry stores, and their mathematical views.

use crate::validation::{byte_len, links_fit, texts, MAX_BIO_LEN, MAX_LINKS, MAX_USERNAME_LEN};
use vstd::prelude::*;

verus! {

/// A profile as a mathematical value.
pub struct ProfileView {
    pub owner: Seq<u8>,
    pub username: Seq<char>,
    pub bio: Seq<char>,
    pub links: Seq<Seq<char>>,
}

impl ProfileView {
    /// Every field respects its bound, so the profile fits the space
    /// reserved for it.
    pub open spec fn within_bounds(self) -> bool {
        &&& byte_len(self.username) <= MAX_USERNAME_LEN
        &&& byte_len(self.bio) <= MAX_BIO_LEN
        &&& self.links.len() <= MAX_LINKS
        &&& links_fit(self.links)
    }
}

/// A claim on a username as a mathematical value.
pub struct RegistryView {
    pub owner: Seq<u8>,
}

/// The profile of one identity.
pub struct UserProfile {
    /// The identity that created the profile. Never changes.
    pub owner: [u8; 32],
    /// The unique name of the profile. Never changes.
    pub username: String,
    pub bio: String,
    pub links: Vec<String>,
}

impl View for UserProfile {
    type V = ProfileView;

    open spec fn view(&self) -> ProfileView {
        ProfileView {
            owner: self.owner@,
            username: self.username@,
            bio: self.bio@,
            links: texts(self.links@),
        }
    }
}

impl UserProfile {
    /// A profile with every field empty and an all-zero owner, as a freshly
    /// allocated record holds it.
    pub fn empty() -> (profile: UserProfile)
        ensures
            profile@ == (ProfileView {
                owner: Seq::new(32, |i: int| 0u8),
                username: Seq::empty(),
                bio: Seq::empty(),
                links: Seq::empty(),
            }),
    {
        let profile = UserProfile {
            owner: [0u8; 32],
            username: String::new(),
            bio: String::new(),
            links: Vec::new(),
        };
        assert(profile.owner@ =~= Seq::new(32, |i: int| 0u8));
        assert(texts(profile.links@) =~= Seq::empty());
        profile
    }
}

/// The record whose existence reserves a username.
pub struct UsernameRegistry {
    /// The identity that claimed the username.
    pub owner: [u8; 32],
}

impl View for UsernameRegistry {
    type V = RegistryView;

    open spec fn view(&self) -> RegistryView {
        RegistryView { owner: self.owner@ }
    }
}

impl UsernameRegistry {
    /// A claim with an all-zero owner, as a freshly allocated record holds it.
    pub fn empty() -> (registry: UsernameRegistry)
        ensures
            registry@.owner == Seq::new(32, |i: int| 0u8),
    {
        let registry = UsernameRegistry { owner: [0u8; 32] };
        assert(registry.owner@ =~= Seq::new(32, |i: int| 0u8));
        registry
    }
}

} // verus!
