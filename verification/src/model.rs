//! The registry as a mathematical state machine: a map from addresses to
//! records, and what each operation answers and leaves behind.

use crate::address::{profile_address_of, username_address_of};
use crate::error::ProfileError;
use crate::instructions::{amended, create_verdict, update_verdict};
use crate::records::{ProfileView, RegistryView};
use crate::validation::username_verdict;
use vstd::prelude::*;

verus! {

/// What an address holds.
pub enum RecordView {
    Profile(ProfileView),
    Registry(RegistryView),
}

/// Whether `state` holds a profile at `address`.
pub open spec fn holds_profile(state: Map<Seq<u8>, RecordView>, address: Seq<u8>) -> bool {
    state.dom().contains(address) && state[address] is Profile
}

/// The answer to a creation that is to allocate the profile at
/// `profile_address` and the claim at `registry_address`.
///
/// The profile's address is looked at first, then the username's length,
/// then the claim's address, then the other fields.
pub open spec fn create_at_verdict(
    state: Map<Seq<u8>, RecordView>,
    profile_address: Seq<u8>,
    registry_address: Seq<u8>,
    username: Seq<char>,
    bio: Seq<char>,
    links: Seq<Seq<char>>,
) -> Result<(), ProfileError> {
    if state.dom().contains(profile_address) {
        Err(ProfileError::AddressCollision)
    } else if username_verdict(username) is Err {
        username_verdict(username)
    } else if registry_address == profile_address || state.dom().contains(registry_address) {
        Err(ProfileError::AddressCollision)
    } else {
        create_verdict(username, bio, links)
    }
}

/// The state after such a creation: both records on success, no change on failure.
pub open spec fn create_at_state(
    state: Map<Seq<u8>, RecordView>,
    profile_address: Seq<u8>,
    registry_address: Seq<u8>,
    user: Seq<u8>,
    username: Seq<char>,
    bio: Seq<char>,
    links: Seq<Seq<char>>,
) -> Map<Seq<u8>, RecordView> {
    if create_at_verdict(state, profile_address, registry_address, username, bio, links) is Ok {
        state.insert(
            profile_address,
            RecordView::Profile(ProfileView { owner: user, username, bio, links }),
        ).insert(registry_address, RecordView::Registry(RegistryView { owner: user }))
    } else {
        state
    }
}

/// The answer to an amendment of the profile at `profile_address`, asked
/// for by `user`; `None` where no profile is stored there.
pub open spec fn update_at_verdict(
    state: Map<Seq<u8>, RecordView>,
    profile_address: Seq<u8>,
    user: Seq<u8>,
    bio: Option<Seq<char>>,
    links: Option<Seq<Seq<char>>>,
) -> Option<Result<(), ProfileError>> {
    if holds_profile(state, profile_address) {
        Some(update_verdict(state[profile_address]->Profile_0.owner, user, bio, links))
    } else {
        None
    }
}

/// The state after such an amendment: the profile amended on success, no
/// change otherwise.
pub open spec fn update_at_state(
    state: Map<Seq<u8>, RecordView>,
    profile_address: Seq<u8>,
    user: Seq<u8>,
    bio: Option<Seq<char>>,
    links: Option<Seq<Seq<char>>>,
) -> Map<Seq<u8>, RecordView> {
    if update_at_verdict(state, profile_address, user, bio, links) == Some(
        Ok::<(), ProfileError>(()),
    ) {
        state.insert(
            profile_address,
            RecordView::Profile(amended(state[profile_address]->Profile_0, bio, links)),
        )
    } else {
        state
    }
}

/// The answer to a creation by `user`, with the addresses derived from the
/// user's key and from the username; `None` where an address that the answer
/// depends on cannot be derived.
pub open spec fn create_verdict_for(
    state: Map<Seq<u8>, RecordView>,
    user: Seq<u8>,
    username: Seq<char>,
    bio: Seq<char>,
    links: Seq<Seq<char>>,
) -> Option<Result<(), ProfileError>> {
    match profile_address_of(user) {
        None => None,
        Some((profile_address, _)) => {
            if state.dom().contains(profile_address) {
                Some(Err(ProfileError::AddressCollision))
            } else if username_verdict(username) is Err {
                Some(username_verdict(username))
            } else {
                match username_address_of(username) {
                    None => None,
                    Some((registry_address, _)) => Some(
                        create_at_verdict(
                            state,
                            profile_address,
                            registry_address,
                            username,
                            bio,
                            links,
                        ),
                    ),
                }
            }
        },
    }
}

/// The state after a creation by `user`.
pub open spec fn create_state_for(
    state: Map<Seq<u8>, RecordView>,
    user: Seq<u8>,
    username: Seq<char>,
    bio: Seq<char>,
    links: Seq<Seq<char>>,
) -> Map<Seq<u8>, RecordView> {
    match (profile_address_of(user), username_address_of(username)) {
        (Some((profile_address, _)), Some((registry_address, _))) => {
            if create_verdict_for(state, user, username, bio, links) == Some(
                Ok::<(), ProfileError>(()),
            ) {
                create_at_state(
                    state,
                    profile_address,
                    registry_address,
                    user,
                    username,
                    bio,
                    links,
                )
            } else {
                state
            }
        },
        _ => state,
    }
}

/// The answer to an amendment by `user` of the profile at the address
/// derived from the user's own key; `None` where that address cannot be
/// derived or holds no profile.
pub open spec fn update_verdict_for(
    state: Map<Seq<u8>, RecordView>,
    user: Seq<u8>,
    bio: Option<Seq<char>>,
    links: Option<Seq<Seq<char>>>,
) -> Option<Result<(), ProfileError>> {
    match profile_address_of(user) {
        None => None,
        Some((profile_address, _)) => update_at_verdict(state, profile_address, user, bio, links),
    }
}

/// The state after an amendment by `user`.
pub open spec fn update_state_for(
    state: Map<Seq<u8>, RecordView>,
    user: Seq<u8>,
    bio: Option<Seq<char>>,
    links: Option<Seq<Seq<char>>>,
) -> Map<Seq<u8>, RecordView> {
    match profile_address_of(user) {
        None => state,
        Some((profile_address, _)) => update_at_state(state, profile_address, user, bio, links),
    }
}

} // verus!
