//! What holds of the registry over every state and every sequence of
//! operations.

use crate::address::{profile_address_of, username_address_of};
use crate::error::ProfileError;
use crate::instructions::amended;
use crate::model::{
    create_at_state, create_at_verdict, create_state_for, create_verdict_for, holds_profile,
    update_at_state, update_at_verdict, update_state_for, update_verdict_for, RecordView,
};
use crate::records::{ProfileView, RegistryView};
use vstd::prelude::*;

verus! {

/// One call on the registry, with its arguments as mathematical values.
pub enum Operation {
    /// A creation with derived addresses.
    Create { user: Seq<u8>, username: Seq<char>, bio: Seq<char>, links: Seq<Seq<char>> },
    /// A creation at given addresses.
    CreateAt {
        profile_address: Seq<u8>,
        registry_address: Seq<u8>,
        user: Seq<u8>,
        username: Seq<char>,
        bio: Seq<char>,
        links: Seq<Seq<char>>,
    },
    /// An amendment of the caller's own profile.
    Update { user: Seq<u8>, new_bio: Option<Seq<char>>, new_links: Option<Seq<Seq<char>>> },
    /// An amendment of the profile at a given address.
    UpdateAt {
        profile_address: Seq<u8>,
        user: Seq<u8>,
        new_bio: Option<Seq<char>>,
        new_links: Option<Seq<Seq<char>>>,
    },
}

/// The state that one operation leaves behind.
pub open spec fn step(state: Map<Seq<u8>, RecordView>, operation: Operation) -> Map<
    Seq<u8>,
    RecordView,
> {
    match operation {
        Operation::Create { user, username, bio, links } => create_state_for(
            state,
            user,
            username,
            bio,
            links,
        ),
        Operation::CreateAt { profile_address, registry_address, user, username, bio, links } =>
            create_at_state(state, profile_address, registry_address, user, username, bio, links),
        Operation::Update { user, new_bio, new_links } => update_state_for(
            state,
            user,
            new_bio,
            new_links,
        ),
        Operation::UpdateAt { profile_address, user, new_bio, new_links } => update_at_state(
            state,
            profile_address,
            user,
            new_bio,
            new_links,
        ),
    }
}

/// The state that a sequence of operations leaves behind, the first
/// operation applied first.
pub open spec fn run(state: Map<Seq<u8>, RecordView>, operations: Seq<Operation>) -> Map<
    Seq<u8>,
    RecordView,
>
    decreases operations.len(),
{
    if operations.len() == 0 {
        state
    } else {
        step(run(state, operations.drop_last()), operations.last())
    }
}

/// What `later` keeps of `earlier`: every address stays occupied, a claim
/// stays as it is, and a profile stays a profile of the same owner under the
/// same username.
pub open spec fn keeps(earlier: Map<Seq<u8>, RecordView>, later: Map<Seq<u8>, RecordView>) -> bool {
    forall|address: Seq<u8>| #[trigger]
        earlier.dom().contains(address) ==> {
            &&& later.dom().contains(address)
            &&& match earlier[address] {
                RecordView::Profile(profile) => {
                    &&& later[address] is Profile
                    &&& later[address]->Profile_0.owner == profile.owner
                    &&& later[address]->Profile_0.username == profile.username
                },
                RecordView::Registry(registry) => later[address] == earlier[address],
            }
        }
}

/// No single operation frees an address, alters a claim, or changes the
/// owner or the username of a profile.
pub proof fn lemma_step_keeps(state: Map<Seq<u8>, RecordView>, operation: Operation)
    ensures
        keeps(state, step(state, operation)),
{
}

/// No sequence of operations frees an address, alters a claim, or changes
/// the owner or the username of a profile.
pub proof fn lemma_run_keeps(state: Map<Seq<u8>, RecordView>, operations: Seq<Operation>)
    ensures
        keeps(state, run(state, operations)),
    decreases operations.len(),
{
    if operations.len() > 0 {
        let before = run(state, operations.drop_last());
        lemma_run_keeps(state, operations.drop_last());
        lemma_step_keeps(before, operations.last());
    }
}

/// Uniqueness of usernames: once a creation under `username` has succeeded,
/// no later creation under the same username succeeds, whoever asks and
/// whatever happened in between. It is answered with `AddressCollision`
/// wherever the asker's own profile address can be derived, and changes
/// nothing.
pub proof fn lemma_username_claimed_once(
    state: Map<Seq<u8>, RecordView>,
    first_user: Seq<u8>,
    username: Seq<char>,
    first_bio: Seq<char>,
    first_links: Seq<Seq<char>>,
    between: Seq<Operation>,
    second_user: Seq<u8>,
    second_bio: Seq<char>,
    second_links: Seq<Seq<char>>,
)
    requires
        create_verdict_for(state, first_user, username, first_bio, first_links) == Some(
            Ok::<(), ProfileError>(()),
        ),
    ensures
        ({
            let created = create_state_for(state, first_user, username, first_bio, first_links);
            let later = run(created, between);
            let verdict = create_verdict_for(later, second_user, username, second_bio, second_links);
            &&& verdict != Some(Ok::<(), ProfileError>(()))
            &&& profile_address_of(second_user) is Some ==> verdict == Some(
                Err::<(), ProfileError>(ProfileError::AddressCollision),
            )
            &&& create_state_for(later, second_user, username, second_bio, second_links) == later
        }),
{
    let created = create_state_for(state, first_user, username, first_bio, first_links);
    let registry_address = (username_address_of(username)->0).0;
    assert(created.dom().contains(registry_address));
    lemma_run_keeps(created, between);
}

/// One profile per owner: once a creation by `user` has succeeded, every
/// later creation by the same user is answered with `AddressCollision`,
/// under whatever username, and changes nothing.
pub proof fn lemma_one_profile_per_owner(
    state: Map<Seq<u8>, RecordView>,
    user: Seq<u8>,
    first_username: Seq<char>,
    first_bio: Seq<char>,
    first_links: Seq<Seq<char>>,
    between: Seq<Operation>,
    second_username: Seq<char>,
    second_bio: Seq<char>,
    second_links: Seq<Seq<char>>,
)
    requires
        create_verdict_for(state, user, first_username, first_bio, first_links) == Some(
            Ok::<(), ProfileError>(()),
        ),
    ensures
        ({
            let created = create_state_for(state, user, first_username, first_bio, first_links);
            let later = run(created, between);
            &&& create_verdict_for(later, user, second_username, second_bio, second_links) == Some(
                Err::<(), ProfileError>(ProfileError::AddressCollision),
            )
            &&& create_state_for(later, user, second_username, second_bio, second_links) == later
        }),
{
    let created = create_state_for(state, user, first_username, first_bio, first_links);
    let profile_address = (profile_address_of(user)->0).0;
    assert(created.dom().contains(profile_address));
    lemma_run_keeps(created, between);
}

/// Owner and username are fixed: a profile that is stored stays stored at
/// its address, under the same owner and the same username, through every
/// sequence of operations.
pub proof fn lemma_owner_and_username_fixed(
    state: Map<Seq<u8>, RecordView>,
    address: Seq<u8>,
    operations: Seq<Operation>,
)
    requires
        holds_profile(state, address),
    ensures
        holds_profile(run(state, operations), address),
        run(state, operations)[address]->Profile_0.owner == state[address]->Profile_0.owner,
        run(state, operations)[address]->Profile_0.username == state[address]->Profile_0.username,
{
    lemma_run_keeps(state, operations);
    assert(state.dom().contains(address));
}

/// Authorization: an amendment asked for by anyone but the owner of the
/// profile is answered with `Unauthorized` and leaves every record as it was.
pub proof fn lemma_stranger_cannot_amend(
    state: Map<Seq<u8>, RecordView>,
    address: Seq<u8>,
    user: Seq<u8>,
    bio: Option<Seq<char>>,
    links: Option<Seq<Seq<char>>>,
)
    requires
        holds_profile(state, address),
        state[address]->Profile_0.owner != user,
    ensures
        update_at_verdict(state, address, user, bio, links) == Some(
            Err::<(), ProfileError>(ProfileError::Unauthorized),
        ),
        update_at_state(state, address, user, bio, links) == state,
{
}

/// An amendment that gives neither field is accepted from the owner and
/// changes nothing.
pub proof fn lemma_empty_amendment(state: Map<Seq<u8>, RecordView>, address: Seq<u8>, user: Seq<u8>)
    requires
        holds_profile(state, address),
        state[address]->Profile_0.owner == user,
    ensures
        update_at_verdict(state, address, user, None, None) == Some(Ok::<(), ProfileError>(())),
        update_at_state(state, address, user, None, None) == state,
{
    let profile = state[address]->Profile_0;
    assert(amended(profile, None, None) == profile);
    assert(state.insert(address, state[address]) =~= state);
}

/// All or nothing: an operation that is not accepted leaves every record as
/// it was.
pub proof fn lemma_rejection_changes_nothing(
    state: Map<Seq<u8>, RecordView>,
    profile_address: Seq<u8>,
    registry_address: Seq<u8>,
    user: Seq<u8>,
    username: Seq<char>,
    bio: Seq<char>,
    links: Seq<Seq<char>>,
    new_bio: Option<Seq<char>>,
    new_links: Option<Seq<Seq<char>>>,
)
    ensures
        create_at_verdict(state, profile_address, registry_address, username, bio, links) is Err
            ==> create_at_state(state, profile_address, registry_address, user, username, bio, links)
            == state,
        create_verdict_for(state, user, username, bio, links) != Some(Ok::<(), ProfileError>(()))
            ==> create_state_for(state, user, username, bio, links) == state,
        update_at_verdict(state, profile_address, user, new_bio, new_links) != Some(
            Ok::<(), ProfileError>(()),
        ) ==> update_at_state(state, profile_address, user, new_bio, new_links) == state,
        update_verdict_for(state, user, new_bio, new_links) != Some(Ok::<(), ProfileError>(()))
            ==> update_state_for(state, user, new_bio, new_links) == state,
{
}

/// Amending twice with the same fields leaves what amending once leaves.
pub proof fn lemma_amendment_idempotent(
    state: Map<Seq<u8>, RecordView>,
    address: Seq<u8>,
    user: Seq<u8>,
    bio: Option<Seq<char>>,
    links: Option<Seq<Seq<char>>>,
)
    ensures
        ({
            let once = update_at_state(state, address, user, bio, links);
            &&& update_at_verdict(once, address, user, bio, links) == update_at_verdict(
                state,
                address,
                user,
                bio,
                links,
            )
            &&& update_at_state(once, address, user, bio, links) == once
        }),
{
    let once = update_at_state(state, address, user, bio, links);
    if update_at_verdict(state, address, user, bio, links) == Some(Ok::<(), ProfileError>(())) {
        let profile = state[address]->Profile_0;
        assert(amended(amended(profile, bio, links), bio, links) == amended(profile, bio, links));
        assert(once.insert(address, once[address]) =~= once);
    }
}

/// Round trip: after an accepted creation the profile stands at the address
/// derived from the owner's key with exactly the fields that were given, and
/// the claim stands at the address derived from the username, in the
/// owner's name.
pub proof fn lemma_created_profile_stands(
    state: Map<Seq<u8>, RecordView>,
    user: Seq<u8>,
    username: Seq<char>,
    bio: Seq<char>,
    links: Seq<Seq<char>>,
)
    requires
        create_verdict_for(state, user, username, bio, links) == Some(Ok::<(), ProfileError>(())),
    ensures
        ({
            let created = create_state_for(state, user, username, bio, links);
            &&& profile_address_of(user) matches Some((profile_address, _))
            &&& username_address_of(username) matches Some((registry_address, _))
            &&& created.dom().contains(profile_address)
            &&& created[profile_address] == RecordView::Profile(
                ProfileView { owner: user, username, bio, links },
            )
            &&& created.dom().contains(registry_address)
            &&& created[registry_address] == RecordView::Registry(RegistryView { owner: user })
        }),
{
}

/// The link between a profile and its claim is permanent: after an accepted
/// creation and through every sequence of operations, the profile stands at
/// the address derived from the owner's key, under that owner and that
/// username, and the claim stands at the address derived from the username,
/// in the owner's name.
pub proof fn lemma_link_is_permanent(
    state: Map<Seq<u8>, RecordView>,
    user: Seq<u8>,
    username: Seq<char>,
    bio: Seq<char>,
    links: Seq<Seq<char>>,
    later: Seq<Operation>,
)
    requires
        create_verdict_for(state, user, username, bio, links) == Some(Ok::<(), ProfileError>(())),
    ensures
        ({
            let end = run(create_state_for(state, user, username, bio, links), later);
            &&& profile_address_of(user) matches Some((profile_address, _))
            &&& username_address_of(username) matches Some((registry_address, _))
            &&& holds_profile(end, profile_address)
            &&& end[profile_address]->Profile_0.owner == user
            &&& end[profile_address]->Profile_0.username == username
            &&& end.dom().contains(registry_address)
            &&& end[registry_address] == RecordView::Registry(RegistryView { owner: user })
        }),
{
    let created = create_state_for(state, user, username, bio, links);
    lemma_created_profile_stands(state, user, username, bio, links);
    lemma_run_keeps(created, later);
    assert(created.dom().contains((profile_address_of(user)->0).0));
    assert(created.dom().contains((username_address_of(username)->0).0));
}

/// Every profile in `state` respects the bounds on its fields.
pub open spec fn all_within_bounds(state: Map<Seq<u8>, RecordView>) -> bool {
    forall|address: Seq<u8>| #[trigger]
        state.dom().contains(address) ==> (state[address] matches RecordView::Profile(profile)
            ==> profile.within_bounds())
}

/// No operation stores a profile that breaks a bound: what was allocated
/// for a profile at its creation holds it after every amendment.
pub proof fn lemma_step_keeps_bounds(state: Map<Seq<u8>, RecordView>, operation: Operation)
    requires
        all_within_bounds(state),
    ensures
        all_within_bounds(step(state, operation)),
{
    let after = step(state, operation);
    assert forall|address: Seq<u8>| #[trigger] after.dom().contains(address) implies (
    after[address] matches RecordView::Profile(profile) ==> profile.within_bounds()) by {
        if state.dom().contains(address) {
            assert(state[address] matches RecordView::Profile(profile)
                ==> profile.within_bounds());
        }
    }
}

/// No sequence of operations, from a registry without records, stores a
/// profile that breaks a bound.
pub proof fn lemma_run_keeps_bounds(operations: Seq<Operation>)
    ensures
        all_within_bounds(run(Map::empty(), operations)),
    decreases operations.len(),
{
    if operations.len() > 0 {
        lemma_run_keeps_bounds(operations.drop_last());
        lemma_step_keeps_bounds(run(Map::empty(), operations.drop_last()), operations.last());
    }
}

} // verus!
