//! Deterministic record addresses, derived from a namespace tag and key material.

use anchor_lang::prelude::Pubkey;
use vstd::prelude::*;
use vstd::utf8::encode_utf8;

verus! {

/// What `Pubkey::try_find_program_address` returns for the seed list
/// `[tag, key]` under the program `program`: the derived address with its
/// bump, or `None` where a seed is too long or the search finds no usable
/// bump.
pub uninterp spec fn derived(tag: Seq<u8>, key: Seq<u8>, program: Seq<u8>) -> Option<(Seq<u8>, u8)>;

/// The most bytes that one seed of a derivation may have.
pub const MAX_SEED_LEN: usize = 32;

/// Calls `Pubkey::try_find_program_address` with the two seeds `tag` and
/// `key`. The call hashes its arguments and nothing else, so its outcome is
/// the named function of them; it finds nothing where a seed is longer than
/// `MAX_SEED_LEN` bytes.
#[verifier::external_body]
fn find_program_address(tag: &[u8], key: &[u8], program: &[u8; 32]) -> (found: Option<([u8; 32], u8)>)
    ensures
        match found {
            Some((address, bump)) => derived(tag@, key@, program@) == Some((address@, bump)),
            None => derived(tag@, key@, program@) is None,
        },
        tag@.len() > MAX_SEED_LEN || key@.len() > MAX_SEED_LEN ==> found is None,
{
    let program_id = Pubkey::new_from_array(*program);
    match Pubkey::try_find_program_address(&[tag, key], &program_id) {
        Some((address, bump)) => Some((address.to_bytes(), bump)),
        None => None,
    }
}

/// Whether two keys hold the same bytes.
pub fn same_key(a: &[u8; 32], b: &[u8; 32]) -> (same: bool)
    ensures
        same == (a@ == b@),
{
    let mut i: usize = 0;
    while i < 32
        invariant
            i <= 32,
            forall|j: int| 0 <= j < i ==> a@[j] == b@[j],
        decreases 32 - i,
    {
        if a[i] != b[i] {
            return false;
        }
        i += 1;
    }
    assert(a@ =~= b@);
    true
}

/// The program under whose name every record address is derived.
pub const PROGRAM_ID: [u8; 32] = [
    92, 169, 160, 245, 191, 17, 111, 120, 216, 12, 132, 179, 161, 134, 121, 16,
    146, 183, 25, 32, 237, 94, 152, 75, 67, 170, 176, 204, 168, 15, 90, 238,
];

/// The namespace tag of profile records: the bytes of `profile`.
pub const PROFILE_TAG: [u8; 7] = [112, 114, 111, 102, 105, 108, 101];

/// The namespace tag of username claims: the bytes of `username`.
pub const USERNAME_TAG: [u8; 8] = [117, 115, 101, 114, 110, 97, 109, 101];

/// The address of the profile of `owner`, with its bump: derived from the
/// profile tag and the owner's key.
pub open spec fn profile_address_of(owner: Seq<u8>) -> Option<(Seq<u8>, u8)> {
    derived(PROFILE_TAG@, owner, PROGRAM_ID@)
}

/// The address of the claim on `username`, with its bump: derived from the
/// username tag and the bytes of the username.
pub open spec fn username_address_of(username: Seq<char>) -> Option<(Seq<u8>, u8)> {
    derived(USERNAME_TAG@, encode_utf8(username), PROGRAM_ID@)
}

/// Whether what a derivation returned is the given mathematical result.
pub open spec fn is_derivation(found: Option<([u8; 32], u8)>, result: Option<(Seq<u8>, u8)>) -> bool {
    match found {
        Some((address, bump)) => result == Some((address@, bump)),
        None => result is None,
    }
}

/// Derives the address at which the profile of `owner` lives, with its bump.
pub fn profile_address(owner: &[u8; 32]) -> (found: Option<([u8; 32], u8)>)
    ensures
        is_derivation(found, profile_address_of(owner@)),
{
    find_program_address(PROFILE_TAG.as_slice(), owner.as_slice(), &PROGRAM_ID)
}

/// Derives the address at which the claim on `username` lives, with its
/// bump. A username of more than `MAX_SEED_LEN` bytes has no such address.
pub fn username_address(username: &str) -> (found: Option<([u8; 32], u8)>)
    ensures
        is_derivation(found, username_address_of(username@)),
        encode_utf8(username@).len() > MAX_SEED_LEN ==> found is None,
{
    find_program_address(USERNAME_TAG.as_slice(), username.as_bytes(), &PROGRAM_ID)
}

} // verus!
