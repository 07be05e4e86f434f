use anchor_lang::AnchorSerialize;
use profile_registry::schema::{
    PROFILE_DISCRIMINATOR, PROFILE_SPACE, REGISTRY_DISCRIMINATOR, USERNAME_REGISTRY_SPACE,
};
use profile_registry::{UserProfile, UsernameRegistry};
use sha2::{Digest, Sha256};

fn sample() -> UserProfile {
    UserProfile {
        owner: [7u8; 32],
        username: "alice".to_string(),
        bio: "hi".to_string(),
        links: vec!["https://a".to_string()],
    }
}

fn borsh_of(profile: &UserProfile) -> Vec<u8> {
    let mut bytes = PROFILE_DISCRIMINATOR.to_vec();
    AnchorSerialize::serialize(&profile.owner, &mut bytes).unwrap();
    AnchorSerialize::serialize(&profile.username, &mut bytes).unwrap();
    AnchorSerialize::serialize(&profile.bio, &mut bytes).unwrap();
    AnchorSerialize::serialize(&profile.links, &mut bytes).unwrap();
    bytes
}

#[test]
fn spaces_have_their_values() {
    assert_eq!(PROFILE_SPACE, 1420);
    assert_eq!(PROFILE_SPACE, 8 + 32 + (4 + 32) + (4 + 280) + 4 + 8 * (4 + 128));
    assert_eq!(USERNAME_REGISTRY_SPACE, 40);
}

#[test]
fn discriminators_are_the_hashed_record_names() {
    let profile = Sha256::digest(b"account:UserProfile");
    assert_eq!(&PROFILE_DISCRIMINATOR[..], &profile[..8]);
    let registry = Sha256::digest(b"account:UsernameRegistry");
    assert_eq!(&REGISTRY_DISCRIMINATOR[..], &registry[..8]);
}

#[test]
fn profile_is_stored_field_by_field() {
    let mut expected = vec![32, 37, 119, 205, 179, 180, 13, 194];
    expected.extend_from_slice(&[7u8; 32]);
    expected.extend_from_slice(&[5, 0, 0, 0]);
    expected.extend_from_slice(b"alice");
    expected.extend_from_slice(&[2, 0, 0, 0]);
    expected.extend_from_slice(b"hi");
    expected.extend_from_slice(&[1, 0, 0, 0]);
    expected.extend_from_slice(&[9, 0, 0, 0]);
    expected.extend_from_slice(b"https://a");
    assert_eq!(sample().serialize(), Some(expected));
}

#[test]
fn profile_is_stored_as_borsh_stores_it() {
    let profile = sample();
    assert_eq!(profile.serialize(), Some(borsh_of(&profile)));
    let wide = UserProfile {
        owner: [255u8; 32],
        username: "é".repeat(16),
        bio: "b".repeat(280),
        links: vec!["€".repeat(42), String::new(), "x".repeat(128)],
    };
    assert_eq!(wide.serialize(), Some(borsh_of(&wide)));
}

#[test]
fn length_takes_four_bytes_lowest_first() {
    let profile = UserProfile {
        owner: [0u8; 32],
        username: String::new(),
        bio: "b".repeat(280),
        links: vec![],
    };
    let stored = profile.serialize().unwrap();
    assert_eq!(&stored[40..44], &[0, 0, 0, 0]);
    assert_eq!(&stored[44..48], &[24, 1, 0, 0]);
    assert_eq!(stored.len(), 8 + 32 + 4 + 4 + 280 + 4);
}

#[test]
fn empty_profile_takes_52_bytes() {
    let stored = UserProfile::empty().serialize().unwrap();
    assert_eq!(stored.len(), 52);
    assert_eq!(&stored[..8], &PROFILE_DISCRIMINATOR[..]);
    assert!(stored[8..].iter().all(|byte| *byte == 0));
}

#[test]
fn largest_profile_fills_the_space() {
    let profile = UserProfile {
        owner: [1u8; 32],
        username: "u".repeat(32),
        bio: "b".repeat(280),
        links: (0..8).map(|_| "l".repeat(128)).collect(),
    };
    let stored = profile.serialize().unwrap();
    assert_eq!(stored.len(), PROFILE_SPACE);
    assert_eq!(stored, borsh_of(&profile));
}

#[test]
fn profile_beyond_the_space_is_not_stored() {
    let mut profile = UserProfile {
        owner: [1u8; 32],
        username: "u".repeat(32),
        bio: "b".repeat(280),
        links: (0..8).map(|_| "l".repeat(128)).collect(),
    };
    profile.bio.push('b');
    assert_eq!(profile.serialize(), None);
    profile.bio.pop();
    profile.links.push(String::new());
    assert_eq!(profile.serialize(), None);
    profile.links.pop();
    profile.username.push('u');
    assert_eq!(profile.serialize(), None);
}

#[test]
fn space_is_counted_over_the_whole_profile() {
    // Out of bounds field by field, yet within the space as a whole.
    let profile = UserProfile {
        owner: [1u8; 32],
        username: "u".repeat(40),
        bio: String::new(),
        links: (0..9).map(|_| "l".repeat(130)).collect(),
    };
    let stored = profile.serialize().unwrap();
    assert_eq!(stored, borsh_of(&profile));
    assert_eq!(stored.len(), 8 + 32 + 44 + 4 + 4 + 9 * 134);
}

#[test]
fn claim_is_stored_as_tag_and_owner() {
    let registry = UsernameRegistry { owner: [3u8; 32] };
    let stored = registry.serialize();
    assert_eq!(stored.len(), USERNAME_REGISTRY_SPACE);
    assert_eq!(&stored[..8], &[145, 217, 207, 126, 35, 114, 138, 18]);
    assert_eq!(&stored[8..], &[3u8; 32]);
}
