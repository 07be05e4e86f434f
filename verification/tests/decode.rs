use anchor_lang::AnchorSerialize;
use profile_registry::ledger::Ledger;
use profile_registry::schema::{PROFILE_DISCRIMINATOR, PROFILE_SPACE, REGISTRY_DISCRIMINATOR};
use profile_registry::{UserProfile, UsernameRegistry};

fn sample() -> UserProfile {
    UserProfile {
        owner: [7u8; 32],
        username: "alice".to_string(),
        bio: "hi".to_string(),
        links: vec!["https://a".to_string(), String::new(), "https://€".to_string()],
    }
}

fn assert_same(read: &UserProfile, written: &UserProfile) {
    assert_eq!(read.owner, written.owner);
    assert_eq!(read.username, written.username);
    assert_eq!(read.bio, written.bio);
    assert_eq!(read.links, written.links);
}

fn header(username: &str, bio: &str) -> Vec<u8> {
    let mut bytes = PROFILE_DISCRIMINATOR.to_vec();
    bytes.extend_from_slice(&[7u8; 32]);
    AnchorSerialize::serialize(&username.to_string(), &mut bytes).unwrap();
    AnchorSerialize::serialize(&bio.to_string(), &mut bytes).unwrap();
    bytes
}

#[test]
fn stored_profile_reads_back() {
    let written = sample();
    let stored = written.serialize().unwrap();
    let read = UserProfile::deserialize(&stored).unwrap();
    assert_same(&read, &written);
}

#[test]
fn stored_profile_reads_back_from_its_padded_space() {
    let written = sample();
    let mut stored = written.serialize().unwrap();
    stored.resize(PROFILE_SPACE, 0);
    let read = UserProfile::deserialize(&stored).unwrap();
    assert_same(&read, &written);
    stored.extend_from_slice(&[255u8; 9]);
    assert_same(&UserProfile::deserialize(&stored).unwrap(), &written);
}

#[test]
fn largest_profile_reads_back() {
    let written = UserProfile {
        owner: [255u8; 32],
        username: "é".repeat(16),
        bio: "b".repeat(280),
        links: (0..8).map(|_| "l".repeat(128)).collect(),
    };
    let stored = written.serialize().unwrap();
    assert_eq!(stored.len(), PROFILE_SPACE);
    assert_same(&UserProfile::deserialize(&stored).unwrap(), &written);
}

#[test]
fn empty_profile_reads_back() {
    let stored = UserProfile::empty().serialize().unwrap();
    assert_same(&UserProfile::deserialize(&stored).unwrap(), &UserProfile::empty());
}

#[test]
fn zeroed_space_holds_no_profile() {
    assert!(UserProfile::deserialize(&[0u8; 1420]).is_none());
    assert!(UserProfile::deserialize(&[]).is_none());
}

#[test]
fn profile_under_another_tag_is_not_read() {
    let mut stored = sample().serialize().unwrap();
    stored[7] ^= 1;
    assert!(UserProfile::deserialize(&stored).is_none());
    stored[7] ^= 1;
    stored[0] ^= 1;
    assert!(UserProfile::deserialize(&stored).is_none());
    let mut claim = UsernameRegistry { owner: [7u8; 32] }.serialize();
    claim.resize(PROFILE_SPACE, 0);
    assert!(UserProfile::deserialize(&claim).is_none());
}

#[test]
fn truncated_profile_is_not_read() {
    let stored = sample().serialize().unwrap();
    for len in 0..stored.len() {
        assert!(UserProfile::deserialize(&stored[..len]).is_none(), "read from {len} bytes");
    }
    assert!(UserProfile::deserialize(&stored).is_some());
}

#[test]
fn text_that_is_not_utf8_is_not_read() {
    let mut stored = sample().serialize().unwrap();
    // The first byte of the username, after tag, owner and length.
    stored[44] = 0xff;
    assert!(UserProfile::deserialize(&stored).is_none());
    stored[44] = b'A';
    assert_eq!(UserProfile::deserialize(&stored).unwrap().username, "Alice");
}

#[test]
fn text_is_decoded_not_copied() {
    let mut stored = header("€é", "");
    stored.extend_from_slice(&[0, 0, 0, 0]);
    let read = UserProfile::deserialize(&stored).unwrap();
    assert_eq!(read.username, "€é");
    assert_eq!(read.username.chars().count(), 2);
    assert_eq!(read.username.len(), 5);
    // A three-byte character cut after two bytes.
    let mut cut = PROFILE_DISCRIMINATOR.to_vec();
    cut.extend_from_slice(&[7u8; 32]);
    cut.extend_from_slice(&[2, 0, 0, 0, 0xe2, 0x82]);
    cut.extend_from_slice(&[0, 0, 0, 0, 0, 0, 0, 0]);
    assert!(UserProfile::deserialize(&cut).is_none());
}

#[test]
fn length_is_read_from_all_four_bytes() {
    let bio = "b".repeat(70000);
    let mut stored = header("", &bio);
    assert_eq!(&stored[44..48], &[112, 17, 1, 0]);
    stored.extend_from_slice(&[0, 0, 0, 0]);
    let read = UserProfile::deserialize(&stored).unwrap();
    assert_eq!(read.bio.len(), 70000);
    assert!(read.links.is_empty());
}

#[test]
fn link_count_beyond_the_bytes_is_not_read() {
    let mut stored = header("alice", "hi");
    stored.extend_from_slice(&[2, 0, 0, 0]);
    AnchorSerialize::serialize(&"one".to_string(), &mut stored).unwrap();
    assert!(UserProfile::deserialize(&stored).is_none());
    AnchorSerialize::serialize(&"two".to_string(), &mut stored).unwrap();
    let read = UserProfile::deserialize(&stored).unwrap();
    assert_eq!(read.links, vec!["one".to_string(), "two".to_string()]);
    let mut huge = header("alice", "hi");
    huge.extend_from_slice(&[255, 255, 255, 255]);
    huge.resize(PROFILE_SPACE, 0);
    assert!(UserProfile::deserialize(&huge).is_none());
}

#[test]
fn stored_claim_reads_back() {
    let written = UsernameRegistry { owner: [3u8; 32] };
    let mut stored = written.serialize();
    assert_eq!(UsernameRegistry::deserialize(&stored).unwrap().owner, [3u8; 32]);
    stored.push(0);
    assert_eq!(UsernameRegistry::deserialize(&stored).unwrap().owner, [3u8; 32]);
}

#[test]
fn claim_that_is_short_or_mistagged_is_not_read() {
    let stored = UsernameRegistry { owner: [3u8; 32] }.serialize();
    assert!(UsernameRegistry::deserialize(&stored[..39]).is_none());
    let mut other = stored.clone();
    other[..8].copy_from_slice(&PROFILE_DISCRIMINATOR);
    assert!(UsernameRegistry::deserialize(&other).is_none());
    assert_eq!(&stored[..8], &REGISTRY_DISCRIMINATOR[..]);
}

#[test]
fn record_from_the_ledger_survives_storage() {
    let mut ledger = Ledger::new();
    let owner = [4u8; 32];
    let outcome = ledger.create(owner, "dave".to_string(), "bio".to_string(), vec!["l".to_string()]);
    assert_eq!(outcome, Some(Ok(())));
    let profile = ledger.profile_of(&owner).unwrap();
    let stored = profile.serialize().unwrap();
    assert_same(&UserProfile::deserialize(&stored).unwrap(), profile);
}
