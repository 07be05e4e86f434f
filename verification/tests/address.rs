use anchor_lang::prelude::Pubkey;
use profile_registry::address::{
    same_key, PROFILE_TAG, PROGRAM_ID, USERNAME_TAG,
};
use profile_registry::{profile_address, username_address};
use std::str::FromStr;

#[test]
fn program_id_is_the_declared_one() {
    let declared = Pubkey::from_str("7EiXfcfkDh4eQWTWhrUNydZroe6sQiZzxryfbSwS1ddf").unwrap();
    assert_eq!(PROGRAM_ID, declared.to_bytes());
}

#[test]
fn tags_spell_their_names() {
    assert_eq!(&PROFILE_TAG[..], b"profile");
    assert_eq!(&USERNAME_TAG[..], b"username");
}

#[test]
fn profile_address_is_the_program_derived_address() {
    let owner = [5u8; 32];
    let program = Pubkey::new_from_array(PROGRAM_ID);
    let (expected, bump) = Pubkey::find_program_address(&[b"profile", &owner], &program);
    assert_eq!(profile_address(&owner), Some((expected.to_bytes(), bump)));
    assert_ne!(expected.to_bytes(), owner);
}

#[test]
fn username_address_is_the_program_derived_address() {
    let program = Pubkey::new_from_array(PROGRAM_ID);
    let (expected, bump) = Pubkey::find_program_address(&[b"username", b"alice"], &program);
    assert_eq!(username_address("alice"), Some((expected.to_bytes(), bump)));
}

#[test]
fn derivation_is_repeatable() {
    let owner = [5u8; 32];
    assert_eq!(profile_address(&owner), profile_address(&owner));
    assert_eq!(username_address("alice"), username_address("alice"));
}

#[test]
fn derivation_tells_tags_and_keys_apart() {
    let owner = [5u8; 32];
    let other = [6u8; 32];
    assert_ne!(profile_address(&owner), profile_address(&other));
    assert_ne!(username_address("alice"), username_address("bob"));
    let key_text = String::from_utf8(owner.to_vec()).unwrap();
    assert_ne!(profile_address(&owner), username_address(&key_text));
}

#[test]
fn derived_address_is_off_the_curve() {
    let (address, _) = profile_address(&[5u8; 32]).unwrap();
    assert!(!Pubkey::new_from_array(address).is_on_curve());
    let (address, _) = username_address("alice").unwrap();
    assert!(!Pubkey::new_from_array(address).is_on_curve());
}

#[test]
fn derivation_takes_a_username_of_32_bytes() {
    assert!(username_address(&"u".repeat(32)).is_some());
    assert!(username_address("").is_some());
}

#[test]
fn derivation_refuses_a_username_of_33_bytes() {
    assert_eq!(username_address(&"u".repeat(33)), None);
}

#[test]
fn same_key_compares_all_bytes() {
    let a = [1u8; 32];
    let mut b = [1u8; 32];
    assert!(same_key(&a, &b));
    b[31] = 2;
    assert!(!same_key(&a, &b));
    b[31] = 1;
    b[0] = 0;
    assert!(!same_key(&a, &b));
}
