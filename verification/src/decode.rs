//! Reading records back from their stored form.
//!
//! A reader takes what it needs off the front of the bytes and ignores what
//! follows the record, since a record is stored in a space that may be
//! larger than the record.

use crate::records::{ProfileView, RegistryView, UserProfile, UsernameRegistry};
use crate::schema::{
    encoded_entries, encoded_profile, encoded_registry, encoded_text, le_u32,
    PROFILE_DISCRIMINATOR, REGISTRY_DISCRIMINATOR,
};
use crate::validation::{byte_len, texts};
use vstd::prelude::*;
use vstd::slice::{slice_subrange, slice_to_vec};
use vstd::utf8::{
    decode_utf8, encode_utf8, encode_utf8_decode_utf8, encode_utf8_valid_utf8, valid_utf8,
};

verus! {

/// The number that four bytes stand for, the lowest byte first.
pub open spec fn u32_of(bytes: Seq<u8>) -> int {
    bytes[0] + 256 * bytes[1] + 65536 * bytes[2] + 16777216 * bytes[3]
}

/// What reading a text off the front of `bytes` gives: the text and the
/// bytes after it; `None` where the bytes end too early or the text is not
/// valid UTF-8.
pub open spec fn parsed_text(bytes: Seq<u8>) -> Option<(Seq<char>, Seq<u8>)> {
    if bytes.len() < 4 {
        None
    } else {
        let len = u32_of(bytes.take(4));
        if bytes.len() - 4 < len || !valid_utf8(bytes.subrange(4, 4 + len)) {
            None
        } else {
            Some((decode_utf8(bytes.subrange(4, 4 + len)), bytes.skip(4 + len)))
        }
    }
}

/// What reading `count` texts off the front of `bytes` gives: the texts in
/// order and the bytes after them.
pub open spec fn parsed_entries(bytes: Seq<u8>, count: nat) -> Option<(Seq<Seq<char>>, Seq<u8>)>
    decreases count,
{
    if count == 0 {
        Some((Seq::empty(), bytes))
    } else {
        match parsed_text(bytes) {
            None => None,
            Some((first, rest)) => match parsed_entries(rest, (count - 1) as nat) {
                None => None,
                Some((others, end)) => Some((seq![first] + others, end)),
            },
        }
    }
}

/// The profile that `bytes` begin with, if they begin with one.
pub open spec fn parsed_profile(bytes: Seq<u8>) -> Option<ProfileView> {
    if bytes.len() < 40 || bytes.take(8) != PROFILE_DISCRIMINATOR@ {
        None
    } else {
        match parsed_text(bytes.skip(40)) {
            None => None,
            Some((username, after_username)) => match parsed_text(after_username) {
                None => None,
                Some((bio, after_bio)) => {
                    if after_bio.len() < 4 {
                        None
                    } else {
                        match parsed_entries(after_bio.skip(4), u32_of(after_bio.take(4)) as nat) {
                            None => None,
                            Some((links, _)) => Some(
                                ProfileView { owner: bytes.subrange(8, 40), username, bio, links },
                            ),
                        }
                    }
                },
            },
        }
    }
}

/// The username claim that `bytes` begin with, if they begin with one.
pub open spec fn parsed_registry(bytes: Seq<u8>) -> Option<RegistryView> {
    if bytes.len() < 40 || bytes.take(8) != REGISTRY_DISCRIMINATOR@ {
        None
    } else {
        Some(RegistryView { owner: bytes.subrange(8, 40) })
    }
}

/// Four bytes written for a number stand for that number.
pub proof fn lemma_u32_reads_back(n: u32)
    ensures
        le_u32(n).len() == 4,
        u32_of(le_u32(n)) == n,
{
}

/// A stored text reads back as itself, whatever follows it.
pub proof fn lemma_text_reads_back(text: Seq<char>, tail: Seq<u8>)
    requires
        byte_len(text) <= u32::MAX,
    ensures
        parsed_text(encoded_text(text) + tail) == Some((text, tail)),
{
    let len = byte_len(text) as u32;
    let bytes = encoded_text(text) + tail;
    lemma_u32_reads_back(len);
    assert(bytes.take(4) =~= le_u32(len));
    assert(bytes.subrange(4, 4 + len) =~= encode_utf8(text));
    assert(bytes.skip(4 + len) =~= tail);
    encode_utf8_valid_utf8(text);
    encode_utf8_decode_utf8(text);
}

/// The stored entries of a list begin with its first entry.
pub proof fn lemma_encoded_entries_front(list: Seq<Seq<char>>)
    requires
        list.len() > 0,
    ensures
        encoded_entries(list) == encoded_text(list.first()) + encoded_entries(list.drop_first()),
    decreases list.len(),
{
    if list.len() == 1 {
        assert(list.drop_last() =~= Seq::<Seq<char>>::empty());
        assert(list.drop_first() =~= Seq::<Seq<char>>::empty());
        assert(encoded_entries(list.drop_last()) =~= Seq::<u8>::empty());
        assert(encoded_entries(list) =~= encoded_text(list.first()) + encoded_entries(
            list.drop_first(),
        ));
    } else {
        lemma_encoded_entries_front(list.drop_last());
        assert(list.drop_last().drop_first() =~= list.drop_first().drop_last());
        assert(list.drop_last().first() == list.first());
        assert(list.drop_first().last() == list.last());
        assert(encoded_entries(list) =~= encoded_text(list.first()) + encoded_entries(
            list.drop_first(),
        ));
    }
}

/// The stored entries of a list read back as the list, whatever follows them.
pub proof fn lemma_entries_read_back(list: Seq<Seq<char>>, tail: Seq<u8>)
    requires
        forall|i: int| 0 <= i < list.len() ==> byte_len(#[trigger] list[i]) <= u32::MAX,
    ensures
        parsed_entries(encoded_entries(list) + tail, list.len()) == Some((list, tail)),
    decreases list.len(),
{
    if list.len() == 0 {
        assert(encoded_entries(list) + tail =~= tail);
        assert(list =~= Seq::<Seq<char>>::empty());
    } else {
        let rest = list.drop_first();
        lemma_encoded_entries_front(list);
        assert(encoded_entries(list) + tail =~= encoded_text(list.first()) + (encoded_entries(rest)
            + tail));
        assert(byte_len(list[0]) <= u32::MAX);
        lemma_text_reads_back(list.first(), encoded_entries(rest) + tail);
        assert forall|i: int| 0 <= i < rest.len() implies byte_len(#[trigger] rest[i])
            <= u32::MAX by {
            assert(rest[i] == list[i + 1]);
        }
        lemma_entries_read_back(rest, tail);
        assert(seq![list.first()] + rest =~= list);
    }
}

/// How a stored profile with something after it falls into its parts.
proof fn lemma_profile_parts(profile: ProfileView, tail: Seq<u8>)
    requires
        profile.owner.len() == 32,
    ensures
        ({
            let entries = encoded_entries(profile.links) + tail;
            let after_bio = le_u32(profile.links.len() as u32) + entries;
            let after_username = encoded_text(profile.bio) + after_bio;
            let after_owner = encoded_text(profile.username) + after_username;
            let bytes = encoded_profile(profile) + tail;
            &&& bytes.len() >= 40
            &&& bytes.take(8) == PROFILE_DISCRIMINATOR@
            &&& bytes.subrange(8, 40) == profile.owner
            &&& bytes.skip(40) == after_owner
            &&& after_bio.len() >= 4
            &&& after_bio.take(4) == le_u32(profile.links.len() as u32)
            &&& after_bio.skip(4) == entries
        }),
{
    let entries = encoded_entries(profile.links) + tail;
    let after_bio = le_u32(profile.links.len() as u32) + entries;
    let after_username = encoded_text(profile.bio) + after_bio;
    let after_owner = encoded_text(profile.username) + after_username;
    let bytes = encoded_profile(profile) + tail;
    assert(bytes =~= PROFILE_DISCRIMINATOR@ + profile.owner + after_owner);
    assert(bytes.take(8) =~= PROFILE_DISCRIMINATOR@);
    assert(bytes.subrange(8, 40) =~= profile.owner);
    assert(bytes.skip(40) =~= after_owner);
    assert(after_bio.take(4) =~= le_u32(profile.links.len() as u32));
    assert(after_bio.skip(4) =~= entries);
}

/// Round trip in storage: a stored profile reads back as itself, whatever
/// follows it, provided that each length fits the four bytes it is written
/// in.
pub proof fn lemma_profile_reads_back(profile: ProfileView, tail: Seq<u8>)
    requires
        profile.owner.len() == 32,
        byte_len(profile.username) <= u32::MAX,
        byte_len(profile.bio) <= u32::MAX,
        profile.links.len() <= u32::MAX,
        forall|i: int|
            0 <= i < profile.links.len() ==> byte_len(#[trigger] profile.links[i]) <= u32::MAX,
    ensures
        parsed_profile(encoded_profile(profile) + tail) == Some(profile),
{
    let count = profile.links.len() as u32;
    let entries = encoded_entries(profile.links) + tail;
    let after_bio = le_u32(count) + entries;
    let after_username = encoded_text(profile.bio) + after_bio;
    let after_owner = encoded_text(profile.username) + after_username;
    lemma_profile_parts(profile, tail);
    lemma_text_reads_back(profile.username, after_username);
    lemma_text_reads_back(profile.bio, after_bio);
    lemma_u32_reads_back(count);
    lemma_entries_read_back(profile.links, tail);
}

/// A stored claim reads back as itself, whatever follows it.
pub proof fn lemma_registry_reads_back(registry: RegistryView, tail: Seq<u8>)
    requires
        registry.owner.len() == 32,
    ensures
        parsed_registry(encoded_registry(registry) + tail) == Some(registry),
{
    let bytes = encoded_registry(registry) + tail;
    assert(bytes.take(8) =~= REGISTRY_DISCRIMINATOR@);
    assert(bytes.subrange(8, 40) =~= registry.owner);
}

/// Calls `String::from_utf8`, which refuses exactly the byte strings that
/// are not valid UTF-8 and otherwise hands back a text made of those bytes.
#[verifier::external_body]
fn text_from_utf8(bytes: Vec<u8>) -> (text: Option<String>)
    ensures
        match text {
            Some(t) => encode_utf8(t@) == bytes@,
            None => !valid_utf8(bytes@),
        },
{
    match String::from_utf8(bytes) {
        Ok(text) => Some(text),
        Err(_) => None,
    }
}

/// Reads the number written in the four bytes from `at` on.
fn read_u32(bytes: &[u8], at: usize) -> (n: u32)
    requires
        at + 4 <= bytes.len(),
    ensures
        n == u32_of(bytes@.subrange(at as int, at + 4)),
{
    let b0 = bytes[at] as u32;
    let b1 = bytes[at + 1] as u32;
    let b2 = bytes[at + 2] as u32;
    let b3 = bytes[at + 3] as u32;
    b0 + 256 * b1 + 65536 * b2 + 16777216 * b3
}

/// Reads the text stored from `at` on, and says where the bytes after it begin.
fn read_text(bytes: &[u8], at: usize) -> (read: Option<(String, usize)>)
    requires
        at <= bytes.len(),
    ensures
        match read {
            Some((text, next)) => at <= next <= bytes.len() && parsed_text(bytes@.skip(at as int))
                == Some((text@, bytes@.skip(next as int))),
            None => parsed_text(bytes@.skip(at as int)) is None,
        },
{
    let ghost rest = bytes@.skip(at as int);
    if bytes.len() - at < 4 {
        return None;
    }
    let len = read_u32(bytes, at) as usize;
    assert(rest.take(4) =~= bytes@.subrange(at as int, at + 4));
    if bytes.len() - at - 4 < len {
        return None;
    }
    let encoded = slice_to_vec(slice_subrange(bytes, at + 4, at + 4 + len));
    assert(rest.subrange(4, 4 + len) =~= encoded@);
    assert(rest.skip(4 + len) =~= bytes@.skip(at + 4 + len));
    match text_from_utf8(encoded) {
        Some(text) => {
            proof {
                encode_utf8_valid_utf8(text@);
                encode_utf8_decode_utf8(text@);
            }
            Some((text, at + 4 + len))
        },
        None => None,
    }
}

/// Reads the `count` texts stored from `at` on, and says where the bytes
/// after them begin.
fn read_entries(bytes: &[u8], at: usize, count: u32) -> (read: Option<(Vec<String>, usize)>)
    requires
        at <= bytes.len(),
    ensures
        match read {
            Some((list, next)) => at <= next <= bytes.len() && parsed_entries(
                bytes@.skip(at as int),
                count as nat,
            ) == Some((texts(list@), bytes@.skip(next as int))),
            None => parsed_entries(bytes@.skip(at as int), count as nat) is None,
        },
{
    let ghost start = bytes@.skip(at as int);
    let mut list: Vec<String> = Vec::new();
    let mut next = at;
    let mut i: u32 = 0;
    proof {
        match parsed_entries(start, count as nat) {
            Some((others, end)) => {
                assert(texts(list@) + others =~= others);
            },
            None => {},
        }
    }
    while i < count
        invariant
            i <= count,
            at <= next <= bytes.len(),
            start == bytes@.skip(at as int),
            parsed_entries(start, count as nat) == match parsed_entries(
                bytes@.skip(next as int),
                (count - i) as nat,
            ) {
                Some((others, end)) => Some((texts(list@) + others, end)),
                None => None,
            },
        decreases count - i,
    {
        let ghost before = texts(list@);
        let (text, after) = match read_text(bytes, next) {
            Some(read) => read,
            None => {
                assert(parsed_entries(bytes@.skip(next as int), (count - i) as nat) is None);
                return None;
            },
        };
        list.push(text);
        proof {
            assert(texts(list@) =~= before.push(text@));
            match parsed_entries(bytes@.skip(after as int), (count - i - 1) as nat) {
                Some((others, end)) => {
                    assert(before + (seq![text@] + others) =~= texts(list@) + others);
                },
                None => {},
            }
        }
        next = after;
        i += 1;
    }
    assert(texts(list@) + Seq::<Seq<char>>::empty() =~= texts(list@));
    Some((list, next))
}

impl UserProfile {
    /// The profile that `bytes` begin with, if they begin with one.
    pub fn deserialize(bytes: &[u8]) -> (read: Option<UserProfile>)
        ensures
            match read {
                Some(profile) => parsed_profile(bytes@) == Some(profile@),
                None => parsed_profile(bytes@) is None,
            },
    {
        if bytes.len() < 40 {
            return None;
        }
        let tag = slice_subrange(bytes, 0, 8);
        assert(tag@ =~= bytes@.take(8));
        if !same_bytes(tag, PROFILE_DISCRIMINATOR.as_slice()) {
            return None;
        }
        let owner = key_at(bytes, 8);
        let (username, after_username) = match read_text(bytes, 40) {
            Some(read) => read,
            None => {
                return None;
            },
        };
        let (bio, after_bio) = match read_text(bytes, after_username) {
            Some(read) => read,
            None => {
                return None;
            },
        };
        if bytes.len() - after_bio < 4 {
            return None;
        }
        let count = read_u32(bytes, after_bio);
        assert(bytes@.skip(after_bio as int).take(4) =~= bytes@.subrange(
            after_bio as int,
            after_bio + 4,
        ));
        assert(bytes@.skip(after_bio as int).skip(4) =~= bytes@.skip(after_bio + 4));
        let links = match read_entries(bytes, after_bio + 4, count) {
            Some((links, _)) => links,
            None => {
                return None;
            },
        };
        Some(UserProfile { owner, username, bio, links })
    }
}

impl UsernameRegistry {
    /// The username claim that `bytes` begin with, if they begin with one.
    pub fn deserialize(bytes: &[u8]) -> (read: Option<UsernameRegistry>)
        ensures
            match read {
                Some(registry) => parsed_registry(bytes@) == Some(registry@),
                None => parsed_registry(bytes@) is None,
            },
    {
        if bytes.len() < 40 {
            return None;
        }
        let tag = slice_subrange(bytes, 0, 8);
        assert(tag@ =~= bytes@.take(8));
        if !same_bytes(tag, REGISTRY_DISCRIMINATOR.as_slice()) {
            return None;
        }
        Some(UsernameRegistry { owner: key_at(bytes, 8) })
    }
}

/// Whether two byte strings are the same.
fn same_bytes(a: &[u8], b: &[u8]) -> (same: bool)
    ensures
        same == (a@ == b@),
{
    if a.len() != b.len() {
        return false;
    }
    let mut i: usize = 0;
    while i < a.len()
        invariant
            i <= a.len() == b.len(),
            forall|j: int| 0 <= j < i ==> a@[j] == b@[j],
        decreases a.len() - i,
    {
        if a[i] != b[i] {
            return false;
        }
        i += 1;
    }
    assert(a@ =~= b@);
    true
}

/// The key stored in the 32 bytes from `at` on.
fn key_at(bytes: &[u8], at: usize) -> (key: [u8; 32])
    requires
        at + 32 <= bytes.len(),
    ensures
        key@ == bytes@.subrange(at as int, at + 32),
{
    let mut key = [0u8; 32];
    let mut i: usize = 0;
    while i < 32
        invariant
            i <= 32,
            at + 32 <= bytes.len(),
            forall|j: int| 0 <= j < i ==> key@[j] == bytes@[at + j],
        decreases 32 - i,
    {
        key[i] = bytes[at + i];
        i += 1;
    }
    assert(key@ =~= bytes@.subrange(at as int, at + 32));
    key
}

} // verus!
