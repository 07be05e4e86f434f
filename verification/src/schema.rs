//! How records are laid out in storage, and how much space each may take.
//!
//! A record is stored as an eight-byte tag for its kind, then its fields in
//! order. A key is stored as its 32 bytes. A text is stored as the number of
//! its bytes, in four bytes with the lowest first, then the bytes. A list is
//! stored as the number of its entries, in the same four-byte form, then the
//! entries.

use crate::records::{ProfileView, RegistryView, UserProfile, UsernameRegistry};
use crate::validation::{
    byte_len, links_fit, texts, MAX_BIO_LEN, MAX_LINKS, MAX_LINK_LEN, MAX_USERNAME_LEN,
};
use vstd::prelude::*;
use vstd::utf8::encode_utf8;

verus! {

/// The tag that opens a stored profile.
pub const PROFILE_DISCRIMINATOR: [u8; 8] = [32, 37, 119, 205, 179, 180, 13, 194];

/// The tag that opens a stored username claim.
pub const REGISTRY_DISCRIMINATOR: [u8; 8] = [145, 217, 207, 126, 35, 114, 138, 18];

/// The space reserved for a profile: tag, owner, and each text and the list
/// at its greatest length.
pub const PROFILE_SPACE: usize = 8 + 32 + 4 + MAX_USERNAME_LEN + 4 + MAX_BIO_LEN + 4 + MAX_LINKS * (4
    + MAX_LINK_LEN);

/// The space reserved for a username claim: tag and owner.
pub const USERNAME_REGISTRY_SPACE: usize = 8 + 32;

/// A number in four bytes, the lowest first.
pub open spec fn le_u32(n: u32) -> Seq<u8> {
    seq![
        (n % 256) as u8,
        ((n / 256) % 256) as u8,
        ((n / 65536) % 256) as u8,
        ((n / 16777216) % 256) as u8,
    ]
}

/// A text as stored: its length in bytes, then its bytes.
pub open spec fn encoded_text(text: Seq<char>) -> Seq<u8> {
    le_u32(byte_len(text) as u32) + encode_utf8(text)
}

/// The entries of a list of texts as stored, one after the other.
pub open spec fn encoded_entries(list: Seq<Seq<char>>) -> Seq<u8>
    decreases list.len(),
{
    if list.len() == 0 {
        Seq::empty()
    } else {
        encoded_entries(list.drop_last()) + encoded_text(list.last())
    }
}

/// A profile as stored.
pub open spec fn encoded_profile(profile: ProfileView) -> Seq<u8> {
    PROFILE_DISCRIMINATOR@ + profile.owner + encoded_text(profile.username) + encoded_text(
        profile.bio,
    ) + le_u32(profile.links.len() as u32) + encoded_entries(profile.links)
}

/// A username claim as stored.
pub open spec fn encoded_registry(registry: RegistryView) -> Seq<u8> {
    REGISTRY_DISCRIMINATOR@ + registry.owner
}

/// The number of bytes that the entries of a list take.
pub open spec fn entries_len(list: Seq<Seq<char>>) -> nat
    decreases list.len(),
{
    if list.len() == 0 {
        0
    } else {
        entries_len(list.drop_last()) + 4 + byte_len(list.last())
    }
}

/// The number of bytes that a stored profile takes.
pub open spec fn profile_len(profile: ProfileView) -> nat {
    8 + profile.owner.len() + 4 + byte_len(profile.username) + 4 + byte_len(profile.bio) + 4
        + entries_len(profile.links)
}

/// The stored entries of a list take as many bytes as `entries_len` says.
pub proof fn lemma_entries_len(list: Seq<Seq<char>>)
    ensures
        encoded_entries(list).len() == entries_len(list),
    decreases list.len(),
{
    if list.len() > 0 {
        lemma_entries_len(list.drop_last());
    }
}

/// A stored profile takes as many bytes as `profile_len` says.
pub proof fn lemma_profile_len(profile: ProfileView)
    ensures
        encoded_profile(profile).len() == profile_len(profile),
{
    lemma_entries_len(profile.links);
}

/// The first entries of a list take no more bytes than the whole list, and
/// every entry takes at least its four bytes of length.
pub proof fn lemma_entries_len_grows(list: Seq<Seq<char>>, count: int)
    requires
        0 <= count <= list.len(),
    ensures
        entries_len(list.take(count)) <= entries_len(list),
        4 * list.len() <= entries_len(list),
    decreases list.len(),
{
    if list.len() > 0 {
        if count < list.len() {
            lemma_entries_len_grows(list.drop_last(), count);
            assert(list.drop_last().take(count) =~= list.take(count));
        } else {
            lemma_entries_len_grows(list.drop_last(), count - 1);
            assert(list.take(count) =~= list);
        }
    } else {
        assert(list.take(count) =~= list);
    }
}

/// Entries that respect the bound on a link take at most 132 bytes each.
pub proof fn lemma_entries_len_bounded(list: Seq<Seq<char>>)
    requires
        links_fit(list),
    ensures
        entries_len(list) <= list.len() * (4 + MAX_LINK_LEN),
    decreases list.len(),
{
    if list.len() > 0 {
        assert forall|i: int| 0 <= i < list.drop_last().len() implies byte_len(
            #[trigger] list.drop_last()[i],
        ) <= MAX_LINK_LEN by {
            assert(list.drop_last()[i] == list[i]);
        }
        lemma_entries_len_bounded(list.drop_last());
        assert(byte_len(list[list.len() - 1]) <= MAX_LINK_LEN);
    }
}

/// A profile whose fields respect their bounds fits the space reserved for
/// a profile, so an amendment never outgrows what creation allocated.
pub proof fn lemma_bounded_profile_fits(profile: ProfileView)
    requires
        profile.owner.len() == 32,
        profile.within_bounds(),
    ensures
        encoded_profile(profile).len() <= PROFILE_SPACE,
{
    lemma_profile_len(profile);
    lemma_entries_len_bounded(profile.links);
    assert(profile.links.len() * (4 + MAX_LINK_LEN) <= MAX_LINKS * (4 + MAX_LINK_LEN))
        by (nonlinear_arith)
        requires
            profile.links.len() <= MAX_LINKS,
    ;
}

/// A stored claim takes exactly the space reserved for a claim.
pub proof fn lemma_registry_fits(registry: RegistryView)
    requires
        registry.owner.len() == 32,
    ensures
        encoded_registry(registry).len() == USERNAME_REGISTRY_SPACE,
{
}

/// Appends `bytes` to `buffer`.
fn push_bytes(buffer: &mut Vec<u8>, bytes: &[u8])
    ensures
        final(buffer)@ == old(buffer)@ + bytes@,
{
    let mut i: usize = 0;
    while i < bytes.len()
        invariant
            i <= bytes.len(),
            buffer@ == old(buffer)@ + bytes@.take(i as int),
        decreases bytes.len() - i,
    {
        buffer.push(bytes[i]);
        assert(bytes@.take(i + 1) =~= bytes@.take(i as int).push(bytes@[i as int]));
        i += 1;
    }
    assert(bytes@.take(bytes.len() as int) =~= bytes@);
}

/// Appends `n` to `buffer` in four bytes, the lowest first.
fn push_u32(buffer: &mut Vec<u8>, n: u32)
    ensures
        final(buffer)@ == old(buffer)@ + le_u32(n),
{
    buffer.push((n % 256) as u8);
    buffer.push(((n / 256) % 256) as u8);
    buffer.push(((n / 65536) % 256) as u8);
    buffer.push(((n / 16777216) % 256) as u8);
    assert(buffer@ =~= old(buffer)@ + le_u32(n));
}

/// Appends `text` to `buffer` as stored, unless that would take the buffer
/// beyond `PROFILE_SPACE`.
fn push_text(buffer: &mut Vec<u8>, text: &str) -> (fits: bool)
    requires
        old(buffer).len() <= PROFILE_SPACE,
    ensures
        fits == (old(buffer).len() + 4 + byte_len(text@) <= PROFILE_SPACE),
        fits ==> final(buffer)@ == old(buffer)@ + encoded_text(text@),
        !fits ==> final(buffer)@ == old(buffer)@,
{
    let bytes = text.as_bytes();
    let room = PROFILE_SPACE - buffer.len();
    if room < 4 || bytes.len() > room - 4 {
        return false;
    }
    push_u32(buffer, bytes.len() as u32);
    push_bytes(buffer, bytes);
    assert(buffer@ =~= old(buffer)@ + encoded_text(text@));
    true
}

impl UserProfile {
    /// The profile as stored, or `None` where it would not fit the space
    /// reserved for a profile.
    pub fn serialize(&self) -> (stored: Option<Vec<u8>>)
        ensures
            match stored {
                Some(bytes) => bytes@ == encoded_profile(self@),
                None => true,
            },
            stored is Some <==> encoded_profile(self@).len() <= PROFILE_SPACE,
    {
        proof {
            lemma_profile_len(self@);
        }
        let mut buffer: Vec<u8> = Vec::new();
        push_bytes(&mut buffer, PROFILE_DISCRIMINATOR.as_slice());
        push_bytes(&mut buffer, self.owner.as_slice());
        if !push_text(&mut buffer, self.username.as_str()) {
            return None;
        }
        if !push_text(&mut buffer, self.bio.as_str()) {
            return None;
        }
        let count = self.links.len();
        proof {
            lemma_entries_len_grows(self@.links, 0);
        }
        if PROFILE_SPACE - buffer.len() < 4 || count > PROFILE_SPACE {
            return None;
        }
        push_u32(&mut buffer, count as u32);
        let ghost head = buffer@;
        assert(head =~= PROFILE_DISCRIMINATOR@ + self@.owner + encoded_text(self@.username)
            + encoded_text(self@.bio) + le_u32(self@.links.len() as u32));
        let mut i: usize = 0;
        while i < count
            invariant
                i <= count == self.links.len(),
                buffer.len() <= PROFILE_SPACE,
                buffer@ == head + encoded_entries(self@.links.take(i as int)),
                head.len() + entries_len(self@.links) == profile_len(self@),
                encoded_profile(self@).len() == profile_len(self@),
            decreases count - i,
        {
            let ghost taken = self@.links.take(i + 1);
            proof {
                assert(taken.drop_last() =~= self@.links.take(i as int));
                assert(taken.last() == self.links@[i as int]@);
                lemma_entries_len(self@.links.take(i as int));
                lemma_entries_len(taken);
                lemma_entries_len_grows(self@.links, i + 1);
                assert(entries_len(taken) == entries_len(taken.drop_last()) + 4 + byte_len(
                    taken.last(),
                ));
                assert(buffer@.len() == head.len() + entries_len(self@.links.take(i as int)));
            }
            if !push_text(&mut buffer, self.links[i].as_str()) {
                return None;
            }
            assert(buffer@ =~= head + encoded_entries(taken));
            i += 1;
        }
        assert(self@.links.take(count as int) =~= self@.links);
        Some(buffer)
    }
}

impl UsernameRegistry {
    /// The claim as stored.
    pub fn serialize(&self) -> (stored: Vec<u8>)
        ensures
            stored@ == encoded_registry(self@),
            stored.len() == USERNAME_REGISTRY_SPACE,
    {
        let mut buffer: Vec<u8> = Vec::new();
        push_bytes(&mut buffer, REGISTRY_DISCRIMINATOR.as_slice());
        push_bytes(&mut buffer, self.owner.as_slice());
        buffer
    }
}

} // verus!
