//! The store of records: every record lives at an address, no address holds
//! two records, and no record is ever removed.

use crate::address::{profile_address, profile_address_of, same_key, username_address};
use crate::error::ProfileError;
use crate::instructions::{
    create_profile, text_of, texts_of, update_profile, CreateProfile, UpdateProfile,
};
use crate::model::{
    create_at_state, create_at_verdict, create_state_for, create_verdict_for, holds_profile,
    update_at_state, update_at_verdict, update_state_for, update_verdict_for, RecordView,
};
use crate::records::{UserProfile, UsernameRegistry};
use crate::validation::{check_username, texts};
use vstd::prelude::*;

verus! {

/// A stored record of either kind.
pub enum Record {
    Profile(UserProfile),
    Registry(UsernameRegistry),
}

impl View for Record {
    type V = RecordView;

    open spec fn view(&self) -> RecordView {
        match self {
            Record::Profile(profile) => RecordView::Profile(profile@),
            Record::Registry(registry) => RecordView::Registry(registry@),
        }
    }
}

/// A record together with the address at which it lives.
struct Account {
    address: [u8; 32],
    record: Record,
}

/// No two accounts share an address.
spec fn distinct(accounts: Seq<Account>) -> bool {
    forall|i: int, j: int|
        0 <= i < j < accounts.len() ==> (#[trigger] accounts[i]).address@ != (
        #[trigger] accounts[j]).address@
}

/// Every stored profile respects the bounds on its fields.
spec fn bounded(accounts: Seq<Account>) -> bool {
    forall|i: int|
        0 <= i < accounts.len() ==> ((#[trigger] accounts[i]).record@ matches RecordView::Profile(
            profile,
        ) ==> profile.within_bounds())
}

/// Some account lives at `address`.
spec fn occupied(accounts: Seq<Account>, address: Seq<u8>) -> bool {
    exists|i: int| 0 <= i < accounts.len() && (#[trigger] accounts[i]).address@ == address
}

/// The position of an account that lives at `address`.
spec fn position(accounts: Seq<Account>, address: Seq<u8>) -> int {
    choose|i: int| 0 <= i < accounts.len() && (#[trigger] accounts[i]).address@ == address
}

/// The map from addresses to records that a list of accounts stands for.
spec fn contents(accounts: Seq<Account>) -> Map<Seq<u8>, RecordView> {
    Map::new(
        |address: Seq<u8>| occupied(accounts, address),
        |address: Seq<u8>| accounts[position(accounts, address)].record@,
    )
}

/// Where addresses are distinct, the contents hold at each account's
/// address that account's record.
proof fn lemma_account(accounts: Seq<Account>, i: int)
    requires
        distinct(accounts),
        0 <= i < accounts.len(),
    ensures
        contents(accounts).dom().contains(accounts[i].address@),
        contents(accounts)[accounts[i].address@] == accounts[i].record@,
{
    let address = accounts[i].address@;
    assert(occupied(accounts, address));
    let p = position(accounts, address);
    assert(p == i) by {
        if p < i {
            assert(accounts[p].address@ != accounts[i].address@);
        } else if i < p {
            assert(accounts[i].address@ != accounts[p].address@);
        }
    }
}

/// Adding an account at a free address adds its record to the contents.
proof fn lemma_push(accounts: Seq<Account>, account: Account)
    requires
        distinct(accounts),
        !occupied(accounts, account.address@),
    ensures
        distinct(accounts.push(account)),
        contents(accounts.push(account)) == contents(accounts).insert(
            account.address@,
            account.record@,
        ),
{
    let grown = accounts.push(account);
    assert forall|i: int, j: int| 0 <= i < j < grown.len() implies (#[trigger] grown[i]).address@
        != (#[trigger] grown[j]).address@ by {
        if j == accounts.len() {
            assert(accounts[i].address@ != account.address@);
        } else {
            assert(accounts[i].address@ != accounts[j].address@);
        }
    }
    let expected = contents(accounts).insert(account.address@, account.record@);
    assert forall|address: Seq<u8>| contents(grown).dom().contains(address)
        == expected.dom().contains(address) by {
        if occupied(grown, address) {
            let p = position(grown, address);
            if p < accounts.len() {
                assert(accounts[p].address@ == address);
            }
        }
        if occupied(accounts, address) {
            let p = position(accounts, address);
            assert(grown[p].address@ == address);
        }
        if address == account.address@ {
            assert(grown[accounts.len() as int].address@ == address);
        }
    }
    assert forall|address: Seq<u8>| contents(grown).dom().contains(address) implies contents(
        grown,
    )[address] == expected[address] by {
        let p = position(grown, address);
        lemma_account(grown, p);
        if p < accounts.len() {
            lemma_account(accounts, p);
        }
    }
    assert(contents(grown) =~= expected);
}

/// Putting another record at an account's address replaces that record in
/// the contents.
proof fn lemma_replace(accounts: Seq<Account>, i: int, account: Account)
    requires
        distinct(accounts),
        0 <= i < accounts.len(),
        account.address@ == accounts[i].address@,
    ensures
        distinct(accounts.update(i, account)),
        contents(accounts.update(i, account)) == contents(accounts).insert(
            account.address@,
            account.record@,
        ),
{
    let changed = accounts.update(i, account);
    assert forall|a: int, b: int| 0 <= a < b < changed.len() implies (#[trigger] changed[a]).address@
        != (#[trigger] changed[b]).address@ by {
        assert(accounts[a].address@ != accounts[b].address@);
    }
    let expected = contents(accounts).insert(account.address@, account.record@);
    assert forall|address: Seq<u8>| contents(changed).dom().contains(address)
        == expected.dom().contains(address) by {
        if occupied(changed, address) {
            let p = position(changed, address);
            assert(accounts[p].address@ == address);
        }
        if occupied(accounts, address) {
            let p = position(accounts, address);
            assert(changed[p].address@ == address);
        }
    }
    assert forall|address: Seq<u8>| contents(changed).dom().contains(address) implies contents(
        changed,
    )[address] == expected[address] by {
        let p = position(changed, address);
        lemma_account(changed, p);
        lemma_account(accounts, p);
    }
    assert(contents(changed) =~= expected);
}

/// The store of all records.
pub struct Ledger {
    accounts: Vec<Account>,
}

impl View for Ledger {
    type V = Map<Seq<u8>, RecordView>;

    closed spec fn view(&self) -> Map<Seq<u8>, RecordView> {
        contents(self.accounts@)
    }
}

impl Ledger {
    #[verifier::type_invariant]
    spec fn well_formed(self) -> bool {
        distinct(self.accounts@) && bounded(self.accounts@)
    }

    /// A store without records.
    pub fn new() -> (ledger: Ledger)
        ensures
            ledger@ == Map::<Seq<u8>, RecordView>::empty(),
    {
        let ledger = Ledger { accounts: Vec::new() };
        assert(ledger@ =~= Map::<Seq<u8>, RecordView>::empty());
        ledger
    }

    /// Moves the accounts out, leaving none behind.
    fn take_accounts(&mut self) -> (accounts: Vec<Account>)
        ensures
            accounts == old(self).accounts,
            final(self).accounts@ == Seq::<Account>::empty(),
    {
        let mut accounts: Vec<Account> = Vec::new();
        core::mem::swap(&mut self.accounts, &mut accounts);
        accounts
    }

    /// The position of the account at `address`, if there is one.
    fn find(&self, address: &[u8; 32]) -> (found: Option<usize>)
        ensures
            match found {
                Some(i) => i < self.accounts.len() && self.accounts[i as int].address@ == address@,
                None => !occupied(self.accounts@, address@),
            },
    {
        let mut i: usize = 0;
        while i < self.accounts.len()
            invariant
                i <= self.accounts.len(),
                forall|j: int| 0 <= j < i ==> (#[trigger] self.accounts[j]).address@ != address@,
            decreases self.accounts.len() - i,
        {
            if same_key(&self.accounts[i].address, address) {
                return Some(i);
            }
            i += 1;
        }
        None
    }

    /// Whether a record lives at `address`.
    pub fn is_allocated(&self, address: &[u8; 32]) -> (allocated: bool)
        ensures
            allocated == self@.dom().contains(address@),
    {
        self.find(address).is_some()
    }

    /// The record at `address`, if there is one. A profile that is stored
    /// respects the bounds on its fields.
    pub fn record_at(&self, address: &[u8; 32]) -> (found: Option<&Record>)
        ensures
            match found {
                Some(record) => self@.dom().contains(address@) && self@[address@] == record@,
                None => !self@.dom().contains(address@),
            },
            found matches Some(Record::Profile(profile)) ==> profile@.within_bounds(),
    {
        match self.find(address) {
            Some(i) => {
                proof {
                    use_type_invariant(self);
                    lemma_account(self.accounts@, i as int);
                }
                Some(&self.accounts[i].record)
            },
            None => None,
        }
    }

    /// The profile at `address`, if a profile lives there. A profile that
    /// is stored respects the bounds on its fields.
    pub fn profile_at(&self, address: &[u8; 32]) -> (found: Option<&UserProfile>)
        ensures
            match found {
                Some(profile) => holds_profile(self@, address@) && self@[address@]
                    == RecordView::Profile(profile@) && profile@.within_bounds(),
                None => !holds_profile(self@, address@),
            },
    {
        match self.record_at(address) {
            Some(Record::Profile(profile)) => Some(profile),
            _ => None,
        }
    }

    /// The claim at `address`, if a claim lives there.
    pub fn registry_at(&self, address: &[u8; 32]) -> (found: Option<&UsernameRegistry>)
        ensures
            match found {
                Some(registry) => self@.dom().contains(address@) && self@[address@]
                    == RecordView::Registry(registry@),
                None => !(self@.dom().contains(address@) && self@[address@] is Registry),
            },
    {
        match self.record_at(address) {
            Some(Record::Registry(registry)) => Some(registry),
            _ => None,
        }
    }

    /// The profile of `owner`, found at the address derived from the
    /// owner's key, without any search.
    pub fn profile_of(&self, owner: &[u8; 32]) -> (found: Option<&UserProfile>)
        ensures
            match found {
                Some(profile) => profile_address_of(owner@) matches Some((address, _))
                    && holds_profile(self@, address) && self@[address] == RecordView::Profile(
                    profile@,
                ) && profile@.within_bounds(),
                None => profile_address_of(owner@) matches Some((address, _)) ==> !holds_profile(
                    self@,
                    address,
                ),
            },
    {
        match profile_address(owner) {
            Some((address, _)) => self.profile_at(&address),
            None => None,
        }
    }

    /// Creates the profile of `user` at `profile_address` and the claim on
    /// `username` at `registry_address`, or rejects the call and changes
    /// nothing.
    pub fn create_at(
        &mut self,
        profile_address: &[u8; 32],
        registry_address: &[u8; 32],
        user: [u8; 32],
        username: String,
        bio: String,
        links: Vec<String>,
    ) -> (outcome: Result<(), ProfileError>)
        ensures
            outcome == create_at_verdict(
                old(self)@,
                profile_address@,
                registry_address@,
                username@,
                bio@,
                texts(links@),
            ),
            final(self)@ == create_at_state(
                old(self)@,
                profile_address@,
                registry_address@,
                user@,
                username@,
                bio@,
                texts(links@),
            ),
    {
        proof {
            use_type_invariant(&*self);
        }
        if self.find(profile_address).is_some() {
            return Err(ProfileError::AddressCollision);
        }
        check_username(username.as_str())?;
        if same_key(registry_address, profile_address) || self.find(registry_address).is_some() {
            return Err(ProfileError::AddressCollision);
        }
        let mut ctx = CreateProfile {
            user,
            profile: UserProfile::empty(),
            username_registry: UsernameRegistry::empty(),
        };
        create_profile(&mut ctx, username, bio, links)?;

        let CreateProfile { user: _, profile, username_registry } = ctx;
        let profile_account = Account { address: *profile_address, record: Record::Profile(profile) };
        let registry_account = Account {
            address: *registry_address,
            record: Record::Registry(username_registry),
        };
        proof {
            lemma_push(self.accounts@, profile_account);
            let grown = self.accounts@.push(profile_account);
            assert(!occupied(grown, registry_address@)) by {
                if occupied(grown, registry_address@) {
                    let p = position(grown, registry_address@);
                    if p < self.accounts@.len() {
                        assert(self.accounts@[p].address@ == registry_address@);
                    }
                }
            }
            lemma_push(grown, registry_account);
        }
        let mut accounts = self.take_accounts();
        accounts.push(profile_account);
        accounts.push(registry_account);
        self.accounts = accounts;
        Ok(())
    }

    /// Amends the profile at `profile_address` on behalf of `user`. Answers
    /// `None`, and changes nothing, where no profile lives there; a rejected
    /// amendment changes nothing either.
    pub fn update_at(
        &mut self,
        profile_address: &[u8; 32],
        user: [u8; 32],
        bio: Option<String>,
        links: Option<Vec<String>>,
    ) -> (outcome: Option<Result<(), ProfileError>>)
        ensures
            outcome == update_at_verdict(
                old(self)@,
                profile_address@,
                user@,
                text_of(bio),
                texts_of(links),
            ),
            final(self)@ == update_at_state(
                old(self)@,
                profile_address@,
                user@,
                text_of(bio),
                texts_of(links),
            ),
    {
        proof {
            use_type_invariant(&*self);
        }
        let i = match self.find(profile_address) {
            Some(i) => i,
            None => {
                return None;
            },
        };
        proof {
            lemma_account(self.accounts@, i as int);
        }
        let ghost before = self.accounts@;
        let mut accounts = self.take_accounts();
        let Account { address, record } = accounts.remove(i);
        let (outcome, record) = match record {
            Record::Profile(profile) => {
                let mut ctx = UpdateProfile { user, profile };
                let outcome = update_profile(&mut ctx, bio, links);
                (Some(outcome), Record::Profile(ctx.profile))
            },
            Record::Registry(registry) => (None, Record::Registry(registry)),
        };
        let account = Account { address, record };
        proof {
            lemma_replace(before, i as int, account);
            assert(before.remove(i as int).insert(i as int, account) =~= before.update(
                i as int,
                account,
            ));
            if outcome != Some(Ok::<(), ProfileError>(())) {
                assert(account.record@ == before[i as int].record@);
                assert(contents(before).insert(account.address@, account.record@) =~= contents(
                    before,
                ));
            }
        }
        accounts.insert(i, account);
        self.accounts = accounts;
        outcome
    }

    /// Creates the profile of `user` under `username`, with both addresses
    /// derived. Answers `None`, and changes nothing, where an address that
    /// the answer depends on cannot be derived.
    pub fn create(
        &mut self,
        user: [u8; 32],
        username: String,
        bio: String,
        links: Vec<String>,
    ) -> (outcome: Option<Result<(), ProfileError>>)
        ensures
            outcome == create_verdict_for(old(self)@, user@, username@, bio@, texts(links@)),
            final(self)@ == create_state_for(old(self)@, user@, username@, bio@, texts(links@)),
    {
        let profile_address = match profile_address(&user) {
            Some((address, _)) => address,
            None => {
                return None;
            },
        };
        if self.is_allocated(&profile_address) {
            return Some(Err(ProfileError::AddressCollision));
        }
        if let Err(error) = check_username(username.as_str()) {
            return Some(Err(error));
        }
        let registry_address = match username_address(username.as_str()) {
            Some((address, _)) => address,
            None => {
                return None;
            },
        };
        Some(self.create_at(&profile_address, &registry_address, user, username, bio, links))
    }

    /// Amends the profile of `user`, found at the address derived from the
    /// user's own key. Answers `None`, and changes nothing, where that
    /// address cannot be derived or holds no profile.
    pub fn update(&mut self, user: [u8; 32], bio: Option<String>, links: Option<Vec<String>>) -> (outcome:
        Option<Result<(), ProfileError>>)
        ensures
            outcome == update_verdict_for(old(self)@, user@, text_of(bio), texts_of(links)),
            final(self)@ == update_state_for(old(self)@, user@, text_of(bio), texts_of(links)),
    {
        match profile_address(&user) {
            Some((address, _)) => self.update_at(&address, user, bio, links),
            None => None,
        }
    }
}

} // verus!
