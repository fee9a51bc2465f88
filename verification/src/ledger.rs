//! The executable ledger and the two escrow operations.
//!
//! The ledger holds the registered mints, the holding accounts and the
//! live offer records. Each operation is proved to refine the pure
//! transition of the same name in [`crate::model`], and to reject — with
//! the ledger unchanged — exactly when that transition rejects.

use vstd::prelude::*;
use vstd::pervasive::VecAdditionalExecFns;
use crate::addr::Address;
use crate::errors::EscrowError;
use crate::state::{MintInfo, Offer, OfferEntry, TokenAccount};
use crate::model::{
    account_map, accounts_unique, acct_key, lemma_account_map_contains, lemma_account_map_index,
    lemma_account_map_push, lemma_account_map_remove, lemma_account_map_update,
    lemma_mint_map_contains, lemma_mint_map_index, lemma_mint_map_push, lemma_offer_map_contains,
    lemma_offer_map_index, lemma_offer_map_push, lemma_offer_map_remove, mint_map, mints_unique,
    offer_entry_ok, offer_map, offers_unique, spec_make_offer, spec_mint_to, spec_register_mint,
    spec_take_offer, spec_transfer, spec_transfer_checked, LedgerModel,
};
use crate::pda::{
    check_offer_address, create_pda_of, derive_offer_address, offer_seeds, spec_program_id,
};

verus! {

/// An element-for-element copy of a sequence of holding accounts.
fn copy_accounts(v: &Vec<TokenAccount>) -> (r: Vec<TokenAccount>)
    ensures
        r@ == v@,
{
    let mut r: Vec<TokenAccount> = Vec::new();
    let n = v.len();
    let mut i: usize = 0;
    while i < n
        invariant
            i <= n,
            n == v@.len(),
            r@ == v@.take(i as int),
        decreases n - i,
    {
        r.push(v[i]);
        assert(r@ =~= v@.take(i + 1));
        i += 1;
    }
    assert(r@ =~= v@);
    r
}

/// The inputs of offer creation: the maker (a verified signer of the
/// request), a caller-chosen id, the two asset identities, and the amounts
/// offered and wanted.
pub struct MakeOffer {
    pub maker: Address,
    pub id: u64,
    pub token_mint_a: Address,
    pub token_mint_b: Address,
    pub token_a_offered_amount: u64,
    pub token_b_wanted_amount: u64,
}

/// The inputs of offer settlement: the taker (a verified signer), the
/// maker the offer is expected to name, and the caller-supplied address of
/// the offer record, verified by re-derivation.
pub struct TakeOffer {
    pub taker: Address,
    pub maker: Address,
    pub offer: Address,
}

/// The persistent record store.
pub struct Ledger {
    pub mints: Vec<MintInfo>,
    pub accounts: Vec<TokenAccount>,
    pub offers: Vec<OfferEntry>,
}

impl View for Ledger {
    type V = LedgerModel;

    open spec fn view(&self) -> LedgerModel {
        LedgerModel {
            mints: mint_map(self.mints@),
            balances: account_map(self.accounts@),
            offers: offer_map(self.offers@),
        }
    }
}

impl Ledger {
    /// Well-formedness: keys are unique, and every live offer re-derives
    /// its own address, has its custody account, and names registered
    /// assets.
    pub open spec fn wf(&self) -> bool {
        &&& mints_unique(self.mints@)
        &&& accounts_unique(self.accounts@)
        &&& offers_unique(self.offers@)
        &&& forall|i: int| 0 <= i < self.offers@.len() ==> offer_entry_ok(#[trigger] self.offers@[i], self@)
    }

    /// An empty ledger: no mints, no accounts, no offers.
    pub fn initialize() -> (r: Ledger)
        ensures
            r.wf(),
            r@ == (LedgerModel {
                mints: Map::<Seq<u8>, u8>::empty(),
                balances: Map::<(Seq<u8>, Seq<u8>), u64>::empty(),
                offers: Map::<Seq<u8>, crate::state::OfferModel>::empty(),
            }),
    {
        Ledger { mints: Vec::new(), accounts: Vec::new(), offers: Vec::new() }
    }

    /// Find the index of the mint record of `mint`.
    fn find_mint(&self, mint: &Address) -> (r: Option<usize>)
        requires
            mints_unique(self.mints@),
        ensures
            match r {
                Some(i) => {
                    &&& i < self.mints@.len()
                    &&& self.mints@[i as int].address@ == mint@
                    &&& self@.mints.contains_key(mint@)
                    &&& self@.mints[mint@] == self.mints@[i as int].decimals
                },
                None => !self@.mints.contains_key(mint@),
            },
    {
        let n = self.mints.len();
        let mut i: usize = 0;
        while i < n
            invariant
                n == self.mints@.len(),
                i <= n,
                mints_unique(self.mints@),
                forall|j: int| 0 <= j < i ==> self.mints@[j].address@ != mint@,
            decreases n - i,
        {
            if self.mints[i].address.eq_address(mint) {
                proof {
                    lemma_mint_map_index(self.mints@, i as int);
                }
                return Some(i);
            }
            i += 1;
        }
        proof {
            lemma_mint_map_contains(self.mints@, mint@);
        }
        None
    }

    /// Find the index of the holding account of `(owner, mint)`.
    fn find_account(&self, owner: &Address, mint: &Address) -> (r: Option<usize>)
        requires
            accounts_unique(self.accounts@),
        ensures
            match r {
                Some(i) => {
                    &&& i < self.accounts@.len()
                    &&& acct_key(self.accounts@[i as int]) == (owner@, mint@)
                    &&& self@.balances.contains_key((owner@, mint@))
                    &&& self@.balances[(owner@, mint@)] == self.accounts@[i as int].amount
                },
                None => !self@.balances.contains_key((owner@, mint@)),
            },
    {
        let n = self.accounts.len();
        let mut i: usize = 0;
        while i < n
            invariant
                n == self.accounts@.len(),
                i <= n,
                accounts_unique(self.accounts@),
                forall|j: int| 0 <= j < i ==> acct_key(self.accounts@[j]) != (owner@, mint@),
            decreases n - i,
        {
            if self.accounts[i].owner.eq_address(owner) && self.accounts[i].mint.eq_address(mint) {
                proof {
                    lemma_account_map_index(self.accounts@, i as int);
                }
                return Some(i);
            }
            i += 1;
        }
        proof {
            lemma_account_map_contains(self.accounts@, (owner@, mint@));
        }
        None
    }

    /// Find the index of the live offer entry at `address`.
    fn find_offer_index(&self, address: &Address) -> (r: Option<usize>)
        requires
            offers_unique(self.offers@),
        ensures
            match r {
                Some(i) => {
                    &&& i < self.offers@.len()
                    &&& self.offers@[i as int].address@ == address@
                    &&& self@.offers.contains_key(address@)
                    &&& self@.offers[address@] == self.offers@[i as int].offer@
                },
                None => !self@.offers.contains_key(address@),
            },
    {
        let n = self.offers.len();
        let mut i: usize = 0;
        while i < n
            invariant
                n == self.offers@.len(),
                i <= n,
                offers_unique(self.offers@),
                forall|j: int| 0 <= j < i ==> self.offers@[j].address@ != address@,
            decreases n - i,
        {
            if self.offers[i].address.eq_address(address) {
                proof {
                    lemma_offer_map_index(self.offers@, i as int);
                }
                return Some(i);
            }
            i += 1;
        }
        proof {
            lemma_offer_map_contains(self.offers@, address@);
        }
        None
    }

    /// Move `amount` of `mint` from `from` to `to`, creating the
    /// receiving account when absent. Rejects, mutating nothing, exactly
    /// when [`spec_transfer`] rejects.
    fn transfer(&mut self, from: &Address, to: &Address, mint: &Address, amount: u64) -> (r:
        Result<(), EscrowError>)
        requires
            accounts_unique(old(self).accounts@),
        ensures
            accounts_unique(final(self).accounts@),
            final(self).mints == old(self).mints,
            final(self).offers == old(self).offers,
            match r {
                Ok(_) => (spec_transfer(
                    account_map(old(self).accounts@),
                    from@,
                    to@,
                    mint@,
                    amount,
                ) matches Ok(b) && account_map(final(self).accounts@) == b),
                Err(e) => (spec_transfer(
                    account_map(old(self).accounts@),
                    from@,
                    to@,
                    mint@,
                    amount,
                ) matches Err(e2) && e2 == e) && final(self).accounts == old(self).accounts,
            },
    {
        let ghost s0 = self.accounts@;
        let ghost m0 = account_map(s0);
        let ghost fk = (from@, mint@);
        let ghost tk = (to@, mint@);
        let fi = match self.find_account(from, mint) {
            Some(i) => i,
            None => {
                return Err(EscrowError::MissingAccount);
            },
        };
        let from_bal = self.accounts[fi].amount;
        if from_bal < amount {
            return Err(EscrowError::InsufficientBalance);
        }
        let ti_opt = self.find_account(to, mint);
        if let Some(ti) = ti_opt {
            if ti != fi && self.accounts[ti].amount > u64::MAX - amount {
                proof {
                    assert(acct_key(s0[ti as int]) == tk);
                    assert(acct_key(s0[fi as int]) == fk);
                    assert(tk != fk);
                }
                return Err(EscrowError::Overflow);
            }
        }
        let debited = TokenAccount {
            owner: self.accounts[fi].owner,
            mint: self.accounts[fi].mint,
            amount: from_bal - amount,
        };
        proof {
            assert(acct_key(debited) == fk);
            lemma_account_map_update(s0, fi as int, debited);
        }
        self.accounts.set(fi, debited);
        let ghost s1 = self.accounts@;
        let ghost b1 = m0.insert(fk, (from_bal - amount) as u64);
        assert(account_map(s1) == b1);
        match ti_opt {
            Some(ti) => {
                proof {
                    assert(acct_key(s1[ti as int]) == tk);
                    if ti != fi {
                        assert(tk != fk);
                        assert(s1[ti as int] == s0[ti as int]);
                    }
                }
                let cur = self.accounts[ti].amount;
                assert(cur == b1[tk]);
                let credited = TokenAccount {
                    owner: self.accounts[ti].owner,
                    mint: self.accounts[ti].mint,
                    amount: cur + amount,
                };
                proof {
                    lemma_account_map_update(s1, ti as int, credited);
                }
                self.accounts.set(ti, credited);
            },
            None => {
                proof {
                    assert(!m0.contains_key(tk));
                    assert(tk != fk);
                    assert(!b1.contains_key(tk));
                }
                let fresh = TokenAccount { owner: *to, mint: *mint, amount: amount };
                proof {
                    assert(acct_key(fresh) == tk);
                    lemma_account_map_push(s1, fresh);
                }
                self.accounts.push(fresh);
            },
        }
        Ok(())
    }

    /// Register a new asset type under its identity and declared decimal
    /// precision. Rejects when the identity is already registered.
    pub fn register_mint(&mut self, mint: &Address, decimals: u8) -> (r: Result<(), EscrowError>)
        requires
            old(self).wf(),
        ensures
            final(self).wf(),
            match r {
                Ok(_) => (spec_register_mint(old(self)@, mint@, decimals) matches Ok(m2) && final(self)@
                    == m2),
                Err(e) => (spec_register_mint(old(self)@, mint@, decimals) matches Err(e2) && e2
                    == e) && final(self)@ == old(self)@,
            },
    {
        match self.find_mint(mint) {
            Some(_) => Err(EscrowError::AlreadyExists),
            None => {
                let info = MintInfo { address: *mint, decimals: decimals };
                proof {
                    lemma_mint_map_push(self.mints@, info);
                }
                self.mints.push(info);
                proof {
                    assert forall|i: int| 0 <= i < self.offers@.len() implies offer_entry_ok(
                        #[trigger] self.offers@[i],
                        self@,
                    ) by {
                        assert(offer_entry_ok(self.offers@[i], old(self)@));
                    }
                    assert(self@ =~= (spec_register_mint(old(self)@, mint@, decimals)->Ok_0));
                }
                Ok(())
            },
        }
    }

    /// Issue `amount` of `mint` to `owner`, creating the holding account
    /// when absent. Rejects on an unregistered asset or an overflowing
    /// balance.
    pub fn mint_to(&mut self, owner: &Address, mint: &Address, amount: u64) -> (r: Result<
        (),
        EscrowError,
    >)
        requires
            old(self).wf(),
        ensures
            final(self).wf(),
            match r {
                Ok(_) => (spec_mint_to(old(self)@, owner@, mint@, amount) matches Ok(m2) && final(self)@
                    == m2),
                Err(e) => (spec_mint_to(old(self)@, owner@, mint@, amount) matches Err(e2) && e2
                    == e) && final(self)@ == old(self)@,
            },
    {
        if self.find_mint(mint).is_none() {
            return Err(EscrowError::UnknownMint);
        }
        let ghost s0 = self.accounts@;
        match self.find_account(owner, mint) {
            None => {
                let fresh = TokenAccount { owner: *owner, mint: *mint, amount: amount };
                proof {
                    assert(acct_key(fresh) == (owner@, mint@));
                    lemma_account_map_push(s0, fresh);
                }
                self.accounts.push(fresh);
                proof {
                    assert forall|i: int| 0 <= i < self.offers@.len() implies offer_entry_ok(
                        #[trigger] self.offers@[i],
                        self@,
                    ) by {
                        assert(offer_entry_ok(self.offers@[i], old(self)@));
                    }
                    assert(self@ =~= (spec_mint_to(old(self)@, owner@, mint@, amount)->Ok_0));
                }
                Ok(())
            },
            Some(i) => {
                let cur = self.accounts[i].amount;
                if cur > u64::MAX - amount {
                    return Err(EscrowError::Overflow);
                }
                let credited = TokenAccount {
                    owner: self.accounts[i].owner,
                    mint: self.accounts[i].mint,
                    amount: cur + amount,
                };
                proof {
                    assert(acct_key(credited) == (owner@, mint@));
                    lemma_account_map_update(s0, i as int, credited);
                }
                self.accounts.set(i, credited);
                proof {
                    assert forall|i2: int| 0 <= i2 < self.offers@.len() implies offer_entry_ok(
                        #[trigger] self.offers@[i2],
                        self@,
                    ) by {
                        assert(offer_entry_ok(self.offers@[i2], old(self)@));
                    }
                    assert(self@ =~= (spec_mint_to(old(self)@, owner@, mint@, amount)->Ok_0));
                }
                Ok(())
            },
        }
    }

    /// The deposit leg of offer creation, and the library's checked
    /// transfer: validates the asset and its declared decimals, then moves
    /// `amount` of `mint` from `from` to `to`.
    pub fn send_tokens_to_vault(
        &mut self,
        from: &Address,
        to: &Address,
        mint: &Address,
        amount: u64,
        decimals: u8,
    ) -> (r: Result<(), EscrowError>)
        requires
            old(self).wf(),
        ensures
            final(self).wf(),
            final(self).mints == old(self).mints,
            final(self).offers == old(self).offers,
            match r {
                Ok(_) => (spec_transfer_checked(old(self)@, from@, to@, mint@, amount, decimals)
                    matches Ok(m2) && final(self)@ == m2),
                Err(e) => (spec_transfer_checked(old(self)@, from@, to@, mint@, amount, decimals)
                    matches Err(e2) && e2 == e) && final(self)@ == old(self)@,
            },
    {
        let di = match self.find_mint(mint) {
            Some(i) => i,
            None => {
                return Err(EscrowError::UnknownMint);
            },
        };
        if self.mints[di].decimals != decimals {
            return Err(EscrowError::DecimalsMismatch);
        }
        match self.transfer(from, to, mint, amount) {
            Ok(_) => {
                proof {
                    assert forall|i: int| 0 <= i < self.offers@.len() implies offer_entry_ok(
                        #[trigger] self.offers@[i],
                        self@,
                    ) by {
                        assert(offer_entry_ok(self.offers@[i], old(self)@));
                    }
                    assert(self@ =~= (spec_transfer_checked(
                        old(self)@,
                        from@,
                        to@,
                        mint@,
                        amount,
                        decimals,
                    )->Ok_0));
                }
                Ok(())
            },
            Err(e) => Err(e),
        }
    }

    /// Offer creation: derive the record's address from `(maker, id)`,
    /// reject when the record or its custody account already exists, move
    /// the offered amount of asset A from the maker into custody, and
    /// write the record. Returns the record's derived address.
    pub fn make_offer(&mut self, args: &MakeOffer) -> (r: Result<Address, EscrowError>)
        requires
            old(self).wf(),
        ensures
            final(self).wf(),
            match r {
                Ok(a) => (spec_make_offer(
                    old(self)@,
                    args.maker@,
                    args.id,
                    args.token_mint_a@,
                    args.token_mint_b@,
                    args.token_a_offered_amount,
                    args.token_b_wanted_amount,
                ) matches Ok(t) && final(self)@ == t.0 && a@ == t.1),
                Err(e) => (spec_make_offer(
                    old(self)@,
                    args.maker@,
                    args.id,
                    args.token_mint_a@,
                    args.token_mint_b@,
                    args.token_a_offered_amount,
                    args.token_b_wanted_amount,
                ) matches Err(e2) && e2 == e) && final(self)@ == old(self)@,
            },
            // A created record carries exactly the submitted terms, and its
            // address re-derives from its own seeds and stored bump.
            (match r {
                Ok(a) => {
                    &&& final(self)@.offers.contains_key(a@)
                    &&& final(self)@.offers[a@].id == args.id
                    &&& final(self)@.offers[a@].maker == args.maker@
                    &&& final(self)@.offers[a@].token_mint_a == args.token_mint_a@
                    &&& final(self)@.offers[a@].token_mint_b == args.token_mint_b@
                    &&& final(self)@.offers[a@].token_b_wanted_amount == args.token_b_wanted_amount
                    &&& create_pda_of(
                        offer_seeds(args.maker@, args.id).push(seq![final(self)@.offers[a@].bump]),
                        spec_program_id(),
                    ) == Some(a@)
                },
                Err(_) => true,
            }),
            // On creation the custody account holds exactly the offered
            // amount, taken from the maker's own holding.
            (match r {
                Ok(a) => args.maker@ != a@ ==> {
                    &&& final(self)@.balances[(a@, args.token_mint_a@)]
                        == args.token_a_offered_amount
                    &&& old(self)@.balances.contains_key((args.maker@, args.token_mint_a@))
                    &&& final(self)@.balances[(args.maker@, args.token_mint_a@)] == old(
                        self,
                    )@.balances[(args.maker@, args.token_mint_a@)] - args.token_a_offered_amount
                },
                Err(_) => true,
            }),
    {
        if args.token_a_offered_amount == 0 || args.token_b_wanted_amount == 0 {
            return Err(EscrowError::InvalidAmount);
        }
        let da = match self.find_mint(&args.token_mint_a) {
            Some(i) => i,
            None => {
                return Err(EscrowError::UnknownMint);
            },
        };
        let decimals_a = self.mints[da].decimals;
        if self.find_mint(&args.token_mint_b).is_none() {
            return Err(EscrowError::UnknownMint);
        }
        let ab = match derive_offer_address(&args.maker, args.id) {
            Some(ab) => ab,
            None => {
                return Err(EscrowError::DerivationFailed);
            },
        };
        let offer_addr = ab.0;
        let bump = ab.1;
        if self.find_offer_index(&offer_addr).is_some() {
            return Err(EscrowError::AlreadyExists);
        }
        if self.find_account(&offer_addr, &args.token_mint_a).is_some() {
            return Err(EscrowError::AlreadyExists);
        }
        match self.send_tokens_to_vault(
            &args.maker,
            &offer_addr,
            &args.token_mint_a,
            args.token_a_offered_amount,
            decimals_a,
        ) {
            Err(e) => {
                return Err(e);
            },
            Ok(_) => {},
        }
        let offer = Offer {
            id: args.id,
            maker: args.maker,
            token_mint_a: args.token_mint_a,
            token_mint_b: args.token_mint_b,
            token_b_wanted_amount: args.token_b_wanted_amount,
            bump: bump,
        };
        let entry = OfferEntry { address: offer_addr, offer: offer };
        proof {
            lemma_offer_map_push(self.offers@, entry);
        }
        self.offers.push(entry);
        proof {
            assert forall|i: int| 0 <= i < self.offers@.len() implies offer_entry_ok(
                #[trigger] self.offers@[i],
                self@,
            ) by {
                if i < self.offers@.len() - 1 {
                    assert(self.offers@[i] == old(self).offers@[i]);
                    assert(offer_entry_ok(old(self).offers@[i], old(self)@));
                }
            }
            assert(self@ =~= (spec_make_offer(
                old(self)@,
                args.maker@,
                args.id,
                args.token_mint_a@,
                args.token_mint_b@,
                args.token_a_offered_amount,
                args.token_b_wanted_amount,
            )->Ok_0).0);
        }
        Ok(offer_addr)
    }

    /// Offer settlement: verify the supplied record by re-derivation, move
    /// the wanted amount of asset B from the taker to the maker and the
    /// full custodied amount of asset A from the vault to the taker, and
    /// destroy the vault and the record in the same step.
    pub fn take_offer(&mut self, args: &TakeOffer) -> (r: Result<(), EscrowError>)
        requires
            old(self).wf(),
        ensures
            final(self).wf(),
            match r {
                Ok(_) => (spec_take_offer(old(self)@, args.taker@, args.maker@, args.offer@)
                    matches Ok(m2) && final(self)@ == m2),
                Err(e) => (spec_take_offer(old(self)@, args.taker@, args.maker@, args.offer@)
                    matches Err(e2) && e2 == e) && final(self)@ == old(self)@,
            },
            // Settlement succeeds only against a genuine record: one that
            // was live, named this maker, and whose supplied address
            // re-derives from the record's own seeds and stored bump; it
            // destroys both the record and its custody account.
            (r is Ok ==> {
                &&& old(self)@.offers.contains_key(args.offer@)
                &&& old(self)@.offers[args.offer@].maker == args.maker@
                &&& create_pda_of(
                    offer_seeds(args.maker@, old(self)@.offers[args.offer@].id).push(
                        seq![old(self)@.offers[args.offer@].bump],
                    ),
                    spec_program_id(),
                ) == Some(args.offer@)
                &&& !final(self)@.offers.contains_key(args.offer@)
                &&& !final(self)@.balances.contains_key(
                    (args.offer@, old(self)@.offers[args.offer@].token_mint_a),
                )
            }),
            // With distinct parties and assets, settlement pays the maker
            // exactly the wanted amount of asset B and the taker exactly
            // the custodied amount of asset A.
            (({
                let o = old(self)@.offers[args.offer@];
                let wanted = o.token_b_wanted_amount;
                let custody = old(self)@.balances[(args.offer@, o.token_mint_a)];
                (r is Ok && args.taker@ != args.maker@ && o.token_mint_a != o.token_mint_b
                    && args.taker@ != args.offer@ && args.maker@ != args.offer@) ==> {
                    &&& final(self)@.balances[(args.taker@, o.token_mint_b)] == old(
                        self,
                    )@.balances[(args.taker@, o.token_mint_b)] - wanted
                    &&& final(self)@.balances[(args.maker@, o.token_mint_b)] == (
                    if old(self)@.balances.contains_key((args.maker@, o.token_mint_b)) {
                        old(self)@.balances[(args.maker@, o.token_mint_b)] + wanted
                    } else {
                        wanted as int
                    })
                    &&& final(self)@.balances[(args.taker@, o.token_mint_a)] == (
                    if old(self)@.balances.contains_key((args.taker@, o.token_mint_a)) {
                        old(self)@.balances[(args.taker@, o.token_mint_a)] + custody
                    } else {
                        custody as int
                    })
                }
            })),
            // If the taker cannot pay the wanted amount, the whole
            // operation is rejected and nothing moves.
            (({
                let o = old(self)@.offers[args.offer@];
                (old(self)@.offers.contains_key(args.offer@) && (!old(self)@.balances.contains_key(
                    (args.taker@, o.token_mint_b),
                ) || old(self)@.balances[(args.taker@, o.token_mint_b)]
                    < o.token_b_wanted_amount)) ==> (r is Err && final(self)@ == old(self)@)
            })),
    {
        let oi = match self.find_offer_index(&args.offer) {
            Some(i) => i,
            None => {
                return Err(EscrowError::NotFound);
            },
        };
        let offer = self.offers[oi].offer;
        if !offer.maker.eq_address(&args.maker) {
            return Err(EscrowError::MakerMismatch);
        }
        if !check_offer_address(&args.maker, offer.id, offer.bump, &args.offer) {
            return Err(EscrowError::InvalidOfferAddress);
        }
        let vi = match self.find_account(&args.offer, &offer.token_mint_a) {
            Some(i) => i,
            None => {
                return Err(EscrowError::MissingAccount);
            },
        };
        let custody = self.accounts[vi].amount;
        let ghost b0 = old(self)@.balances;
        let ghost vault_key = (args.offer@, offer.token_mint_a@);
        let saved = copy_accounts(&self.accounts);
        match self.transfer(&args.taker, &args.maker, &offer.token_mint_b, offer.token_b_wanted_amount) {
            Err(e) => {
                return Err(e);
            },
            Ok(_) => {},
        }
        let ghost b1 = (spec_transfer(
            b0,
            args.taker@,
            args.maker@,
            offer.token_mint_b@,
            offer.token_b_wanted_amount,
        )->Ok_0);
        match self.transfer(&args.offer, &args.taker, &offer.token_mint_a, custody) {
            Err(e) => {
                self.accounts = saved;
                proof {
                    assert(self@ =~= old(self)@);
                }
                return Err(e);
            },
            Ok(_) => {},
        }
        let ghost b2 = (spec_transfer(b1, args.offer@, args.taker@, offer.token_mint_a@, custody)->Ok_0);
        assert(account_map(self.accounts@) == b2);
        assert(b2.contains_key(vault_key));
        let vi2 = match self.find_account(&args.offer, &offer.token_mint_a) {
            Some(i) => i,
            None => {
                proof {
                    assert(false);
                }
                return Err(EscrowError::MissingAccount);
            },
        };
        proof {
            lemma_account_map_remove(self.accounts@, vi2 as int);
        }
        self.accounts.remove(vi2);
        proof {
            assert(self.offers@ == old(self).offers@);
            assert(self.offers@[oi as int].address@ == args.offer@);
            lemma_offer_map_remove(self.offers@, oi as int);
        }
        self.offers.remove(oi);
        proof {
            assert forall|i: int| 0 <= i < self.offers@.len() implies offer_entry_ok(
                #[trigger] self.offers@[i],
                self@,
            ) by {
                let j: int = if i < oi as int { i } else { i + 1 };
                assert(self.offers@[i] == old(self).offers@[j]);
                assert(offer_entry_ok(old(self).offers@[j], old(self)@));
                assert(old(self).offers@[j].address@ != args.offer@);
            }
            assert(self@ =~= (spec_take_offer(old(self)@, args.taker@, args.maker@, args.offer@)->Ok_0));
        }
        Ok(())
    }

    /// The live offer record at `address`, if any.
    pub fn get_offer(&self, address: &Address) -> (r: Option<Offer>)
        requires
            self.wf(),
        ensures
            match r {
                Some(o) => self@.offers.contains_key(address@) && self@.offers[address@] == o@,
                None => !self@.offers.contains_key(address@),
            },
    {
        match self.find_offer_index(address) {
            Some(i) => Some(self.offers[i].offer),
            None => None,
        }
    }

    /// The balance `owner` holds of `mint`, or `None` when no such holding
    /// account exists.
    pub fn balance_of(&self, owner: &Address, mint: &Address) -> (r: Option<u64>)
        requires
            self.wf(),
        ensures
            match r {
                Some(v) => self@.balances.contains_key((owner@, mint@)) && self@.balances[(
                    owner@,
                    mint@,
                )] == v,
                None => !self@.balances.contains_key((owner@, mint@)),
            },
    {
        match self.find_account(owner, mint) {
            Some(i) => Some(self.accounts[i].amount),
            None => None,
        }
    }
}

} // verus!
