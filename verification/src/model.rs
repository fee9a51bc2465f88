//! The mathematical model of the ledger and the escrow transitions.
//!
//! The ledger is abstracted as three finite maps: registered mints to their
//! decimals, holding accounts (keyed by owner and mint) to their balances,
//! and live offer records keyed by their derived address. The two escrow
//! operations are specified as pure transitions on this model; the
//! executable ledger proves that it refines them.

use vstd::prelude::*;
use crate::errors::EscrowError;
use crate::state::{MintInfo, OfferEntry, OfferModel, TokenAccount};
use crate::pda::{create_pda_of, find_pda_of, offer_seeds, spec_program_id};

verus! {

/// The key of a holding account: its owner and the asset it holds.
pub open spec fn acct_key(a: TokenAccount) -> (Seq<u8>, Seq<u8>) {
    (a.owner@, a.mint@)
}

/// The balances that a sequence of holding accounts represents.
pub open spec fn account_map(s: Seq<TokenAccount>) -> Map<(Seq<u8>, Seq<u8>), u64>
    decreases s.len(),
{
    if s.len() == 0 {
        Map::<(Seq<u8>, Seq<u8>), u64>::empty()
    } else {
        account_map(s.drop_last()).insert(acct_key(s.last()), s.last().amount)
    }
}

/// No two accounts share an owner-and-mint key.
pub open spec fn accounts_unique(s: Seq<TokenAccount>) -> bool {
    forall|i: int, j: int| 0 <= i < j < s.len() ==> acct_key(s[i]) != acct_key(s[j])
}

/// The offer records that a sequence of entries represents.
pub open spec fn offer_map(s: Seq<OfferEntry>) -> Map<Seq<u8>, OfferModel>
    decreases s.len(),
{
    if s.len() == 0 {
        Map::<Seq<u8>, OfferModel>::empty()
    } else {
        offer_map(s.drop_last()).insert(s.last().address@, s.last().offer@)
    }
}

/// No two live offers share an address.
pub open spec fn offers_unique(s: Seq<OfferEntry>) -> bool {
    forall|i: int, j: int| 0 <= i < j < s.len() ==> s[i].address@ != s[j].address@
}

/// The declared decimals that a sequence of mint records represents.
pub open spec fn mint_map(s: Seq<MintInfo>) -> Map<Seq<u8>, u8>
    decreases s.len(),
{
    if s.len() == 0 {
        Map::<Seq<u8>, u8>::empty()
    } else {
        mint_map(s.drop_last()).insert(s.last().address@, s.last().decimals)
    }
}

/// No two mint records share an address.
pub open spec fn mints_unique(s: Seq<MintInfo>) -> bool {
    forall|i: int, j: int| 0 <= i < j < s.len() ==> s[i].address@ != s[j].address@
}

/// The whole ledger, abstractly.
#[verifier::ext_equal]
pub ghost struct LedgerModel {
    pub mints: Map<Seq<u8>, u8>,
    pub balances: Map<(Seq<u8>, Seq<u8>), u64>,
    pub offers: Map<Seq<u8>, OfferModel>,
}

/// Move `amount` of `mint` from `from` to `to`. The paying account must
/// exist and cover the amount; the receiving account is created when
/// absent, and its balance must not exceed the representable range. A
/// transfer from an account to itself leaves the balance unchanged.
pub open spec fn spec_transfer(
    b: Map<(Seq<u8>, Seq<u8>), u64>,
    from: Seq<u8>,
    to: Seq<u8>,
    mint: Seq<u8>,
    amount: u64,
) -> Result<Map<(Seq<u8>, Seq<u8>), u64>, EscrowError> {
    let fk = (from, mint);
    let tk = (to, mint);
    if !b.contains_key(fk) {
        Err(EscrowError::MissingAccount)
    } else if b[fk] < amount {
        Err(EscrowError::InsufficientBalance)
    } else {
        let b1 = b.insert(fk, (b[fk] - amount) as u64);
        if !b1.contains_key(tk) {
            Ok(b1.insert(tk, amount))
        } else if b1[tk] + amount > u64::MAX {
            Err(EscrowError::Overflow)
        } else {
            Ok(b1.insert(tk, (b1[tk] + amount) as u64))
        }
    }
}

/// A transfer that additionally validates the asset: the mint must be
/// registered and `decimals` must match its declared precision.
pub open spec fn spec_transfer_checked(
    m: LedgerModel,
    from: Seq<u8>,
    to: Seq<u8>,
    mint: Seq<u8>,
    amount: u64,
    decimals: u8,
) -> Result<LedgerModel, EscrowError> {
    if !m.mints.contains_key(mint) {
        Err(EscrowError::UnknownMint)
    } else if m.mints[mint] != decimals {
        Err(EscrowError::DecimalsMismatch)
    } else {
        match spec_transfer(m.balances, from, to, mint, amount) {
            Ok(b) => Ok(LedgerModel { mints: m.mints, balances: b, offers: m.offers }),
            Err(e) => Err(e),
        }
    }
}

/// Register a new asset type and its decimal precision.
pub open spec fn spec_register_mint(m: LedgerModel, mint: Seq<u8>, decimals: u8) -> Result<
    LedgerModel,
    EscrowError,
> {
    if m.mints.contains_key(mint) {
        Err(EscrowError::AlreadyExists)
    } else {
        Ok(LedgerModel { mints: m.mints.insert(mint, decimals), balances: m.balances, offers: m.offers })
    }
}

/// Issue `amount` of `mint` to `owner`, creating the holding account when
/// absent.
pub open spec fn spec_mint_to(m: LedgerModel, owner: Seq<u8>, mint: Seq<u8>, amount: u64) -> Result<
    LedgerModel,
    EscrowError,
> {
    let k = (owner, mint);
    if !m.mints.contains_key(mint) {
        Err(EscrowError::UnknownMint)
    } else if !m.balances.contains_key(k) {
        Ok(LedgerModel { mints: m.mints, balances: m.balances.insert(k, amount), offers: m.offers })
    } else if m.balances[k] + amount > u64::MAX {
        Err(EscrowError::Overflow)
    } else {
        Ok(LedgerModel {
            mints: m.mints,
            balances: m.balances.insert(k, (m.balances[k] + amount) as u64),
            offers: m.offers,
        })
    }
}

/// Offer creation. Both amounts must be positive and both assets
/// registered; the record's address is the canonical derived address of
/// `(maker, id)`, which must be free, as must the custody account scoped
/// to it; the offered amount then moves from the maker into custody and
/// the record is written. Any rejection leaves the model unchanged.
pub open spec fn spec_make_offer(
    m: LedgerModel,
    maker: Seq<u8>,
    id: u64,
    mint_a: Seq<u8>,
    mint_b: Seq<u8>,
    offered: u64,
    wanted: u64,
) -> Result<(LedgerModel, Seq<u8>), EscrowError> {
    if offered == 0 || wanted == 0 {
        Err(EscrowError::InvalidAmount)
    } else if !m.mints.contains_key(mint_a) || !m.mints.contains_key(mint_b) {
        Err(EscrowError::UnknownMint)
    } else {
        match find_pda_of(offer_seeds(maker, id), spec_program_id()) {
            None => Err(EscrowError::DerivationFailed),
            Some((addr, bump)) => {
                if m.offers.contains_key(addr) {
                    Err(EscrowError::AlreadyExists)
                } else if m.balances.contains_key((addr, mint_a)) {
                    Err(EscrowError::AlreadyExists)
                } else {
                    match spec_transfer(m.balances, maker, addr, mint_a, offered) {
                        Err(e) => Err(e),
                        Ok(b) => Ok((
                            LedgerModel {
                                mints: m.mints,
                                balances: b,
                                offers: m.offers.insert(
                                    addr,
                                    OfferModel {
                                        id: id,
                                        maker: maker,
                                        token_mint_a: mint_a,
                                        token_mint_b: mint_b,
                                        token_b_wanted_amount: wanted,
                                        bump: bump,
                                    },
                                ),
                            },
                            addr,
                        )),
                    }
                }
            },
        }
    }
}

/// Offer settlement. The supplied address must hold a live record whose
/// maker matches the supplied maker and which re-derives from its own
/// seeds and stored bump; the wanted amount then moves from the taker to
/// the maker, the full custodied amount moves from the vault to the taker,
/// and the vault and the record are both destroyed. Any rejection leaves
/// the model unchanged.
pub open spec fn spec_take_offer(
    m: LedgerModel,
    taker: Seq<u8>,
    maker: Seq<u8>,
    offer_address: Seq<u8>,
) -> Result<LedgerModel, EscrowError> {
    if !m.offers.contains_key(offer_address) {
        Err(EscrowError::NotFound)
    } else {
        let o = m.offers[offer_address];
        let vault_key = (offer_address, o.token_mint_a);
        if o.maker != maker {
            Err(EscrowError::MakerMismatch)
        } else if create_pda_of(offer_seeds(maker, o.id).push(seq![o.bump]), spec_program_id())
            != Some(offer_address) {
            Err(EscrowError::InvalidOfferAddress)
        } else if !m.balances.contains_key(vault_key) {
            Err(EscrowError::MissingAccount)
        } else {
            let custody = m.balances[vault_key];
            match spec_transfer(m.balances, taker, maker, o.token_mint_b, o.token_b_wanted_amount) {
                Err(e) => Err(e),
                Ok(b1) => match spec_transfer(b1, offer_address, taker, o.token_mint_a, custody) {
                    Err(e) => Err(e),
                    Ok(b2) => Ok(LedgerModel {
                        mints: m.mints,
                        balances: b2.remove(vault_key),
                        offers: m.offers.remove(offer_address),
                    }),
                },
            }
        }
    }
}

/// A key is in the account map exactly when some account carries it.
pub proof fn lemma_account_map_contains(s: Seq<TokenAccount>, k: (Seq<u8>, Seq<u8>))
    ensures
        account_map(s).contains_key(k) == exists|i: int| 0 <= i < s.len() && acct_key(s[i]) == k,
    decreases s.len(),
{
    if s.len() == 0 {
    } else {
        lemma_account_map_contains(s.drop_last(), k);
        if acct_key(s.last()) == k {
            assert(acct_key(s[s.len() - 1]) == k);
        } else {
            if account_map(s).contains_key(k) {
                let i = choose|i: int| 0 <= i < s.drop_last().len() && acct_key(s.drop_last()[i]) == k;
                assert(acct_key(s[i]) == k);
            }
            if exists|i: int| 0 <= i < s.len() && acct_key(s[i]) == k {
                let i = choose|i: int| 0 <= i < s.len() && acct_key(s[i]) == k;
                assert(i < s.len() - 1);
                assert(acct_key(s.drop_last()[i]) == k);
            }
        }
    }
}

/// Dropping the last account keeps the keys unique.
pub proof fn lemma_accounts_unique_drop_last(s: Seq<TokenAccount>)
    requires
        accounts_unique(s),
        s.len() > 0,
    ensures
        accounts_unique(s.drop_last()),
{
    assert forall|i: int, j: int|
        0 <= i < j < s.drop_last().len() implies acct_key(s.drop_last()[i]) != acct_key(
        s.drop_last()[j],
    ) by {
        assert(s.drop_last()[i] == s[i]);
        assert(s.drop_last()[j] == s[j]);
    }
}

/// With unique keys, the map holds each account's balance under its key.
pub proof fn lemma_account_map_index(s: Seq<TokenAccount>, i: int)
    requires
        accounts_unique(s),
        0 <= i < s.len(),
    ensures
        account_map(s).contains_key(acct_key(s[i])),
        account_map(s)[acct_key(s[i])] == s[i].amount,
    decreases s.len(),
{
    if i == s.len() - 1 {
    } else {
        lemma_accounts_unique_drop_last(s);
        lemma_account_map_index(s.drop_last(), i);
        assert(s.drop_last()[i] == s[i]);
        assert(acct_key(s[i]) != acct_key(s.last()));
    }
}

/// Replacing an account by one with the same key updates the map at that
/// key and keeps the keys unique.
pub proof fn lemma_account_map_update(s: Seq<TokenAccount>, i: int, a: TokenAccount)
    requires
        accounts_unique(s),
        0 <= i < s.len(),
        acct_key(a) == acct_key(s[i]),
    ensures
        accounts_unique(s.update(i, a)),
        account_map(s.update(i, a)) == account_map(s).insert(acct_key(a), a.amount),
    decreases s.len(),
{
    let s2 = s.update(i, a);
    assert forall|p: int, q: int| 0 <= p < q < s2.len() implies acct_key(s2[p]) != acct_key(
        s2[q],
    ) by {
        assert(acct_key(s2[p]) == acct_key(s[p]));
        assert(acct_key(s2[q]) == acct_key(s[q]));
    }
    if i == s.len() - 1 {
        assert(s2.drop_last() =~= s.drop_last());
        assert(s2.last() == a);
        assert(account_map(s.drop_last()).insert(acct_key(s.last()), s.last().amount).insert(
            acct_key(a),
            a.amount,
        ) =~= account_map(s.drop_last()).insert(acct_key(a), a.amount));
    } else {
        assert(s2.drop_last() =~= s.drop_last().update(i, a));
        assert(s2.last() == s.last());
        lemma_accounts_unique_drop_last(s);
        assert(s.drop_last()[i] == s[i]);
        lemma_account_map_update(s.drop_last(), i, a);
        assert(acct_key(s.last()) != acct_key(a));
        assert(account_map(s.drop_last()).insert(acct_key(a), a.amount).insert(
            acct_key(s.last()),
            s.last().amount,
        ) =~= account_map(s.drop_last()).insert(acct_key(s.last()), s.last().amount).insert(
            acct_key(a),
            a.amount,
        ));
    }
}

/// Appending an account with a fresh key inserts its balance and keeps the
/// keys unique.
pub proof fn lemma_account_map_push(s: Seq<TokenAccount>, a: TokenAccount)
    requires
        accounts_unique(s),
        !account_map(s).contains_key(acct_key(a)),
    ensures
        accounts_unique(s.push(a)),
        account_map(s.push(a)) == account_map(s).insert(acct_key(a), a.amount),
{
    lemma_account_map_contains(s, acct_key(a));
    assert(s.push(a).drop_last() =~= s);
    assert(s.push(a).last() == a);
    assert forall|p: int, q: int| 0 <= p < q < s.push(a).len() implies acct_key(s.push(a)[p])
        != acct_key(s.push(a)[q]) by {
        if q < s.len() {
            assert(s.push(a)[p] == s[p]);
            assert(s.push(a)[q] == s[q]);
        } else {
            assert(s.push(a)[p] == s[p]);
            assert(s.push(a)[q] == a);
        }
    }
}

/// Removing an account removes its key from the map and keeps the keys
/// unique.
pub proof fn lemma_account_map_remove(s: Seq<TokenAccount>, i: int)
    requires
        accounts_unique(s),
        0 <= i < s.len(),
    ensures
        accounts_unique(s.remove(i)),
        account_map(s.remove(i)) == account_map(s).remove(acct_key(s[i])),
    decreases s.len(),
{
    let s2 = s.remove(i);
    assert forall|p: int, q: int| 0 <= p < q < s2.len() implies acct_key(s2[p]) != acct_key(
        s2[q],
    ) by {
        assert(s2[p] == (if p < i { s[p] } else { s[p + 1] }));
        assert(s2[q] == (if q < i { s[q] } else { s[q + 1] }));
    }
    if i == s.len() - 1 {
        assert(s2 =~= s.drop_last());
        lemma_accounts_unique_drop_last(s);
        lemma_account_map_contains(s.drop_last(), acct_key(s.last()));
        assert forall|j: int| 0 <= j < s.drop_last().len() implies acct_key(s.drop_last()[j])
            != acct_key(s.last()) by {
            assert(s.drop_last()[j] == s[j]);
        }
        assert(!account_map(s.drop_last()).contains_key(acct_key(s.last())));
        assert(account_map(s.drop_last()).insert(acct_key(s.last()), s.last().amount).remove(
            acct_key(s.last()),
        ) =~= account_map(s.drop_last()));
    } else {
        assert(s2.drop_last() =~= s.drop_last().remove(i));
        assert(s2.len() == s.len() - 1);
        assert(s2.last() == s[s.len() - 1]);
        assert(s2.last() == s.last());
        lemma_accounts_unique_drop_last(s);
        assert(s.drop_last()[i] == s[i]);
        lemma_account_map_remove(s.drop_last(), i);
        assert(acct_key(s.last()) != acct_key(s[i]));
        assert(account_map(s.drop_last()).remove(acct_key(s[i])).insert(
            acct_key(s.last()),
            s.last().amount,
        ) =~= account_map(s.drop_last()).insert(acct_key(s.last()), s.last().amount).remove(
            acct_key(s[i]),
        ));
    }
}

/// An address is in the offer map exactly when some entry occupies it.
pub proof fn lemma_offer_map_contains(s: Seq<OfferEntry>, k: Seq<u8>)
    ensures
        offer_map(s).contains_key(k) == exists|i: int| 0 <= i < s.len() && s[i].address@ == k,
    decreases s.len(),
{
    if s.len() == 0 {
    } else {
        lemma_offer_map_contains(s.drop_last(), k);
        if s.last().address@ == k {
            assert(s[s.len() - 1].address@ == k);
        } else {
            if offer_map(s).contains_key(k) {
                let i = choose|i: int| 0 <= i < s.drop_last().len() && s.drop_last()[i].address@ == k;
                assert(s[i].address@ == k);
            }
            if exists|i: int| 0 <= i < s.len() && s[i].address@ == k {
                let i = choose|i: int| 0 <= i < s.len() && s[i].address@ == k;
                assert(i < s.len() - 1);
                assert(s.drop_last()[i].address@ == k);
            }
        }
    }
}

/// Dropping the last entry keeps the addresses unique.
pub proof fn lemma_offers_unique_drop_last(s: Seq<OfferEntry>)
    requires
        offers_unique(s),
        s.len() > 0,
    ensures
        offers_unique(s.drop_last()),
{
    assert forall|i: int, j: int| 0 <= i < j < s.drop_last().len() implies s.drop_last()[i].address@
        != s.drop_last()[j].address@ by {
        assert(s.drop_last()[i] == s[i]);
        assert(s.drop_last()[j] == s[j]);
    }
}

/// With unique addresses, the map holds each entry's record under its
/// address.
pub proof fn lemma_offer_map_index(s: Seq<OfferEntry>, i: int)
    requires
        offers_unique(s),
        0 <= i < s.len(),
    ensures
        offer_map(s).contains_key(s[i].address@),
        offer_map(s)[s[i].address@] == s[i].offer@,
    decreases s.len(),
{
    if i == s.len() - 1 {
    } else {
        lemma_offers_unique_drop_last(s);
        lemma_offer_map_index(s.drop_last(), i);
        assert(s.drop_last()[i] == s[i]);
        assert(s[i].address@ != s.last().address@);
    }
}

/// Appending an entry at a fresh address inserts its record and keeps the
/// addresses unique.
pub proof fn lemma_offer_map_push(s: Seq<OfferEntry>, e: OfferEntry)
    requires
        offers_unique(s),
        !offer_map(s).contains_key(e.address@),
    ensures
        offers_unique(s.push(e)),
        offer_map(s.push(e)) == offer_map(s).insert(e.address@, e.offer@),
{
    lemma_offer_map_contains(s, e.address@);
    assert(s.push(e).drop_last() =~= s);
    assert(s.push(e).last() == e);
    assert forall|p: int, q: int| 0 <= p < q < s.push(e).len() implies s.push(e)[p].address@
        != s.push(e)[q].address@ by {
        if q < s.len() {
            assert(s.push(e)[p] == s[p]);
            assert(s.push(e)[q] == s[q]);
        } else {
            assert(s.push(e)[p] == s[p]);
            assert(s.push(e)[q] == e);
        }
    }
}

/// Removing an entry removes its address from the map and keeps the
/// addresses unique.
pub proof fn lemma_offer_map_remove(s: Seq<OfferEntry>, i: int)
    requires
        offers_unique(s),
        0 <= i < s.len(),
    ensures
        offers_unique(s.remove(i)),
        offer_map(s.remove(i)) == offer_map(s).remove(s[i].address@),
    decreases s.len(),
{
    let s2 = s.remove(i);
    assert forall|p: int, q: int| 0 <= p < q < s2.len() implies s2[p].address@ != s2[q].address@ by {
        assert(s2[p] == (if p < i { s[p] } else { s[p + 1] }));
        assert(s2[q] == (if q < i { s[q] } else { s[q + 1] }));
    }
    if i == s.len() - 1 {
        assert(s2 =~= s.drop_last());
        lemma_offers_unique_drop_last(s);
        lemma_offer_map_contains(s.drop_last(), s.last().address@);
        assert forall|j: int| 0 <= j < s.drop_last().len() implies s.drop_last()[j].address@
            != s.last().address@ by {
            assert(s.drop_last()[j] == s[j]);
        }
        assert(!offer_map(s.drop_last()).contains_key(s.last().address@));
        assert(offer_map(s.drop_last()).insert(s.last().address@, s.last().offer@).remove(
            s.last().address@,
        ) =~= offer_map(s.drop_last()));
    } else {
        assert(s2.drop_last() =~= s.drop_last().remove(i));
        assert(s2.len() == s.len() - 1);
        assert(s2.last() == s.last());
        lemma_offers_unique_drop_last(s);
        assert(s.drop_last()[i] == s[i]);
        lemma_offer_map_remove(s.drop_last(), i);
        assert(s.last().address@ != s[i].address@);
        assert(offer_map(s.drop_last()).remove(s[i].address@).insert(
            s.last().address@,
            s.last().offer@,
        ) =~= offer_map(s.drop_last()).insert(s.last().address@, s.last().offer@).remove(
            s[i].address@,
        ));
    }
}

/// An address is in the mint map exactly when some record carries it.
pub proof fn lemma_mint_map_contains(s: Seq<MintInfo>, k: Seq<u8>)
    ensures
        mint_map(s).contains_key(k) == exists|i: int| 0 <= i < s.len() && s[i].address@ == k,
    decreases s.len(),
{
    if s.len() == 0 {
    } else {
        lemma_mint_map_contains(s.drop_last(), k);
        if s.last().address@ == k {
            assert(s[s.len() - 1].address@ == k);
        } else {
            if mint_map(s).contains_key(k) {
                let i = choose|i: int| 0 <= i < s.drop_last().len() && s.drop_last()[i].address@ == k;
                assert(s[i].address@ == k);
            }
            if exists|i: int| 0 <= i < s.len() && s[i].address@ == k {
                let i = choose|i: int| 0 <= i < s.len() && s[i].address@ == k;
                assert(i < s.len() - 1);
                assert(s.drop_last()[i].address@ == k);
            }
        }
    }
}

/// Dropping the last record keeps the mint addresses unique.
pub proof fn lemma_mints_unique_drop_last(s: Seq<MintInfo>)
    requires
        mints_unique(s),
        s.len() > 0,
    ensures
        mints_unique(s.drop_last()),
{
    assert forall|i: int, j: int| 0 <= i < j < s.drop_last().len() implies s.drop_last()[i].address@
        != s.drop_last()[j].address@ by {
        assert(s.drop_last()[i] == s[i]);
        assert(s.drop_last()[j] == s[j]);
    }
}

/// With unique addresses, the map holds each record's decimals under its
/// address.
pub proof fn lemma_mint_map_index(s: Seq<MintInfo>, i: int)
    requires
        mints_unique(s),
        0 <= i < s.len(),
    ensures
        mint_map(s).contains_key(s[i].address@),
        mint_map(s)[s[i].address@] == s[i].decimals,
    decreases s.len(),
{
    if i == s.len() - 1 {
    } else {
        lemma_mints_unique_drop_last(s);
        lemma_mint_map_index(s.drop_last(), i);
        assert(s.drop_last()[i] == s[i]);
        assert(s[i].address@ != s.last().address@);
    }
}

/// Appending a record at a fresh address inserts its decimals and keeps
/// the addresses unique.
pub proof fn lemma_mint_map_push(s: Seq<MintInfo>, e: MintInfo)
    requires
        mints_unique(s),
        !mint_map(s).contains_key(e.address@),
    ensures
        mints_unique(s.push(e)),
        mint_map(s.push(e)) == mint_map(s).insert(e.address@, e.decimals),
{
    lemma_mint_map_contains(s, e.address@);
    assert(s.push(e).drop_last() =~= s);
    assert(s.push(e).last() == e);
    assert forall|p: int, q: int| 0 <= p < q < s.push(e).len() implies s.push(e)[p].address@
        != s.push(e)[q].address@ by {
        if q < s.len() {
            assert(s.push(e)[p] == s[p]);
            assert(s.push(e)[q] == s[q]);
        } else {
            assert(s.push(e)[p] == s[p]);
            assert(s.push(e)[q] == e);
        }
    }
}

/// What well-formedness asks of one live offer entry: its address
/// re-derives from its own seeds and stored bump, its custody account
/// exists, and both its assets are registered.
pub open spec fn offer_entry_ok(e: OfferEntry, m: LedgerModel) -> bool {
    &&& create_pda_of(
        offer_seeds(e.offer.maker@, e.offer.id).push(seq![e.offer.bump]),
        spec_program_id(),
    ) == Some(e.address@)
    &&& m.balances.contains_key((e.address@, e.offer.token_mint_a@))
    &&& m.mints.contains_key(e.offer.token_mint_a@)
    &&& m.mints.contains_key(e.offer.token_mint_b@)
}

} // verus!
