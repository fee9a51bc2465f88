//! Laws that relate several escrow operations.
//!
//! Each law is stated over the pure transitions of [`crate::model`], which
//! the executable operations are proved to refine, so it holds of the
//! executable ledger as well.

use vstd::prelude::*;
use crate::errors::EscrowError;
use crate::ledger::Ledger;
use crate::model::{
    lemma_offer_map_contains, lemma_offer_map_index, offer_entry_ok, spec_make_offer,
    spec_take_offer, LedgerModel,
};

verus! {

/// Settlement destroys the record: after one settlement of an offer
/// address succeeds, any further settlement of the same address — by any
/// taker, against any maker — fails as not found, so no double payout can
/// occur.
pub proof fn lemma_settle_twice(
    m: LedgerModel,
    taker1: Seq<u8>,
    maker1: Seq<u8>,
    taker2: Seq<u8>,
    maker2: Seq<u8>,
    addr: Seq<u8>,
)
    requires
        spec_take_offer(m, taker1, maker1, addr) is Ok,
    ensures
        spec_take_offer((spec_take_offer(m, taker1, maker1, addr)->Ok_0), taker2, maker2, addr)
            == Err::<LedgerModel, EscrowError>(EscrowError::NotFound),
{
    let m2 = spec_take_offer(m, taker1, maker1, addr)->Ok_0;
    assert(m2.offers == m.offers.remove(addr));
    assert(!m2.offers.contains_key(addr));
}

/// First write wins: once an offer of `(maker, id)` was created, creating
/// another with the same maker and id — whatever its terms — is rejected
/// as already existing, and a rejected creation leaves every record and
/// balance as it was.
pub proof fn lemma_create_collision(
    m: LedgerModel,
    maker: Seq<u8>,
    id: u64,
    mint_a: Seq<u8>,
    mint_b: Seq<u8>,
    offered: u64,
    wanted: u64,
    mint_a2: Seq<u8>,
    mint_b2: Seq<u8>,
    offered2: u64,
    wanted2: u64,
)
    requires
        spec_make_offer(m, maker, id, mint_a, mint_b, offered, wanted) is Ok,
        offered2 > 0,
        wanted2 > 0,
        m.mints.contains_key(mint_a2),
        m.mints.contains_key(mint_b2),
    ensures
        spec_make_offer(
            (spec_make_offer(m, maker, id, mint_a, mint_b, offered, wanted)->Ok_0).0,
            maker,
            id,
            mint_a2,
            mint_b2,
            offered2,
            wanted2,
        ) == Err::<(LedgerModel, Seq<u8>), EscrowError>(EscrowError::AlreadyExists),
{
    let t = spec_make_offer(m, maker, id, mint_a, mint_b, offered, wanted)->Ok_0;
    assert(t.0.offers.contains_key(t.1));
}

/// Settlement is owed: in a well-formed ledger, any live offer can be
/// settled by a taker who holds at least the wanted amount of asset B,
/// provided the parties and the two assets are pairwise distinct and the
/// two receiving balances stay representable.
pub proof fn lemma_settlement_owed(l: Ledger, taker: Seq<u8>, addr: Seq<u8>)
    requires
        l.wf(),
        l@.offers.contains_key(addr),
        l@.balances.contains_key((taker, l@.offers[addr].token_mint_b)),
        l@.balances[(taker, l@.offers[addr].token_mint_b)]
            >= l@.offers[addr].token_b_wanted_amount,
        taker != l@.offers[addr].maker,
        taker != addr,
        l@.offers[addr].maker != addr,
        l@.offers[addr].token_mint_a != l@.offers[addr].token_mint_b,
        l@.balances.contains_key((l@.offers[addr].maker, l@.offers[addr].token_mint_b))
            ==> l@.balances[(l@.offers[addr].maker, l@.offers[addr].token_mint_b)]
            + l@.offers[addr].token_b_wanted_amount <= u64::MAX,
        l@.balances.contains_key((taker, l@.offers[addr].token_mint_a)) ==> l@.balances[(
            taker,
            l@.offers[addr].token_mint_a,
        )] + l@.balances[(addr, l@.offers[addr].token_mint_a)] <= u64::MAX,
    ensures
        spec_take_offer(l@, taker, l@.offers[addr].maker, addr) is Ok,
{
    let o = l@.offers[addr];
    lemma_offer_map_contains(l.offers@, addr);
    let i = choose|i: int| 0 <= i < l.offers@.len() && l.offers@[i].address@ == addr;
    lemma_offer_map_index(l.offers@, i);
    assert(offer_entry_ok(l.offers@[i], l@));
    assert(l.offers@[i].offer@ == o);
    assert(l@.balances.contains_key((addr, o.token_mint_a)));
}

} // verus!
