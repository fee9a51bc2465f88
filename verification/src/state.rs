//! The durable records of the escrow: offers, token accounts, asset mints.

use vstd::prelude::*;
use crate::addr::Address;

verus! {

/// The sole durable entity: one maker's proposed exchange terms.
#[derive(Clone, Copy)]
pub struct Offer {
    /// Caller-chosen identifier, unique per maker.
    pub id: u64,
    /// The party that created the offer and deposited asset A.
    pub maker: Address,
    /// Identity of the offered asset.
    pub token_mint_a: Address,
    /// Identity of the wanted asset.
    pub token_mint_b: Address,
    /// Amount of asset B the maker requires to settle.
    pub token_b_wanted_amount: u64,
    /// Canonicalization byte used to derive this record's address.
    pub bump: u8,
}

/// Mathematical image of an [`Offer`]: the same terms over plain sequences.
pub ghost struct OfferModel {
    pub id: u64,
    pub maker: Seq<u8>,
    pub token_mint_a: Seq<u8>,
    pub token_mint_b: Seq<u8>,
    pub token_b_wanted_amount: u64,
    pub bump: u8,
}

impl View for Offer {
    type V = OfferModel;

    open spec fn view(&self) -> OfferModel {
        OfferModel {
            id: self.id,
            maker: self.maker@,
            token_mint_a: self.token_mint_a@,
            token_mint_b: self.token_mint_b@,
            token_b_wanted_amount: self.token_b_wanted_amount,
            bump: self.bump,
        }
    }
}

/// A live offer record together with the derived address it occupies.
#[derive(Clone, Copy)]
pub struct OfferEntry {
    pub address: Address,
    pub offer: Offer,
}

/// A holding account: the balance one owner has of one asset. The custody
/// vault of an offer is the account owned by the offer's derived address.
#[derive(Clone, Copy)]
pub struct TokenAccount {
    pub owner: Address,
    pub mint: Address,
    pub amount: u64,
}

/// A registered asset type and its declared decimal precision.
#[derive(Clone, Copy)]
pub struct MintInfo {
    pub address: Address,
    pub decimals: u8,
}

} // verus!
