//! Error taxonomy of the escrow operations.

use vstd::prelude::*;

verus! {

/// Why an escrow operation was rejected. Every error aborts the whole
/// operation: a rejected call leaves the ledger exactly as it was.
#[derive(Clone, Copy, Debug, PartialEq, Eq, Structural)]
pub enum EscrowError {
    /// An offered or wanted amount of zero.
    InvalidAmount,
    /// An asset identity that the ledger does not know.
    UnknownMint,
    /// A transfer whose stated precision differs from the asset's declared
    /// decimals.
    DecimalsMismatch,
    /// No canonical derived address exists for the requested record.
    DerivationFailed,
    /// An offer record or custody account already occupies the derived
    /// address: first write wins.
    AlreadyExists,
    /// The maker account supplied does not match the offer's recorded maker.
    MakerMismatch,
    /// The supplied offer address does not re-derive from the record's own
    /// seeds and bump: a forged or substituted account.
    InvalidOfferAddress,
    /// No live offer record at the supplied address.
    NotFound,
    /// The paying party holds no account of the asset.
    MissingAccount,
    /// The paying party's balance is below the amount to move.
    InsufficientBalance,
    /// The receiving balance would exceed the largest representable amount.
    Overflow,
}

} // verus!
