//! Program-derived addresses.
//!
//! An offer record never lives at a caller-chosen address: its address is
//! derived deterministically from a seed tag, the maker and the offer id,
//! together with a canonicalization byte (the "bump") chosen so that the
//! address lies outside the signable-key space. The derivation itself is a
//! hash computed by the host ledger's key library; this module wraps it and
//! gives its results names that the rest of the crate reasons with.

use vstd::prelude::*;
use vstd::bytes::spec_u64_to_le_bytes;
use vstd::bytes::u64_to_le_bytes;
use crate::addr::Address;

verus! {

/// The program's own identity, under which all offer addresses are derived.
pub const PROGRAM_ID_BYTES: [u8; 32] = [
    144, 182, 6, 98, 172, 51, 41, 97, 158, 137, 207, 238, 205, 4, 165, 163,
    23, 201, 113, 178, 181, 65, 1, 58, 80, 208, 39, 234, 88, 122, 239, 130,
];

/// The program identity as a sequence of bytes.
pub open spec fn spec_program_id() -> Seq<u8> {
    PROGRAM_ID_BYTES@
}

/// The program identity as an address value.
pub fn program_id() -> (r: Address)
    ensures
        r@ == spec_program_id(),
{
    Address { bytes: PROGRAM_ID_BYTES }
}

/// The seed tag that scopes offer records: the bytes of "offer".
pub open spec fn offer_seed_tag() -> Seq<u8> {
    seq![111u8, 102u8, 102u8, 101u8, 114u8]
}

/// The derivation seeds of the offer record of `(maker, id)`: the tag, the
/// maker's address, and the id in little-endian bytes.
pub open spec fn offer_seeds(maker: Seq<u8>, id: u64) -> Seq<Seq<u8>> {
    seq![offer_seed_tag(), maker, spec_u64_to_le_bytes(id)]
}

/// What the canonical-bump search returns for given seeds under a given
/// program: the derived address and its bump, or nothing when no bump
/// yields a valid address.
pub uninterp spec fn find_pda_of(seeds: Seq<Seq<u8>>, program: Seq<u8>) -> Option<(Seq<u8>, u8)>;

/// What single-bump derivation returns for given seeds (bump included)
/// under a given program: the derived address, or nothing when the seeds
/// are oversized or the hash falls on the curve.
pub uninterp spec fn create_pda_of(seeds: Seq<Seq<u8>>, program: Seq<u8>) -> Option<Seq<u8>>;

/// Relies on Pubkey::try_find_program_address: a deterministic function of
/// the seeds and the program id alone; when it returns an address and a
/// bump, create_program_address on the same seeds plus that bump returns
/// the same address.
#[verifier::external_body]
fn try_find_pda(seeds: &Vec<Vec<u8>>, program: &Address) -> (r: Option<(Address, u8)>)
    ensures
        match r {
            Some(ab) => {
                &&& find_pda_of(seeds.deep_view(), program@) == Some((ab.0@, ab.1))
                &&& create_pda_of(seeds.deep_view().push(seq![ab.1]), program@) == Some(ab.0@)
            },
            None => find_pda_of(seeds.deep_view(), program@) is None,
        },
{
    let seed_refs: Vec<&[u8]> = seeds.iter().map(|s| s.as_slice()).collect();
    let pid = anchor_lang::prelude::Pubkey::new_from_array(program.bytes);
    anchor_lang::prelude::Pubkey::try_find_program_address(&seed_refs, &pid)
        .map(|(pk, bump)| (Address { bytes: pk.to_bytes() }, bump))
}

/// Relies on Pubkey::create_program_address: a deterministic function of
/// the seeds and the program id alone.
#[verifier::external_body]
fn create_pda(seeds: &Vec<Vec<u8>>, program: &Address) -> (r: Option<Address>)
    ensures
        match r {
            Some(a) => create_pda_of(seeds.deep_view(), program@) == Some(a@),
            None => create_pda_of(seeds.deep_view(), program@) is None,
        },
{
    let seed_refs: Vec<&[u8]> = seeds.iter().map(|s| s.as_slice()).collect();
    let pid = anchor_lang::prelude::Pubkey::new_from_array(program.bytes);
    anchor_lang::prelude::Pubkey::create_program_address(&seed_refs, &pid)
        .ok()
        .map(|pk| Address { bytes: pk.to_bytes() })
}

/// The seeds of `(maker, id)` as byte vectors.
fn offer_seed_vecs(maker: &Address, id: u64) -> (r: Vec<Vec<u8>>)
    ensures
        r.deep_view() == offer_seeds(maker@, id),
{
    let mut tag: Vec<u8> = Vec::new();
    tag.push(111);
    tag.push(102);
    tag.push(102);
    tag.push(101);
    tag.push(114);
    let mut maker_bytes: Vec<u8> = Vec::new();
    let mut i: usize = 0;
    while i < 32
        invariant
            i <= 32,
            maker_bytes@ == maker@.take(i as int),
        decreases 32 - i,
    {
        maker_bytes.push(maker.bytes[i]);
        assert(maker_bytes@ =~= maker@.take(i + 1));
        i += 1;
    }
    assert(maker_bytes@ =~= maker@);
    let mut seeds: Vec<Vec<u8>> = Vec::new();
    seeds.push(tag);
    seeds.push(maker_bytes);
    seeds.push(u64_to_le_bytes(id));
    assert(tag@ =~= offer_seed_tag());
    assert(seeds.deep_view() =~~= offer_seeds(maker@, id));
    seeds
}

/// Derive the canonical offer address and bump for `(maker, id)`.
pub fn derive_offer_address(maker: &Address, id: u64) -> (r: Option<(Address, u8)>)
    ensures
        match r {
            Some(ab) => {
                &&& find_pda_of(offer_seeds(maker@, id), spec_program_id()) == Some((ab.0@, ab.1))
                &&& create_pda_of(offer_seeds(maker@, id).push(seq![ab.1]), spec_program_id())
                    == Some(ab.0@)
            },
            None => find_pda_of(offer_seeds(maker@, id), spec_program_id()) is None,
        },
{
    let seeds = offer_seed_vecs(maker, id);
    let pid = program_id();
    try_find_pda(&seeds, &pid)
}

/// Re-derive the offer address of `(maker, id)` from a stored bump and
/// compare it with the address a caller supplied. This is the sole
/// authenticity check that a supplied record is genuine.
pub fn check_offer_address(maker: &Address, id: u64, bump: u8, expected: &Address) -> (r: bool)
    ensures
        r == (create_pda_of(offer_seeds(maker@, id).push(seq![bump]), spec_program_id())
            == Some(expected@)),
{
    let mut seeds = offer_seed_vecs(maker, id);
    let mut bump_seed: Vec<u8> = Vec::new();
    bump_seed.push(bump);
    seeds.push(bump_seed);
    assert(seeds.deep_view() =~~= offer_seeds(maker@, id).push(seq![bump]));
    let pid = program_id();
    match create_pda(&seeds, &pid) {
        Some(a) => a.eq_address(expected),
        None => false,
    }
}

} // verus!
