use escrow::addr::Address;
use escrow::errors::EscrowError;
use escrow::ledger::{Ledger, MakeOffer, TakeOffer};
use escrow::state::{OfferEntry, TokenAccount};

fn addr(n: u8) -> Address {
    Address { bytes: [n; 32] }
}

fn setup(maker_a: u64, taker_b: u64) -> (Ledger, Address, Address, Address, Address) {
    let mut ledger = Ledger::initialize();
    let mint_a = addr(10);
    let mint_b = addr(11);
    let maker = addr(1);
    let taker = addr(2);
    ledger.register_mint(&mint_a, 6).unwrap();
    ledger.register_mint(&mint_b, 6).unwrap();
    if maker_a > 0 {
        ledger.mint_to(&maker, &mint_a, maker_a).unwrap();
    }
    if taker_b > 0 {
        ledger.mint_to(&taker, &mint_b, taker_b).unwrap();
    }
    (ledger, maker, taker, mint_a, mint_b)
}

fn make(ledger: &mut Ledger, maker: Address, id: u64, mint_a: Address, mint_b: Address, offered: u64, wanted: u64) -> Result<Address, EscrowError> {
    ledger.make_offer(&MakeOffer {
        maker,
        id,
        token_mint_a: mint_a,
        token_mint_b: mint_b,
        token_a_offered_amount: offered,
        token_b_wanted_amount: wanted,
    })
}

#[test]
fn create_offer_custodies_exact_amount() {
    let (mut ledger, maker, _taker, mint_a, mint_b) = setup(250, 0);
    let offer_addr = make(&mut ledger, maker, 1, mint_a, mint_b, 100, 50).unwrap();
    // the custody account holds exactly the offered amount
    assert_eq!(ledger.balance_of(&offer_addr, &mint_a), Some(100));
    // taken from the maker's holding
    assert_eq!(ledger.balance_of(&maker, &mint_a), Some(150));
    // the record carries exactly the submitted terms
    let offer = ledger.get_offer(&offer_addr).unwrap();
    assert_eq!(offer.id, 1);
    assert_eq!(offer.maker.bytes, maker.bytes);
    assert_eq!(offer.token_mint_a.bytes, mint_a.bytes);
    assert_eq!(offer.token_mint_b.bytes, mint_b.bytes);
    assert_eq!(offer.token_b_wanted_amount, 50);
}

#[test]
fn settle_offer_pays_both_parties() {
    let (mut ledger, maker, taker, mint_a, mint_b) = setup(100, 75);
    let offer_addr = make(&mut ledger, maker, 1, mint_a, mint_b, 100, 50).unwrap();
    ledger.take_offer(&TakeOffer { taker, maker, offer: offer_addr }).unwrap();
    // the maker received exactly the wanted amount of asset B
    assert_eq!(ledger.balance_of(&maker, &mint_b), Some(50));
    // the taker paid it and received the full custodied amount of asset A
    assert_eq!(ledger.balance_of(&taker, &mint_b), Some(25));
    assert_eq!(ledger.balance_of(&taker, &mint_a), Some(100));
    // record and custody account are both gone
    assert!(ledger.get_offer(&offer_addr).is_none());
    assert!(ledger.balance_of(&offer_addr, &mint_a).is_none());
}

#[test]
fn full_scenario_maker_offers_100_for_50() {
    let (mut ledger, maker, taker, mint_a, mint_b) = setup(100, 50);
    let offer_addr = make(&mut ledger, maker, 1, mint_a, mint_b, 100, 50).unwrap();
    assert_eq!(ledger.balance_of(&offer_addr, &mint_a), Some(100));
    ledger.take_offer(&TakeOffer { taker, maker, offer: offer_addr }).unwrap();
    assert_eq!(ledger.balance_of(&taker, &mint_a), Some(100));
    assert_eq!(ledger.balance_of(&taker, &mint_b), Some(0));
    assert_eq!(ledger.balance_of(&maker, &mint_b), Some(50));
    assert_eq!(ledger.balance_of(&maker, &mint_a), Some(0));
    // offer id 1 is no longer queryable
    assert!(ledger.get_offer(&offer_addr).is_none());
}

#[test]
fn settle_twice_fails_not_found() {
    let (mut ledger, maker, taker, mint_a, mint_b) = setup(100, 200);
    let offer_addr = make(&mut ledger, maker, 1, mint_a, mint_b, 100, 50).unwrap();
    ledger.take_offer(&TakeOffer { taker, maker, offer: offer_addr }).unwrap();
    let taker_a = ledger.balance_of(&taker, &mint_a);
    let taker_b = ledger.balance_of(&taker, &mint_b);
    // the second settlement fails and pays out nothing further
    let second = ledger.take_offer(&TakeOffer { taker, maker, offer: offer_addr });
    assert_eq!(second, Err(EscrowError::NotFound));
    assert_eq!(ledger.balance_of(&taker, &mint_a), taker_a);
    assert_eq!(ledger.balance_of(&taker, &mint_b), taker_b);
}

#[test]
fn create_with_used_id_fails_and_changes_nothing() {
    let (mut ledger, maker, _taker, mint_a, mint_b) = setup(300, 0);
    let offer_addr = make(&mut ledger, maker, 7, mint_a, mint_b, 100, 50).unwrap();
    let second = make(&mut ledger, maker, 7, mint_a, mint_b, 25, 10);
    assert_eq!(second.err(), Some(EscrowError::AlreadyExists));
    // the existing offer and custody account are untouched
    assert_eq!(ledger.balance_of(&offer_addr, &mint_a), Some(100));
    assert_eq!(ledger.balance_of(&maker, &mint_a), Some(200));
    let offer = ledger.get_offer(&offer_addr).unwrap();
    assert_eq!(offer.token_b_wanted_amount, 50);
}

#[test]
fn same_id_different_makers_coexist() {
    let (mut ledger, maker, _taker, mint_a, mint_b) = setup(100, 0);
    let other = addr(3);
    ledger.mint_to(&other, &mint_a, 40).unwrap();
    let first = make(&mut ledger, maker, 1, mint_a, mint_b, 100, 50).unwrap();
    let second = make(&mut ledger, other, 1, mint_a, mint_b, 40, 20).unwrap();
    assert_ne!(first.bytes, second.bytes);
    assert_eq!(ledger.balance_of(&first, &mint_a), Some(100));
    assert_eq!(ledger.balance_of(&second, &mint_a), Some(40));
}

#[test]
fn insufficient_taker_balance_keeps_custody_intact() {
    let (mut ledger, maker, taker, mint_a, mint_b) = setup(100, 49);
    let offer_addr = make(&mut ledger, maker, 1, mint_a, mint_b, 100, 50).unwrap();
    let r = ledger.take_offer(&TakeOffer { taker, maker, offer: offer_addr });
    assert_eq!(r, Err(EscrowError::InsufficientBalance));
    // no asset A left custody, the record remains
    assert_eq!(ledger.balance_of(&offer_addr, &mint_a), Some(100));
    assert_eq!(ledger.balance_of(&taker, &mint_b), Some(49));
    assert!(ledger.balance_of(&taker, &mint_a).is_none());
    assert!(ledger.get_offer(&offer_addr).is_some());
}

#[test]
fn taker_without_account_cannot_settle() {
    let (mut ledger, maker, taker, mint_a, mint_b) = setup(100, 0);
    let offer_addr = make(&mut ledger, maker, 1, mint_a, mint_b, 100, 50).unwrap();
    let r = ledger.take_offer(&TakeOffer { taker, maker, offer: offer_addr });
    assert_eq!(r, Err(EscrowError::MissingAccount));
    assert_eq!(ledger.balance_of(&offer_addr, &mint_a), Some(100));
}

#[test]
fn wrong_maker_is_rejected() {
    let (mut ledger, maker, taker, mint_a, mint_b) = setup(100, 50);
    let offer_addr = make(&mut ledger, maker, 1, mint_a, mint_b, 100, 50).unwrap();
    let r = ledger.take_offer(&TakeOffer { taker, maker: addr(9), offer: offer_addr });
    assert_eq!(r, Err(EscrowError::MakerMismatch));
    assert!(ledger.get_offer(&offer_addr).is_some());
}

#[test]
fn forged_offer_address_is_rejected() {
    let (mut ledger, maker, taker, mint_a, mint_b) = setup(100, 50);
    let offer_addr = make(&mut ledger, maker, 1, mint_a, mint_b, 100, 50).unwrap();
    // substitute a look-alike record at an address that does not re-derive
    // from the record's seeds and bump
    let forged_addr = addr(123);
    let offer = ledger.get_offer(&offer_addr).unwrap();
    ledger.offers.push(OfferEntry { address: forged_addr, offer });
    ledger.accounts.push(TokenAccount { owner: forged_addr, mint: mint_a, amount: 1 });
    let r = ledger.take_offer(&TakeOffer { taker, maker, offer: forged_addr });
    assert_eq!(r, Err(EscrowError::InvalidOfferAddress));
    assert_eq!(ledger.balance_of(&taker, &mint_a), None);
}

#[test]
fn zero_amounts_are_rejected() {
    let (mut ledger, maker, _taker, mint_a, mint_b) = setup(100, 0);
    assert_eq!(make(&mut ledger, maker, 1, mint_a, mint_b, 0, 50).err(), Some(EscrowError::InvalidAmount));
    assert_eq!(make(&mut ledger, maker, 1, mint_a, mint_b, 100, 0).err(), Some(EscrowError::InvalidAmount));
    assert_eq!(ledger.balance_of(&maker, &mint_a), Some(100));
}

#[test]
fn unknown_mint_is_rejected() {
    let (mut ledger, maker, _taker, mint_a, _mint_b) = setup(100, 0);
    let stranger = addr(99);
    assert_eq!(make(&mut ledger, maker, 1, mint_a, stranger, 100, 50).err(), Some(EscrowError::UnknownMint));
    assert_eq!(make(&mut ledger, maker, 1, stranger, mint_a, 100, 50).err(), Some(EscrowError::UnknownMint));
}

#[test]
fn insufficient_maker_balance_is_rejected() {
    let (mut ledger, maker, _taker, mint_a, mint_b) = setup(99, 0);
    let r = make(&mut ledger, maker, 1, mint_a, mint_b, 100, 50);
    assert_eq!(r.err(), Some(EscrowError::InsufficientBalance));
    assert_eq!(ledger.balance_of(&maker, &mint_a), Some(99));
}

#[test]
fn decimals_mismatch_is_rejected() {
    let (mut ledger, maker, taker, mint_a, _mint_b) = setup(100, 0);
    let r = ledger.send_tokens_to_vault(&maker, &taker, &mint_a, 10, 5);
    assert_eq!(r, Err(EscrowError::DecimalsMismatch));
    let ok = ledger.send_tokens_to_vault(&maker, &taker, &mint_a, 10, 6);
    assert_eq!(ok, Ok(()));
    assert_eq!(ledger.balance_of(&taker, &mint_a), Some(10));
    assert_eq!(ledger.balance_of(&maker, &mint_a), Some(90));
}

#[test]
fn duplicate_mint_registration_fails() {
    let (mut ledger, _maker, _taker, mint_a, _mint_b) = setup(0, 0);
    assert_eq!(ledger.register_mint(&mint_a, 9), Err(EscrowError::AlreadyExists));
}

#[test]
fn overflowing_balance_is_rejected() {
    let (mut ledger, maker, _taker, _mint_a, mint_b) = setup(0, 0);
    ledger.mint_to(&maker, &mint_b, u64::MAX).unwrap();
    assert_eq!(ledger.mint_to(&maker, &mint_b, 1), Err(EscrowError::Overflow));
    assert_eq!(ledger.balance_of(&maker, &mint_b), Some(u64::MAX));
}

#[test]
fn derived_address_is_not_the_maker_or_seed_tag() {
    let (mut ledger, maker, _taker, mint_a, mint_b) = setup(100, 0);
    let offer_addr = make(&mut ledger, maker, 1, mint_a, mint_b, 100, 50).unwrap();
    // the derivation hashes the seeds: the result is none of the inputs
    assert_ne!(offer_addr.bytes, maker.bytes);
    assert_ne!(offer_addr.bytes, escrow::pda::PROGRAM_ID_BYTES);
    // the stored bump re-derives the same address, which settlement checks;
    // another id must not
    let offer = ledger.get_offer(&offer_addr).unwrap();
    assert!(escrow::pda::check_offer_address(&maker, 1, offer.bump, &offer_addr));
    assert!(!escrow::pda::check_offer_address(&maker, 2, offer.bump, &offer_addr));
}
