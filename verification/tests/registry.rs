use nft_mailbox::contract::Contract;
use nft_mailbox::errors::Error;

fn s(x: &str) -> String {
    x.to_string()
}

/// A contract with owner `alice` and a convenient flat byte price.
fn fresh() -> Contract {
    Contract::new(s("alice"), false).unwrap()
}

const COST: u128 = 10;

fn mint_exact(c: &mut Contract, caller: &str, id: &str, md: &str) -> u128 {
    let required = c
        .required_mint_deposit(&s(caller), &s(id), &s(md), COST)
        .unwrap();
    c.mint(s(caller), required, COST, s(id), s(md)).unwrap()
}

#[test]
fn init_records_owner_and_empty_stores() {
    let c = fresh();
    assert_eq!(c.owner_id, s("alice"));
    assert_eq!(c.total_supply, 0);
    assert!(c.get_tokens().is_empty());
}

#[test]
fn reinit_rejected() {
    let r = Contract::new(s("alice"), true);
    assert_eq!(r.err(), Some(Error::AlreadyInitialized));
}

#[test]
fn init_rejects_empty_owner() {
    let r = Contract::new(s(""), false);
    assert_eq!(r.err(), Some(Error::InvalidAccount));
}

#[test]
fn mint_then_get_token_and_creator() {
    let mut c = fresh();
    mint_exact(&mut c, "bob", "t1", "m");
    let t = c.get_token(s("t1")).unwrap();
    assert_eq!(t.owner_id, s("bob"));
    assert_eq!(t.metadata, s("m"));
    assert!(t.approved_account_ids.is_empty());
    assert_eq!(c.get_token_creator(s("t1")), Some(s("bob")));
    assert_eq!(c.total_supply, 1);
}

#[test]
fn mint_refund_is_excess_over_measured_cost() {
    let mut c = fresh();
    let required = c
        .required_mint_deposit(&s("bob"), &s("t1"), &s("m"), COST)
        .unwrap();
    let refund = c
        .mint(s("bob"), required + 25, COST, s("t1"), s("m"))
        .unwrap();
    assert_eq!(refund, 25);
    // consumed + refunded == attached
    assert_eq!(required + refund, required + 25);
}

#[test]
fn mint_exact_deposit_refunds_nothing() {
    let mut c = fresh();
    assert_eq!(mint_exact(&mut c, "bob", "t1", "m"), 0);
}

#[test]
fn mint_one_unit_below_required_rejected_state_unchanged() {
    let mut c = fresh();
    let required = c
        .required_mint_deposit(&s("bob"), &s("t1"), &s("m"), COST)
        .unwrap();
    let r = c.mint(s("bob"), required - 1, COST, s("t1"), s("m"));
    assert_eq!(r.err(), Some(Error::InsufficientDeposit));
    assert!(c.get_token(s("t1")).is_none());
    assert!(c.get_token_creator(s("t1")).is_none());
    assert_eq!(c.total_supply, 0);
    assert!(c.tokens_per_owner.get(&s("bob")).is_none());
}

#[test]
fn remint_of_existing_id_rejected() {
    let mut c = fresh();
    mint_exact(&mut c, "bob", "t1", "m");
    let r = c.mint(s("carol"), 1_000_000, COST, s("t1"), s("other"));
    assert_eq!(r.err(), Some(Error::TokenExists));
    // the first record is intact
    let t = c.get_token(s("t1")).unwrap();
    assert_eq!(t.owner_id, s("bob"));
    assert_eq!(t.metadata, s("m"));
    assert_eq!(c.total_supply, 1);
}

#[test]
fn supply_counts_tokens_after_every_operation() {
    let mut c = fresh();
    mint_exact(&mut c, "bob", "t1", "m1");
    assert_eq!(c.total_supply, 1);
    assert_eq!(c.get_tokens().len(), 1);
    mint_exact(&mut c, "bob", "t2", "m2");
    assert_eq!(c.total_supply, 2);
    assert_eq!(c.get_tokens().len(), 2);
    c.sale_token(s("bob"), s("t1"), s("carol")).unwrap();
    assert_eq!(c.total_supply, 2);
    assert_eq!(c.get_tokens().len(), 2);
}

#[test]
fn happy_mint_and_sale() {
    let mut c = fresh();
    mint_exact(&mut c, "bob", "t1", "m");
    let t = c.get_token(s("t1")).unwrap();
    assert_eq!(t.owner_id, s("bob"));
    assert_eq!(t.metadata, s("m"));
    assert!(t.approved_account_ids.is_empty());

    c.sale_token(s("bob"), s("t1"), s("carol")).unwrap();
    let t = c.get_token(s("t1")).unwrap();
    assert_eq!(t.owner_id, s("carol"));
    assert_eq!(t.metadata, s("m"));
    assert!(t.approved_account_ids.is_empty());

    // the per-owner index moved the id from bob to carol
    assert!(c.tokens_per_owner.get(&s("bob")).is_none());
    let carols = c.tokens_per_owner.get(&s("carol")).unwrap();
    assert!(carols.contains(&s("t1")));
}

#[test]
fn transfer_keeps_creator() {
    let mut c = fresh();
    mint_exact(&mut c, "bob", "t1", "m");
    c.sale_token(s("bob"), s("t1"), s("carol")).unwrap();
    assert_eq!(c.get_token_creator(s("t1")), Some(s("bob")));
    c.sale_token(s("carol"), s("t1"), s("dave")).unwrap();
    assert_eq!(c.get_token_creator(s("t1")), Some(s("bob")));
}

#[test]
fn transfer_by_stranger_rejected_state_unchanged() {
    let mut c = fresh();
    mint_exact(&mut c, "bob", "t1", "m");
    let r = c.nft_transfer(s("mallory"), s("carol"), s("t1"), None, None);
    assert_eq!(r.err(), Some(Error::Unauthorized));
    assert_eq!(c.get_token(s("t1")).unwrap().owner_id, s("bob"));
    let bobs = c.tokens_per_owner.get(&s("bob")).unwrap();
    assert!(bobs.contains(&s("t1")));
}

#[test]
fn transfer_to_current_owner_rejected() {
    let mut c = fresh();
    mint_exact(&mut c, "bob", "t1", "m");
    let r = c.nft_transfer(s("bob"), s("bob"), s("t1"), None, None);
    assert_eq!(r.err(), Some(Error::SelfTransfer));
    assert_eq!(c.get_token(s("t1")).unwrap().owner_id, s("bob"));
}

#[test]
fn transfer_of_unknown_token_rejected() {
    let mut c = fresh();
    let r = c.nft_transfer(s("bob"), s("carol"), s("nope"), None, None);
    assert_eq!(r.err(), Some(Error::TokenMissing));
}

#[test]
fn transfer_to_empty_receiver_rejected() {
    let mut c = fresh();
    mint_exact(&mut c, "bob", "t1", "m");
    let r = c.nft_transfer(s("bob"), s(""), s("t1"), None, None);
    assert_eq!(r.err(), Some(Error::InvalidAccount));
}

#[test]
fn approval_id_and_memo_ride_along() {
    let mut c = fresh();
    mint_exact(&mut c, "bob", "t1", "m");
    c.nft_transfer(s("bob"), s("carol"), s("t1"), Some(7), Some(s("gift")))
        .unwrap();
    assert_eq!(c.get_token(s("t1")).unwrap().owner_id, s("carol"));
}

#[test]
fn token_stays_in_exactly_one_owner_set() {
    let mut c = fresh();
    mint_exact(&mut c, "bob", "t1", "m1");
    mint_exact(&mut c, "bob", "t2", "m2");
    c.sale_token(s("bob"), s("t1"), s("carol")).unwrap();
    let bobs = c.tokens_per_owner.get(&s("bob")).unwrap();
    assert!(!bobs.contains(&s("t1")));
    assert!(bobs.contains(&s("t2")));
    let carols = c.tokens_per_owner.get(&s("carol")).unwrap();
    assert!(carols.contains(&s("t1")));
    assert!(!carols.contains(&s("t2")));
}

#[test]
fn get_tokens_dumps_every_record() {
    let mut c = fresh();
    mint_exact(&mut c, "bob", "t1", "m1");
    mint_exact(&mut c, "carol", "t2", "m2");
    let all = c.get_tokens();
    assert_eq!(all.len(), 2);
    let t1 = all.iter().find(|e| e.0 == s("t1")).unwrap();
    assert_eq!(t1.1.owner_id, s("bob"));
    assert_eq!(t1.1.metadata, s("m1"));
    let t2 = all.iter().find(|e| e.0 == s("t2")).unwrap();
    assert_eq!(t2.1.owner_id, s("carol"));
    assert_eq!(t2.1.metadata, s("m2"));
}

#[test]
fn unpayable_storage_cost_rejected() {
    let mut c = fresh();
    // the required deposit does not fit the value width, so no deposit covers it
    let r = c.mint(s("bob"), u128::MAX, u128::MAX, s("t1"), s("m"));
    assert_eq!(r.err(), Some(Error::InsufficientDeposit));
    assert!(c.get_token(s("t1")).is_none());
}

#[test]
fn zero_byte_cost_mints_for_free() {
    let mut c = fresh();
    assert_eq!(c.required_mint_deposit(&s("bob"), &s("t1"), &s("m"), 0), Some(0));
    let refund = c.mint(s("bob"), 0, 0, s("t1"), s("m")).unwrap();
    assert_eq!(refund, 0);
    assert_eq!(c.get_token(s("t1")).unwrap().owner_id, s("bob"));
}

#[test]
fn owner_set_creation_charged_once() {
    let mut c = fresh();
    let first = c
        .required_mint_deposit(&s("bob"), &s("t1"), &s("m"), COST)
        .unwrap();
    mint_exact(&mut c, "bob", "t1", "m");
    let second = c
        .required_mint_deposit(&s("bob"), &s("t1"), &s("m"), COST)
        .unwrap();
    // bob's per-owner set now exists, so the quote shrinks
    assert!(second < first);
}
