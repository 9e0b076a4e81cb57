use nft_mailbox::contract::Contract;
use nft_mailbox::errors::Error;
use nft_mailbox::hashing::{encode_account_pair, hash_account, AccountPair};

fn s(x: &str) -> String {
    x.to_string()
}

const COST: u128 = 10;

fn fresh() -> Contract {
    Contract::new(s("alice"), false).unwrap()
}

fn mint_exact(c: &mut Contract, caller: &str, id: &str, md: &str) {
    let required = c
        .required_mint_deposit(&s(caller), &s(id), &s(md), COST)
        .unwrap();
    c.mint(s(caller), required, COST, s(id), s(md)).unwrap();
}

#[test]
fn set_key_then_get_key() {
    let mut c = fresh();
    c.set_key(s("alice"), s("K_a"));
    assert_eq!(c.get_key(s("alice")), Some(s("K_a")));
    assert_eq!(c.get_key(s("bob")), None);
}

#[test]
fn get_key_returns_last_set_value() {
    let mut c = fresh();
    c.set_key(s("alice"), s("K_1"));
    c.set_key(s("bob"), s("K_b"));
    c.set_key(s("alice"), s("K_2"));
    assert_eq!(c.get_key(s("alice")), Some(s("K_2")));
    assert_eq!(c.get_key(s("bob")), Some(s("K_b")));
}

#[test]
fn request_then_get() {
    let mut c = fresh();
    c.request(s("alice"), s("bob"), s("hello"));
    assert_eq!(c.get_request(s("alice"), s("bob")), Some(s("hello")));
    assert_eq!(c.get_response(s("alice"), s("bob")), None);
}

#[test]
fn request_is_directional() {
    let mut c = fresh();
    c.request(s("alice"), s("bob"), s("x"));
    assert_eq!(c.get_request(s("alice"), s("bob")), Some(s("x")));
    assert_eq!(c.get_request(s("bob"), s("alice")), None);
}

#[test]
fn request_then_respond_round_trip() {
    let mut c = fresh();
    c.request(s("alice"), s("bob"), s("p"));
    // bob answers on the edge alice used, naming the requester
    c.respond(s("bob"), s("alice"), s("q"));
    assert_eq!(c.get_response(s("alice"), s("bob")), Some(s("q")));
    assert_eq!(c.get_request(s("alice"), s("bob")), Some(s("p")));
}

#[test]
fn new_request_invalidates_stale_response() {
    let mut c = fresh();
    c.request(s("alice"), s("bob"), s("q1"));
    c.respond(s("bob"), s("alice"), s("a1"));
    c.request(s("alice"), s("bob"), s("q2"));
    assert_eq!(c.get_request(s("alice"), s("bob")), Some(s("q2")));
    assert_eq!(c.get_response(s("alice"), s("bob")), None);
}

#[test]
fn request_respond_via_token_indirection() {
    let mut c = fresh();
    mint_exact(&mut c, "bob", "t1", "m");
    c.sale_token(s("bob"), s("t1"), s("carol")).unwrap();

    c.set_key(s("carol"), s("K_c"));
    assert_eq!(
        c.get_key_by_token_owner(s("t1")).unwrap(),
        Some(s("K_c"))
    );

    // bob, the creator, asks the current owner to sign
    c.request_by_token(s("bob"), s("t1"), s("please_sign")).unwrap();
    assert_eq!(c.get_request(s("bob"), s("carol")), Some(s("please_sign")));

    // carol answers on the edge from the creator
    c.respond_by_token(s("carol"), s("t1"), s("signed")).unwrap();
    assert_eq!(
        c.get_response_by_token(s("bob"), s("t1")).unwrap(),
        Some(s("signed"))
    );
}

#[test]
fn get_request_by_token_reads_creator_edge() {
    let mut c = fresh();
    mint_exact(&mut c, "bob", "t1", "m");
    c.request(s("bob"), s("carol"), s("reveal"));
    assert_eq!(
        c.get_request_by_token(s("carol"), s("t1")).unwrap(),
        Some(s("reveal"))
    );
}

#[test]
fn get_key_by_token_creator_reads_creator_key() {
    let mut c = fresh();
    mint_exact(&mut c, "bob", "t1", "m");
    c.set_key(s("bob"), s("K_b"));
    c.sale_token(s("bob"), s("t1"), s("carol")).unwrap();
    assert_eq!(
        c.get_key_by_token_creator(s("t1")).unwrap(),
        Some(s("K_b"))
    );
    assert_eq!(c.get_key_by_token_owner(s("t1")).unwrap(), None);
}

#[test]
fn token_indirection_rejects_unknown_token() {
    let mut c = fresh();
    assert_eq!(
        c.request_by_token(s("bob"), s("nope"), s("p")).err(),
        Some(Error::TokenMissing)
    );
    assert_eq!(
        c.respond_by_token(s("bob"), s("nope"), s("p")).err(),
        Some(Error::TokenMissing)
    );
    assert_eq!(
        c.get_request_by_token(s("bob"), s("nope")).err(),
        Some(Error::TokenMissing)
    );
    assert_eq!(
        c.get_response_by_token(s("bob"), s("nope")).err(),
        Some(Error::TokenMissing)
    );
    assert_eq!(
        c.get_key_by_token_owner(s("nope")).err(),
        Some(Error::TokenMissing)
    );
    assert_eq!(
        c.get_key_by_token_creator(s("nope")).err(),
        Some(Error::TokenMissing)
    );
}

#[test]
fn hash_account_is_sha256_of_utf8_bytes() {
    // SHA-256 of the empty byte string, a published constant
    let expected: [u8; 32] = [
        0xe3, 0xb0, 0xc4, 0x42, 0x98, 0xfc, 0x1c, 0x14, 0x9a, 0xfb, 0xf4, 0xc8, 0x99, 0x6f,
        0xb9, 0x24, 0x27, 0xae, 0x41, 0xe4, 0x64, 0x9b, 0x93, 0x4c, 0xa4, 0x95, 0x99, 0x1b,
        0x78, 0x52, 0xb8, 0x55,
    ];
    assert_eq!(hash_account(""), expected.to_vec());
    let h = hash_account("alice");
    assert_eq!(h.len(), 32);
    assert_ne!(h, hash_account("bob"));
    assert_eq!(h, hash_account("alice"));
}

#[test]
fn pair_encoding_is_length_prefixed() {
    let e = encode_account_pair("ab", "c");
    assert_eq!(
        e,
        vec![2, 0, 0, 0, b'a', b'b', 1, 0, 0, 0, b'c']
    );
}

#[test]
fn pair_hash_is_directional() {
    let ab = AccountPair {
        from_account_id: s("alice"),
        to_account_id: s("bob"),
    };
    let ba = ab.reverse();
    assert_eq!(ba.from_account_id, s("bob"));
    assert_eq!(ba.to_account_id, s("alice"));
    assert_ne!(ab.hash(), ba.hash());
    assert_eq!(ab.hash().len(), 32);
    assert_eq!(ab.hash(), ab.hash());
}
