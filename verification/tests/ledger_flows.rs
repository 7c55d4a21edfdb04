use ndpc_contract::entry::{approve, cancel_request, disapprove, init, mint, mint_record, publish_request};
use ndpc_contract::purchase::{buy, price_purchase, read_price_message, settle_buy, BuyQuote};
use ndpc_contract::error::Error;
use ndpc_contract::ledger::Ledger;
use ndpc_contract::metadata::{get_nft_metadata, metadata_hash, parse_metadata_record, NftMetadata};
use ndpc_contract::types::{Account, ApprovedNFT, NFTHolder, PublishRequest, U64list};
use ndpc_contract::wide::{Wide256, Wide512};
use casper_types::bytesrepr::ToBytes;
use casper_types::crypto::sign;
use casper_types::{PublicKey, SecretKey};

/// A price message signed by the verifier key, as signature and key bytes.
fn signed(message: &str) -> (Vec<u8>, Vec<u8>) {
    let secret = SecretKey::ed25519_from_bytes([7u8; 32]).unwrap();
    let public = PublicKey::from(&secret);
    let sig = sign(message, &secret, &public);
    (sig.to_bytes().unwrap(), public.to_bytes().unwrap())
}

fn quote(l: &Ledger, message: &str, approved_id: u64, amount: u64, balance: &Wide512) -> Result<BuyQuote, Error> {
    let (sig, key) = signed(message);
    buy(l, &sig, &key, message, approved_id, amount, Some(*balance))
}

fn acct(b: u8) -> Account {
    Account { hash: [b; 32] }
}

fn meta(name: &str, price: u64) -> NftMetadata {
    NftMetadata::new(
        name.to_string(),
        "ipfs://token".to_string(),
        "abc123".to_string(),
        Wide256 { limbs: [price, 0, 0, 0] },
    )
}

fn wide(x: u64) -> Wide512 {
    Wide512 { limbs: [x, 0, 0, 0, 0, 0, 0, 0] }
}

fn holder(l: &Ledger, id: u64) -> NFTHolder {
    *l.holders.get(&id).expect("holder")
}

fn list(t: &ndpc_contract::table::Table<Account, U64list>, a: Account) -> Vec<u64> {
    t.get(&a).expect("list").list.clone()
}

/// A ledger where producer 1 minted 10 tokens (holder 1) and publisher 2
/// asked for 4 of them (request 1).
fn with_request() -> Ledger {
    let mut l = init(100);
    let r = mint(&mut l, &meta("shirt", 1000), 10, acct(1)).unwrap();
    assert_eq!(r.token_id, 1);
    assert_eq!(r.holder_id, 1);
    let id = publish_request(&mut l, acct(2), acct(1), 1, 4, 10).unwrap();
    assert_eq!(id, 1);
    l
}

#[test]
fn mint_new_token_creates_holder_and_supply() {
    let mut l = init(0);
    let r = mint(&mut l, &meta("shirt", 1000), 10, acct(1)).unwrap();
    assert_eq!((r.token_id, r.holder_id), (1, 1));
    assert_eq!(l.tokens_cnt, 1);
    assert_eq!(l.holders_cnt, 1);
    let h = holder(&l, 1);
    assert_eq!((h.amount, h.remaining_amount, h.token_id), (10, 10, 1));
    assert_eq!(*l.total_supply.get(&1).unwrap(), 10);
    assert_eq!(l.metadatas.get(&1).unwrap().as_str(), "shirt,ipfs://token,abc123,1000");
    assert_eq!(list(&l.owners, acct(1)), vec![1]);
    let key = "6a72aeed0cca5871af6bac6afe7e2a494b7bf95fa4fef292ba0a7d55f4e0a7b5".to_string();
    assert_eq!(*l.token_ids.get(&key).unwrap(), 1);
}

#[test]
fn mint_same_hash_adds_to_existing_holder() {
    let mut l = init(0);
    mint(&mut l, &meta("shirt", 1000), 10, acct(1)).unwrap();
    let r = mint(&mut l, &meta("shirt", 1000), 5, acct(1)).unwrap();
    assert_eq!((r.token_id, r.holder_id), (1, 0));
    let h = holder(&l, 1);
    assert_eq!((h.amount, h.remaining_amount), (15, 15));
    assert_eq!(*l.total_supply.get(&1).unwrap(), 15);
    assert_eq!(l.holders_cnt, 1);
    assert_eq!(l.tokens_cnt, 1);
}

#[test]
fn mint_other_token_appends_holder() {
    let mut l = init(0);
    mint(&mut l, &meta("shirt", 1000), 10, acct(1)).unwrap();
    let r = mint(&mut l, &meta("hat", 20), 3, acct(1)).unwrap();
    assert_eq!((r.token_id, r.holder_id), (2, 2));
    assert_eq!(list(&l.owners, acct(1)), vec![1, 2]);
    let r2 = mint(&mut l, &meta("hat", 20), 7, acct(3)).unwrap();
    assert_eq!((r2.token_id, r2.holder_id), (2, 3));
    assert_eq!(*l.total_supply.get(&2).unwrap(), 10);
}

#[test]
fn mint_holder_not_found_changes_nothing() {
    let mut l = init(0);
    let mut ids = U64list::new();
    ids.add(9);
    l.owners.insert(acct(1), ids);
    let e = mint(&mut l, &meta("shirt", 1000), 10, acct(1)).unwrap_err();
    assert_eq!(e, Error::MintHolderNotFound);
    assert_eq!(l.tokens_cnt, 0);
    assert!(l.metadatas.get(&1).is_none());
}

#[test]
fn mint_overflowing_supply_is_refused() {
    let mut l = init(0);
    mint(&mut l, &meta("shirt", 1000), u64::MAX, acct(1)).unwrap();
    let e = mint(&mut l, &meta("shirt", 1000), 1, acct(3)).unwrap_err();
    assert_eq!(e, Error::ArithmeticOverflow);
    assert_eq!(l.holders_cnt, 1);
}

#[test]
fn publish_request_errors() {
    let mut l = init(0);
    mint(&mut l, &meta("shirt", 1000), 10, acct(1)).unwrap();
    assert_eq!(publish_request(&mut l, acct(2), acct(1), 5, 4, 10), Err(Error::HolderDoesentExist));
    assert_eq!(publish_request(&mut l, acct(2), acct(1), 1, 11, 10), Err(Error::NotEnoughAmount));
    assert_eq!(publish_request(&mut l, acct(2), acct(4), 1, 4, 10), Err(Error::EmptyOwnerShipList));
    mint(&mut l, &meta("hat", 5), 10, acct(4)).unwrap();
    assert_eq!(publish_request(&mut l, acct(2), acct(4), 1, 4, 10), Err(Error::NotOwnerOfHolderId));
    assert_eq!(l.requests_cnt, 0);
}

#[test]
fn publish_request_records_request_in_both_lists() {
    let l = with_request();
    let q: PublishRequest = *l.requests.get(&1).unwrap();
    assert_eq!((q.holder_id, q.amount, q.percentage), (1, 4, 10));
    assert!(q.producer.same(&acct(1)) && q.publisher.same(&acct(2)));
    assert_eq!(list(&l.producer_requests, acct(1)), vec![1]);
    assert_eq!(list(&l.publisher_requests, acct(2)), vec![1]);
    assert_eq!(l.requests_cnt, 1);
}

#[test]
fn approve_reserves_tokens_for_publisher() {
    let mut l = with_request();
    let id = approve(&mut l, acct(1), 1).unwrap();
    assert_eq!(id, 1);
    let h = holder(&l, 1);
    assert_eq!((h.amount, h.remaining_amount), (10, 6));
    let a: ApprovedNFT = *l.approved.get(&1).unwrap();
    assert_eq!((a.holder_id, a.amount, a.token_id, a.percentage), (1, 4, 1, 10));
    assert!(a.owneraccount.same(&acct(1)) && a.publisheraccount.same(&acct(2)));
    assert_eq!(list(&l.publishers_approved, acct(2)), vec![1]);
    assert_eq!(list(&l.producers_approved, acct(1)), vec![1]);
    assert_eq!(list(&l.publisher_requests, acct(2)), Vec::<u64>::new());
    assert_eq!(list(&l.producer_requests, acct(1)), Vec::<u64>::new());
}

#[test]
fn approve_errors() {
    let mut l = with_request();
    assert_eq!(approve(&mut l, acct(1), 9), Err(Error::ValueMissing));
    assert_eq!(approve(&mut l, acct(5), 1), Err(Error::NoTokensFound));
    mint(&mut l, &meta("hat", 5), 10, acct(5)).unwrap();
    assert_eq!(approve(&mut l, acct(5), 1), Err(Error::NotOwnerOfHolderId));
    let id = publish_request(&mut l, acct(2), acct(1), 1, 10, 10).unwrap();
    approve(&mut l, acct(1), 1).unwrap();
    assert_eq!(approve(&mut l, acct(1), id), Err(Error::NotEnoughTokens));
}

#[test]
fn disapprove_returns_tokens() {
    let mut l = with_request();
    approve(&mut l, acct(1), 1).unwrap();
    disapprove(&mut l, acct(1), 1, 1, acct(2)).unwrap();
    assert_eq!(holder(&l, 1).remaining_amount, 7);
    assert_eq!(l.approved.get(&1).unwrap().amount, 3);
    assert_eq!(list(&l.publishers_approved, acct(2)), vec![1]);
    disapprove(&mut l, acct(1), 3, 1, acct(2)).unwrap();
    assert_eq!(holder(&l, 1).remaining_amount, 10);
    assert_eq!(l.approved.get(&1).unwrap().amount, 0);
    assert_eq!(list(&l.publishers_approved, acct(2)), Vec::<u64>::new());
    assert_eq!(list(&l.producers_approved, acct(1)), Vec::<u64>::new());
}

#[test]
fn disapprove_errors() {
    let mut l = with_request();
    assert_eq!(disapprove(&mut l, acct(1), 1, 1, acct(2)), Err(Error::ApprovedHolderDoesentExist));
    approve(&mut l, acct(1), 1).unwrap();
    assert_eq!(disapprove(&mut l, acct(2), 1, 1, acct(2)), Err(Error::NotOwnerOfHolderId));
    assert_eq!(disapprove(&mut l, acct(1), 5, 1, acct(2)), Err(Error::NotEnoughAmount));
    assert_eq!(
        disapprove(&mut l, acct(1), 4, 1, acct(7)),
        Err(Error::PublisherHasNoApprovedHolders)
    );
    l.publishers_approved.insert(acct(7), U64list::new());
    l.producers_approved = ndpc_contract::table::Table::new();
    assert_eq!(
        disapprove(&mut l, acct(1), 4, 1, acct(7)),
        Err(Error::ProducerHasNoApprovedHolders)
    );
    l.holders = ndpc_contract::table::Table::new();
    assert_eq!(disapprove(&mut l, acct(1), 1, 1, acct(2)), Err(Error::HolderDoesentExist));
}

#[test]
fn cancel_request_by_publisher_only() {
    let mut l = with_request();
    assert_eq!(cancel_request(&mut l, acct(1), 1), Err(Error::AccessDenied));
    assert_eq!(cancel_request(&mut l, acct(2), 8), Err(Error::ValueMissing));
    cancel_request(&mut l, acct(2), 1).unwrap();
    assert_eq!(list(&l.publisher_requests, acct(2)), Vec::<u64>::new());
    assert_eq!(list(&l.producer_requests, acct(1)), Vec::<u64>::new());
    assert!(l.requests.get(&1).is_some());
}

#[test]
fn cancel_request_missing_lists() {
    let mut l = with_request();
    l.producer_requests = ndpc_contract::table::Table::new();
    assert_eq!(cancel_request(&mut l, acct(2), 1), Err(Error::EmptyU64List));
    l.publisher_requests = ndpc_contract::table::Table::new();
    assert_eq!(cancel_request(&mut l, acct(2), 1), Err(Error::EmptyU64List));
}

fn approved_ledger() -> Ledger {
    let mut l = with_request();
    approve(&mut l, acct(1), 1).unwrap();
    l
}

#[test]
fn buy_prices_and_splits_payment() {
    let l = approved_ledger();
    let q: BuyQuote = quote(&l, "3,200", 1, 2, &wide(10_000)).unwrap();
    assert_eq!(q.amount_to_pay.limbs[0], 6000);
    assert_eq!(q.producer_part.limbs[0], 5400);
    assert_eq!(q.publisher_part.limbs[0], 600);
    assert_eq!(q.timestamp, 200);
    assert!(q.producer.same(&acct(1)) && q.publisher.same(&acct(2)));
}

#[test]
fn buy_errors() {
    let l = approved_ledger();
    let (sig, key) = signed("3,201");
    assert_eq!(buy(&l, &sig, &key, "3,200", 1, 2, Some(wide(10_000))).unwrap_err(), Error::InvalidSignature);
    assert_eq!(buy(&l, &sig, &[1, 2, 3], "3,201", 1, 2, Some(wide(10_000))).unwrap_err(), Error::InvalidSignature);
    assert_eq!(buy(&l, &[], &key, "3,201", 1, 2, Some(wide(10_000))).unwrap_err(), Error::InvalidSignature);
    assert!(buy(&l, &sig, &key, "3,201", 1, 2, Some(wide(10_000))).is_ok());
    assert_eq!(buy(&l, &sig, &key, "3,201", 1, 2, None).unwrap_err(), Error::ValueMissing);
    assert_eq!(quote(&l, "3", 1, 2, &wide(10_000)).unwrap_err(), Error::MalformedData);
    assert_eq!(quote(&l, "x,200", 1, 2, &wide(10_000)).unwrap_err(), Error::MalformedData);
    assert_eq!(quote(&l, "3,100", 1, 2, &wide(10_000)).unwrap_err(), Error::InvalidTimestamp);
    assert_eq!(
        quote(&l, "3,200", 9, 2, &wide(10_000)).unwrap_err(),
        Error::ApprovedHolderDoesentExist
    );
    assert_eq!(quote(&l, "3,200", 1, 5, &wide(10_000)).unwrap_err(), Error::NotEnoughAmount);
    assert_eq!(quote(&l, "3,200", 1, 2, &wide(5_999)).unwrap_err(), Error::NotEnoughBalance);
    let big = format!("{},200", u64::MAX);
    assert_eq!(quote(&l, &big, 1, 2, &wide(10_000)).unwrap_err(), Error::ArithmeticOverflow);
}

#[test]
fn buy_missing_or_bad_metadata() {
    let mut l = approved_ledger();
    l.metadatas.insert(1, "shirt,uri,cs,12x".to_string());
    assert_eq!(quote(&l, "3,200", 1, 2, &wide(10_000)).unwrap_err(), Error::MalformedData);
    l.metadatas.insert(1, "shirt,uri".to_string());
    assert_eq!(quote(&l, "3,200", 1, 2, &wide(10_000)).unwrap_err(), Error::MalformedData);
    l.metadatas = ndpc_contract::table::Table::new();
    assert_eq!(
        quote(&l, "3,200", 1, 2, &wide(10_000)).unwrap_err(),
        Error::MetadataDoesentExist
    );
}

#[test]
fn buy_percentage_over_hundred_is_refused() {
    let mut l = init(0);
    mint(&mut l, &meta("shirt", 1000), 10, acct(1)).unwrap();
    publish_request(&mut l, acct(2), acct(1), 1, 4, 150).unwrap();
    approve(&mut l, acct(1), 1).unwrap();
    assert_eq!(quote(&l, "1,5", 1, 1, &wide(10_000)).unwrap_err(), Error::ArithmeticOverflow);
}

#[test]
fn settle_buy_moves_tokens_to_buyer() {
    let mut l = approved_ledger();
    let q = quote(&l, "3,200", 1, 4, &wide(100_000)).unwrap();
    let id = settle_buy(&mut l, acct(9), &q).unwrap();
    assert_eq!(id, 2);
    assert_eq!(l.latest_timestamp, 200);
    let seller = holder(&l, 1);
    assert_eq!((seller.amount, seller.remaining_amount), (6, 6));
    let bought = holder(&l, 2);
    assert_eq!((bought.amount, bought.remaining_amount, bought.token_id), (4, 4, 1));
    assert_eq!(l.approved.get(&1).unwrap().amount, 0);
    assert_eq!(list(&l.publishers_approved, acct(2)), Vec::<u64>::new());
    assert_eq!(list(&l.producers_approved, acct(1)), Vec::<u64>::new());
    assert_eq!(list(&l.owners, acct(9)), vec![2]);
    assert_eq!(list(&l.holder_lists, acct(9)), vec![2]);
}

#[test]
fn settle_buy_partial_keeps_lists() {
    let mut l = approved_ledger();
    let q = quote(&l, "1,300", 1, 1, &wide(100_000)).unwrap();
    settle_buy(&mut l, acct(9), &q).unwrap();
    assert_eq!(l.approved.get(&1).unwrap().amount, 3);
    assert_eq!(list(&l.publishers_approved, acct(2)), vec![1]);
    assert_eq!(holder(&l, 1).amount, 9);
}

#[test]
fn settle_buy_errors() {
    let mut l = approved_ledger();
    let q = quote(&l, "3,200", 1, 4, &wide(100_000)).unwrap();
    l.publishers_approved = ndpc_contract::table::Table::new();
    assert_eq!(settle_buy(&mut l, acct(9), &q), Err(Error::ApprovedListDoesentExist));
    l.holders = ndpc_contract::table::Table::new();
    assert_eq!(settle_buy(&mut l, acct(9), &q), Err(Error::HolderDoesentExist));
    assert_eq!(l.latest_timestamp, 100);
}

#[test]
fn price_message_cannot_be_replayed() {
    let mut l = approved_ledger();
    let q = quote(&l, "1,300", 1, 1, &wide(100_000)).unwrap();
    settle_buy(&mut l, acct(9), &q).unwrap();
    assert_eq!(quote(&l, "1,300", 1, 1, &wide(100_000)).unwrap_err(), Error::InvalidTimestamp);
    assert_eq!(settle_buy(&mut l, acct(9), &q), Err(Error::InvalidTimestamp));
    assert!(quote(&l, "1,301", 1, 1, &wide(100_000)).is_ok());
}

#[test]
fn approve_then_disapprove_restores_holder() {
    let mut l = with_request();
    let before = holder(&l, 1);
    let id = approve(&mut l, acct(1), 1).unwrap();
    disapprove(&mut l, acct(1), 4, id, acct(2)).unwrap();
    let after = holder(&l, 1);
    assert_eq!(
        (before.amount, before.remaining_amount, before.token_id),
        (after.amount, after.remaining_amount, after.token_id)
    );
}

#[test]
fn holdings_stay_conserved_through_a_sale() {
    let mut l = approved_ledger();
    let q = quote(&l, "1,300", 1, 3, &wide(100_000)).unwrap();
    settle_buy(&mut l, acct(9), &q).unwrap();
    let h = holder(&l, 1);
    let reserved = l.approved.get(&1).unwrap().amount;
    assert_eq!(h.amount, h.remaining_amount + reserved);
    let b = holder(&l, 2);
    assert_eq!(b.amount, b.remaining_amount);
}

#[test]
fn metadata_reads_back_after_mint() {
    let mut l = init(0);
    let m = meta("shirt", 1000);
    let r = mint(&mut l, &m, 1, acct(1)).unwrap();
    let back = get_nft_metadata(&l, r.token_id).unwrap();
    assert_eq!(back.name, "shirt");
    assert_eq!(back.token_uri, "ipfs://token");
    assert_eq!(back.checksum, "abc123");
    assert_eq!(back.price.limbs, [1000, 0, 0, 0]);
    assert!(matches!(get_nft_metadata(&l, 7), Err(Error::MetadataDoesentExist)));
}

#[test]
fn metadata_record_parsing() {
    let m = parse_metadata_record("a,b,c,340282366920938463463374607431768211456,extra").unwrap();
    assert_eq!(m.name, "a");
    assert_eq!(m.price.limbs, [0, 0, 1, 0]);
    assert!(parse_metadata_record("a,b,c").is_none());
    assert!(parse_metadata_record("a,b,c,-1").is_none());
    let too_big = format!("a,b,c,{}", "9".repeat(80));
    assert!(parse_metadata_record(&too_big).is_none());
    let empty_price = parse_metadata_record("a,b,c,").unwrap();
    assert_eq!(empty_price.price.limbs, [0, 0, 0, 0]);
}

#[test]
fn price_message_reading() {
    assert_eq!(read_price_message("3,200"), Some((3, 200)));
    assert_eq!(read_price_message("+3,200,9"), Some((3, 200)));
    assert_eq!(read_price_message("3"), None);
    assert_eq!(read_price_message(",200"), None);
    assert_eq!(read_price_message("3,-2"), None);
    assert_eq!(read_price_message("18446744073709551616,1"), None);
    assert_eq!(read_price_message("18446744073709551615,1"), Some((u64::MAX, 1)));
}

fn wide_u128(x: u128) -> Wide512 {
    Wide512 { limbs: [x as u64, (x >> 64) as u64, 0, 0, 0, 0, 0, 0] }
}

#[test]
fn buy_with_large_price() {
    let price: u128 = 1_000_000_000_000_000_000_000_000_000_000;
    let mut l = init(0);
    let m = NftMetadata::new(
        "big".to_string(),
        "u".to_string(),
        "c".to_string(),
        Wide256 { limbs: [price as u64, (price >> 64) as u64, 0, 0] },
    );
    mint(&mut l, &m, 10, acct(1)).unwrap();
    publish_request(&mut l, acct(2), acct(1), 1, 4, 10).unwrap();
    approve(&mut l, acct(1), 1).unwrap();
    let to_pay = price * 10;
    let q = quote(&l, "5,7", 1, 2, &wide_u128(to_pay)).unwrap();
    assert_eq!(q.amount_to_pay, wide_u128(to_pay));
    assert_eq!(q.producer_part, wide_u128(price * 9));
    assert_eq!(q.publisher_part, wide_u128(price));
    assert_eq!(quote(&l, "5,7", 1, 2, &wide_u128(to_pay - 1)).unwrap_err(), Error::NotEnoughBalance);
}

#[test]
fn buy_split_rounds_producer_part_down() {
    let mut l = init(0);
    mint(&mut l, &meta("odd", 7), 10, acct(1)).unwrap();
    publish_request(&mut l, acct(2), acct(1), 1, 4, 33).unwrap();
    approve(&mut l, acct(1), 1).unwrap();
    let q = quote(&l, "1,9", 1, 1, &wide(100)).unwrap();
    assert_eq!(q.amount_to_pay.limbs[0], 7);
    assert_eq!(q.producer_part.limbs[0], 4);
    assert_eq!(q.publisher_part.limbs[0], 3);
}

#[test]
fn metadata_hash_is_blake2b_of_the_record_in_hex() {
    let h = metadata_hash(&meta("shirt", 1000));
    assert_eq!(h, "6a72aeed0cca5871af6bac6afe7e2a494b7bf95fa4fef292ba0a7d55f4e0a7b5");
    assert_ne!(metadata_hash(&meta("hat", 1000)), h);
    assert_eq!(metadata_hash(&meta("shirt", 1000)), h);
}

#[test]
fn total_supply_is_what_holders_hold_through_mints_and_a_sale() {
    let mut l = approved_ledger();
    mint(&mut l, &meta("shirt", 1000), 5, acct(3)).unwrap();
    let q = quote(&l, "1,300", 1, 3, &wide(100_000)).unwrap();
    settle_buy(&mut l, acct(9), &q).unwrap();
    let mut held = 0u64;
    for id in l.holders.keys() {
        let h = holder(&l, id);
        if h.token_id == 1 {
            held += h.amount;
        }
    }
    assert_eq!(held, 15);
    assert_eq!(*l.total_supply.get(&1).unwrap(), 15);
}

#[test]
fn an_owner_keeps_one_holder_per_token_when_minting() {
    let mut l = init(0);
    mint(&mut l, &meta("shirt", 1000), 10, acct(1)).unwrap();
    mint(&mut l, &meta("hat", 5), 3, acct(1)).unwrap();
    mint(&mut l, &meta("shirt", 1000), 2, acct(1)).unwrap();
    mint(&mut l, &meta("hat", 5), 4, acct(1)).unwrap();
    let ids = list(&l.owners, acct(1));
    assert_eq!(ids, vec![1, 2]);
    assert_eq!((holder(&l, 1).token_id, holder(&l, 1).amount), (1, 12));
    assert_eq!((holder(&l, 2).token_id, holder(&l, 2).amount), (2, 7));
}

#[test]
fn approve_and_disapprove_keep_holder_balanced() {
    let mut l = with_request();
    let id = approve(&mut l, acct(1), 1).unwrap();
    let h = holder(&l, 1);
    assert_eq!(h.amount, h.remaining_amount + l.approved.get(&id).unwrap().amount);
    disapprove(&mut l, acct(1), 1, id, acct(2)).unwrap();
    let h = holder(&l, 1);
    assert_eq!((h.remaining_amount, l.approved.get(&id).unwrap().amount), (7, 3));
    assert_eq!(h.amount, h.remaining_amount + l.approved.get(&id).unwrap().amount);
}

#[test]
fn cancel_right_after_publish_empties_the_new_lists() {
    let mut l = init(0);
    mint(&mut l, &meta("shirt", 1000), 10, acct(1)).unwrap();
    let id = publish_request(&mut l, acct(2), acct(1), 1, 4, 10).unwrap();
    cancel_request(&mut l, acct(2), id).unwrap();
    assert_eq!(list(&l.publisher_requests, acct(2)), Vec::<u64>::new());
    assert_eq!(list(&l.producer_requests, acct(1)), Vec::<u64>::new());
    let again = publish_request(&mut l, acct(2), acct(1), 1, 2, 10).unwrap();
    let other = publish_request(&mut l, acct(2), acct(1), 1, 3, 10).unwrap();
    cancel_request(&mut l, acct(2), other).unwrap();
    assert_eq!(list(&l.publisher_requests, acct(2)), vec![again]);
    assert_eq!(list(&l.producer_requests, acct(1)), vec![again]);
    assert_eq!(holder(&l, 1).remaining_amount, 10);
}

#[test]
fn price_purchase_takes_the_signature_outcome() {
    let l = approved_ledger();
    let refused = price_purchase(&l, false, "3,200", 1, 2, Some(wide(10_000)));
    assert_eq!(refused.unwrap_err(), Error::InvalidSignature);
    let q = price_purchase(&l, true, "3,200", 1, 2, Some(wide(10_000))).unwrap();
    assert_eq!(q.amount_to_pay.limbs[0], 6000);
    assert_eq!(price_purchase(&l, true, "3,100", 1, 2, Some(wide(10_000))).unwrap_err(), Error::InvalidTimestamp);
    assert_eq!(price_purchase(&l, true, "3,200", 1, 2, None).unwrap_err(), Error::ValueMissing);
}

#[test]
fn mint_record_files_tokens_under_the_given_hash() {
    let mut l = init(0);
    let r = mint_record(&mut l, "k1".to_string(), "a,b,c,1".to_string(), 4, acct(1)).unwrap();
    let again = mint_record(&mut l, "k1".to_string(), "a,b,c,1".to_string(), 1, acct(1)).unwrap();
    let other = mint_record(&mut l, "k2".to_string(), "a,b,c,2".to_string(), 1, acct(1)).unwrap();
    assert_eq!((r.token_id, again.token_id, other.token_id), (1, 1, 2));
    assert_eq!(*l.token_ids.get(&"k1".to_string()).unwrap(), 1);
    assert_eq!(holder(&l, 1).amount, 5);
}
