use ndpc_contract::json::{json_field, metadata_from_json};
use ndpc_contract::error::Error;
use ndpc_contract::event::{contract_package_hash, event_record, CallFrame, DropLinkedEvent};
use ndpc_contract::metadata::NftMetadata;
use ndpc_contract::text::{parse_u64, split_commas_exec, u64_to_decimal};
use ndpc_contract::metadata::parse_metadata_record;
use ndpc_contract::records::{parse_account_hex, parse_request_record, request_record};
use ndpc_contract::types::{Account, PublishRequest, U64list};
use ndpc_contract::wide::Wide256;

#[test]
fn decimal_rendering() {
    assert_eq!(u64_to_decimal(0), "0");
    assert_eq!(u64_to_decimal(7), "7");
    assert_eq!(u64_to_decimal(1234567890), "1234567890");
    assert_eq!(u64_to_decimal(u64::MAX), "18446744073709551615");
}

#[test]
fn u64_parsing_follows_str_parse() {
    for s in ["", "+", "-", "-1", "+12", "12", "007", "1a", " 1", "18446744073709551615", "18446744073709551616"] {
        assert_eq!(parse_u64(s), s.parse::<u64>().ok(), "input {:?}", s);
    }
}

#[test]
fn splitting_at_commas() {
    assert_eq!(split_commas_exec(""), vec![""]);
    assert_eq!(split_commas_exec("a"), vec!["a"]);
    assert_eq!(split_commas_exec("a,,b,"), vec!["a", "", "b", ""]);
    assert_eq!(split_commas_exec("é,ü"), vec!["é", "ü"]);
}

#[test]
fn large_prices_read_and_render() {
    let max = "115792089237316195423570985008687907853269984665640564039457584007913129639935";
    let m = parse_metadata_record(&format!("n,u,c,{}", max)).unwrap();
    assert_eq!(m.price.limbs, [u64::MAX; 4]);
    assert!(parse_metadata_record(&format!("n,u,c,{}", "115792089237316195423570985008687907853269984665640564039457584007913129639936")).is_none());
    assert_eq!(m.to_record(), format!("n,u,c,{}", max));
    let zero = NftMetadata::new("n".to_string(), "u".to_string(), "c".to_string(), Wide256 { limbs: [0; 4] });
    assert_eq!(zero.to_record(), "n,u,c,0");
}

#[test]
fn publish_request_record_round_trip() {
    let r = PublishRequest::new(12, 3400, 15, Account { hash: [0xa5; 32] }, Account { hash: [0x07; 32] });
    let text = request_record(&r);
    assert_eq!(text, format!("12,3400,15,{},{}", "a5".repeat(32), "07".repeat(32)));
    let back = parse_request_record(&text).unwrap();
    assert_eq!((back.holder_id, back.amount, back.percentage), (12, 3400, 15));
    assert_eq!(back.producer.hash, [0xa5; 32]);
    assert_eq!(back.publisher.hash, [0x07; 32]);
    assert!(parse_request_record("1,2,256,00,00").is_none());
    assert!(parse_request_record(&format!("1,2,3,{},{}", "A5".repeat(32), "07".repeat(32))).is_none());
    assert!(parse_request_record(&format!("1,2,3,{}", "a5".repeat(32))).is_none());
    assert!(parse_account_hex(&"0".repeat(63)).is_none());
    assert_eq!(parse_account_hex(&"ff".repeat(32)).unwrap().hash, [0xff; 32]);
}

#[test]
fn metadata_record_rendering() {
    let m = NftMetadata::new("n".to_string(), "u".to_string(), "c".to_string(), Wide256 { limbs: [0, 1, 0, 0] });
    assert_eq!(m.to_record(), "n,u,c,18446744073709551616");
}

#[test]
fn package_hash_from_call_stack() {
    let top = CallFrame::StoredContract { contract_package_hash: [7; 32], contract_hash: [8; 32] };
    let session = CallFrame::Session { account: Account { hash: [1; 32] } };
    assert_eq!(contract_package_hash(&vec![session, top]), Ok([7; 32]));
    assert_eq!(contract_package_hash(&vec![top, session]), Err(Error::ValueMissing));
    assert_eq!(contract_package_hash(&vec![]), Err(Error::ValueMissing));
}

#[test]
fn mint_event_record() {
    let ev = DropLinkedEvent::Mint { recipient: Account { hash: [0xab; 32] }, token_id: 3, holder_id: 0, amount: 12 };
    let r = event_record(&ev, "pkg", &[0x01; 32]);
    let keys: Vec<&str> = r.iter().map(|(k, _)| k.as_str()).collect();
    assert_eq!(keys, vec!["pkg", "event_type", "recipient", "token_id", "holder_id", "amount"]);
    assert_eq!(r[0].1, "01".repeat(32));
    assert_eq!(r[1].1, "droplinked_mint");
    assert_eq!(r[2].1, "ab".repeat(32));
    assert_eq!((r[3].1.as_str(), r[4].1.as_str(), r[5].1.as_str()), ("3", "0", "12"));
}

#[test]
fn other_event_records() {
    let buyer = Account { hash: [0x0f; 32] };
    let r = event_record(&DropLinkedEvent::Buy { amount: 2, approved_id: 5, buyer }, "k", &[0; 32]);
    assert_eq!(r[1].1, "droplinked_buy");
    assert_eq!(r[4].0, "buyer");
    assert_eq!(r[4].1, "0f".repeat(32));
    let r = event_record(&DropLinkedEvent::CancelRequest { request_id: 44 }, "k", &[0; 32]);
    assert_eq!(r.len(), 3);
    assert_eq!(r[2], ("request_id".to_string(), "44".to_string()));
    let r = event_record(&DropLinkedEvent::ApprovedPublish { request_id: 1, approved_id: 2 }, "k", &[0; 32]);
    assert_eq!(r[1].1, "droplinked_approved_publish");
    let r = event_record(&DropLinkedEvent::DisapprovedPublish { approved_id: 9 }, "k", &[0; 32]);
    assert_eq!(r[1].1, "droplinked_disapproved_publish");
    let r = event_record(
        &DropLinkedEvent::PublishRequest { owner: buyer, publisher: buyer, amount: 1, holder_id: 2, request_id: 3 },
        "k",
        &[0; 32],
    );
    assert_eq!(r.len(), 7);
    assert_eq!(r[1].1, "droplinked_publish_request");
}

#[test]
fn user_error_codes() {
    assert_eq!(Error::NotAccountHash.user_code(), Some(0));
    assert_eq!(Error::ProducerHasNoApprovedHolders.user_code(), Some(15));
    assert_eq!(Error::InvalidTimestamp.user_code(), Some(24));
    assert_eq!(Error::ValueMissing.user_code(), None);
    assert_eq!(Error::ArithmeticOverflow.user_code(), None);
}

#[test]
fn id_lists() {
    let mut l = U64list::new();
    l.add(3);
    l.add(5);
    l.add(3);
    assert!(l.contains(5));
    l.remove(3);
    assert_eq!(l.list, vec![5]);
    assert!(!l.contains(3));
    let c = l.duplicate();
    assert_eq!(c.list, vec![5]);
}

#[test]
fn json_metadata_fields() {
    let json = r#"{ "name" : "Shirt", "token_uri":"ipfs://x", "checksum":  "c0ffee" }"#;
    assert_eq!(json_field(json, "name").as_deref(), Some("Shirt"));
    assert_eq!(json_field(json, "token_uri").as_deref(), Some("ipfs://x"));
    assert_eq!(json_field(json, "missing"), None);
    assert_eq!(json_field(r#"{"name" 1}"#, "name"), None);
    assert_eq!(json_field(r#"{"name": 1}"#, "name"), None);
    assert_eq!(json_field(r#"{"name": "open"#, "name"), None);
    let m = metadata_from_json(json, Wide256 { limbs: [5, 0, 0, 0] }).unwrap();
    assert_eq!((m.name.as_str(), m.token_uri.as_str(), m.checksum.as_str()), ("Shirt", "ipfs://x", "c0ffee"));
    assert_eq!(m.price.limbs, [5, 0, 0, 0]);
    assert!(metadata_from_json(r#"{"name":"a","token_uri":"b"}"#, Wide256 { limbs: [0; 4] }).is_none());
}
