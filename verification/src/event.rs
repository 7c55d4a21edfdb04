//! The events the contract records after each entry point, and the
//! contract package hash they carry.
use vstd::prelude::*;
use vstd::string::StringExecFns;
use casper_types::account::AccountHash;
use casper_types::ContractPackageHash;
use crate::error::Error;
use crate::text::{decimal_digits, hex_lower, u64_to_decimal};
use crate::types::Account;

verus! {

/// One entry of the runtime's call stack.
#[derive(Clone, Copy, Debug)]
pub enum CallFrame {
    Session { account: Account },
    StoredSession { account: Account, contract_package_hash: [u8; 32], contract_hash: [u8; 32] },
    StoredContract { contract_package_hash: [u8; 32], contract_hash: [u8; 32] },
}

/// `contract_package_hash`: the package hash of the stored contract on top
/// of the call stack; `ValueMissing` for an empty stack or another kind of
/// frame on top.
pub fn contract_package_hash(stack: &Vec<CallFrame>) -> (r: Result<[u8; 32], Error>)
    ensures
        stack@.len() == 0 ==> r == Err::<[u8; 32], Error>(Error::ValueMissing),
        stack@.len() > 0 ==> match stack@.last() {
            CallFrame::StoredContract { contract_package_hash, .. } => r == Ok::<[u8; 32], Error>(
                contract_package_hash,
            ),
            _ => r == Err::<[u8; 32], Error>(Error::ValueMissing),
        },
{
    let n = stack.len();
    if n == 0 {
        return Err(Error::ValueMissing);
    }
    match &stack[n - 1] {
        CallFrame::StoredContract { contract_package_hash, .. } => Ok(*contract_package_hash),
        _ => Err(Error::ValueMissing),
    }
}

/// An event of the contract.
#[derive(Clone, Copy, Debug)]
pub enum DropLinkedEvent {
    Mint { recipient: Account, token_id: u64, holder_id: u64, amount: u64 },
    PublishRequest { owner: Account, publisher: Account, amount: u64, holder_id: u64, request_id: u64 },
    DisapprovedPublish { approved_id: u64 },
    CancelRequest { request_id: u64 },
    ApprovedPublish { request_id: u64, approved_id: u64 },
    Buy { amount: u64, approved_id: u64, buyer: Account },
}

/// `AccountHash`'s `Display`: the 32 bytes in lower-case hex.
#[verifier::external_body]
pub(crate) fn account_hash_text(a: &Account) -> (r: String)
    ensures
        r@ == hex_lower(a.hash@),
{
    AccountHash::new(a.hash).to_string()
}

/// `ContractPackageHash`'s `Display`: the 32 bytes in lower-case hex.
#[verifier::external_body]
fn package_hash_text(p: &[u8; 32]) -> (r: String)
    ensures
        r@ == hex_lower(p@),
{
    ContractPackageHash::new(*p).to_string()
}

pub open spec fn decimal_u64(n: u64) -> Seq<char> {
    decimal_digits(n as nat)
}

/// The fields of the record stored for an event: the package hash under
/// `package_key`, then the event type, then the event's own fields.
pub open spec fn event_fields(e: DropLinkedEvent, package_key: Seq<char>, package: Seq<u8>) -> Seq<
    (Seq<char>, Seq<char>),
> {
    let head = seq![(package_key, hex_lower(package))];
    match e {
        DropLinkedEvent::Mint { recipient, token_id, holder_id, amount } => head + seq![
            ("event_type"@, "droplinked_mint"@),
            ("recipient"@, hex_lower(recipient.hash@)),
            ("token_id"@, decimal_u64(token_id)),
            ("holder_id"@, decimal_u64(holder_id)),
            ("amount"@, decimal_u64(amount)),
        ],
        DropLinkedEvent::PublishRequest { owner, publisher, amount, holder_id, request_id } => head
            + seq![
            ("event_type"@, "droplinked_publish_request"@),
            ("owner"@, hex_lower(owner.hash@)),
            ("publisher"@, hex_lower(publisher.hash@)),
            ("amount"@, decimal_u64(amount)),
            ("holder_id"@, decimal_u64(holder_id)),
            ("request_id"@, decimal_u64(request_id)),
        ],
        DropLinkedEvent::DisapprovedPublish { approved_id } => head + seq![
            ("event_type"@, "droplinked_disapproved_publish"@),
            ("approved_id"@, decimal_u64(approved_id)),
        ],
        DropLinkedEvent::CancelRequest { request_id } => head + seq![
            ("event_type"@, "droplinked_cancel_request"@),
            ("request_id"@, decimal_u64(request_id)),
        ],
        DropLinkedEvent::ApprovedPublish { request_id, approved_id } => head + seq![
            ("event_type"@, "droplinked_approved_publish"@),
            ("request_id"@, decimal_u64(request_id)),
            ("approved_id"@, decimal_u64(approved_id)),
        ],
        DropLinkedEvent::Buy { amount, approved_id, buyer } => head + seq![
            ("event_type"@, "droplinked_buy"@),
            ("amount"@, decimal_u64(amount)),
            ("approved_id"@, decimal_u64(approved_id)),
            ("buyer"@, hex_lower(buyer.hash@)),
        ],
    }
}

pub open spec fn pairs_view(s: Seq<(String, String)>) -> Seq<(Seq<char>, Seq<char>)> {
    s.map_values(|p: (String, String)| (p.0@, p.1@))
}

fn push_field(fields: &mut Vec<(String, String)>, key: &str, value: String)
    ensures
        pairs_view(final(fields)@) == pairs_view(old(fields)@).push((key@, value@)),
{
    fields.push((String::from_str(key), value));
    assert(pairs_view(fields@) =~= pairs_view(old(fields)@).push((key@, value@)));
}

/// `emit`: the record of `event` for the contract package `package`, as
/// key/value pairs in the order they are inserted.
pub fn event_record(event: &DropLinkedEvent, package_key: &str, package: &[u8; 32]) -> (r: Vec<
    (String, String),
>)
    ensures
        pairs_view(r@) == event_fields(*event, package_key@, package@),
{
    let mut f: Vec<(String, String)> = Vec::new();
    push_field(&mut f, package_key, package_hash_text(package));
    match event {
        DropLinkedEvent::Mint { recipient, token_id, holder_id, amount } => {
            push_field(&mut f, "event_type", String::from_str("droplinked_mint"));
            push_field(&mut f, "recipient", account_hash_text(recipient));
            push_field(&mut f, "token_id", u64_to_decimal(*token_id));
            push_field(&mut f, "holder_id", u64_to_decimal(*holder_id));
            push_field(&mut f, "amount", u64_to_decimal(*amount));
        },
        DropLinkedEvent::PublishRequest { owner, publisher, amount, holder_id, request_id } => {
            push_field(&mut f, "event_type", String::from_str("droplinked_publish_request"));
            push_field(&mut f, "owner", account_hash_text(owner));
            push_field(&mut f, "publisher", account_hash_text(publisher));
            push_field(&mut f, "amount", u64_to_decimal(*amount));
            push_field(&mut f, "holder_id", u64_to_decimal(*holder_id));
            push_field(&mut f, "request_id", u64_to_decimal(*request_id));
        },
        DropLinkedEvent::DisapprovedPublish { approved_id } => {
            push_field(&mut f, "event_type", String::from_str("droplinked_disapproved_publish"));
            push_field(&mut f, "approved_id", u64_to_decimal(*approved_id));
        },
        DropLinkedEvent::CancelRequest { request_id } => {
            push_field(&mut f, "event_type", String::from_str("droplinked_cancel_request"));
            push_field(&mut f, "request_id", u64_to_decimal(*request_id));
        },
        DropLinkedEvent::ApprovedPublish { request_id, approved_id } => {
            push_field(&mut f, "event_type", String::from_str("droplinked_approved_publish"));
            push_field(&mut f, "request_id", u64_to_decimal(*request_id));
            push_field(&mut f, "approved_id", u64_to_decimal(*approved_id));
        },
        DropLinkedEvent::Buy { amount, approved_id, buyer } => {
            push_field(&mut f, "event_type", String::from_str("droplinked_buy"));
            push_field(&mut f, "amount", u64_to_decimal(*amount));
            push_field(&mut f, "approved_id", u64_to_decimal(*approved_id));
            push_field(&mut f, "buyer", account_hash_text(buyer));
        },
    }
    assert(pairs_view(f@) =~= event_fields(*event, package_key@, package@));
    f
}

} // verus!
