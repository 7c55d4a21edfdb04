//! The entry point `buy`, which moves money between its two halves: `buy`
//! checks and prices the purchase, the caller transfers the two parts, and
//! `settle_buy` records it.
use vstd::prelude::*;
use casper_types::bytesrepr::FromBytes;
use casper_types::{PublicKey, Signature};
use crate::entry::{append_id, remove_id};
use crate::error::Error;
use crate::ledger::Ledger;
use crate::metadata::get_nft_metadata;
use crate::model::{buy_spec, parse_price_message, settle_buy_spec, BuyTerms};
use crate::text::{lemma_scan_decimal, parse_u64, split_commas_exec};
use crate::types::{Account, ApprovedNFT, NFTHolder};
use crate::wide::{
    lemma_pow64_values, pow64, u256_to_decimal, u512_div, u512_from_dec_str, u512_from_u64,
    u512_lt, u512_mul, u512_mul_u64, u512_sub, Wide512,
};

verus! {

/// Reads a signed price message `ratio,timestamp`.
pub fn read_price_message(message: &str) -> (r: Option<(u64, u64)>)
    ensures
        r == parse_price_message(message@),
{
    let parts = split_commas_exec(message);
    if parts.len() < 2 {
        return None;
    }
    let ratio = parse_u64(parts[0].as_str());
    let timestamp = parse_u64(parts[1].as_str());
    match (ratio, timestamp) {
        (Some(r), Some(t)) => Some((r, t)),
        _ => None,
    }
}

/// What the buyer pays and to whom, once `buy` has checked the purchase.
#[derive(Clone, Copy, Debug)]
pub struct BuyQuote {
    pub approved_id: u64,
    pub amount: u64,
    pub timestamp: u64,
    /// owner of the approved tokens, who gets `producer_part`
    pub producer: Account,
    /// publisher of the approval, who gets `publisher_part`
    pub publisher: Account,
    pub amount_to_pay: Wide512,
    pub producer_part: Wide512,
    pub publisher_part: Wide512,
}

impl BuyQuote {
    /// The quote carries the terms `t` for this purchase.
    pub open spec fn states(&self, t: BuyTerms, approved_id: u64, amount: u64) -> bool {
        &&& self.approved_id == approved_id
        &&& self.amount == amount
        &&& self.timestamp == t.timestamp
        &&& self.producer == t.approval.owneraccount
        &&& self.publisher == t.approval.publisheraccount
        &&& self.amount_to_pay.value() == t.amount_to_pay
        &&& self.producer_part.value() == t.producer_part
        &&& self.publisher_part.value() == t.publisher_part
    }
}

/// Whether `signature` is a valid signature of `message` under `key`
/// (both given in their byte encodings).
pub uninterp spec fn signature_valid(message: Seq<char>, signature: Seq<u8>, key: Seq<u8>) -> bool;

/// `casper_types::crypto::verify` of the message's bytes, with the
/// signature and the public key read from their byte encodings
/// (`FromBytes`); false where either encoding does not read. Its result is
/// a function of the three arguments, named `signature_valid`; what that
/// function is (the signature schemes) is not stated here.
#[verifier::external_body]
fn verify_price_signature(message: &str, signature: &[u8], key: &[u8]) -> (r: bool)
    ensures
        r == signature_valid(message@, signature@, key@),
{
    match (Signature::from_bytes(signature), PublicKey::from_bytes(key)) {
        (Ok((sig, _)), Ok((public_key, _))) => {
            casper_types::crypto::verify(message.as_bytes(), &sig, &public_key).is_ok()
        },
        _ => false,
    }
}

/// Entry point `buy`, first half: the caller wants `amount` tokens of
/// approval `approved_id` at the price ratio of a price message signed by
/// the contract's price verifier key. Checks the signature, then does the
/// rest as `price_purchase`. The money is then moved, and `settle_buy`
/// records the purchase.
pub fn buy(
    ledger: &Ledger,
    signature: &[u8],
    verifier_key: &[u8],
    price_message: &str,
    approved_id: u64,
    amount: u64,
    purse_balance: Option<Wide512>,
) -> (r: Result<BuyQuote, Error>)
    ensures
        match buy_spec(
            ledger@,
            signature_valid(price_message@, signature@, verifier_key@),
            price_message@,
            approved_id,
            amount,
            match purse_balance {
                Some(b) => Some(b.value()),
                None => None::<nat>,
            },
        ) {
            Ok(t) => r is Ok && r->Ok_0.states(t, approved_id, amount),
            Err(e) => r == Err::<BuyQuote, Error>(e),
        },
{
    let signature_ok = verify_price_signature(price_message, signature, verifier_key);
    price_purchase(ledger, signature_ok, price_message, approved_id, amount, purse_balance)
}

/// `buy` once the signature has been checked (`signature_ok`): checks the
/// message, its timestamp, the purse, the approval and the stored metadata,
/// prices the purchase and checks the purse balance.
pub fn price_purchase(
    ledger: &Ledger,
    signature_ok: bool,
    price_message: &str,
    approved_id: u64,
    amount: u64,
    purse_balance: Option<Wide512>,
) -> (r: Result<BuyQuote, Error>)
    ensures
        match buy_spec(
            ledger@,
            signature_ok,
            price_message@,
            approved_id,
            amount,
            match purse_balance {
                Some(b) => Some(b.value()),
                None => None::<nat>,
            },
        ) {
            Ok(t) => r is Ok && r->Ok_0.states(t, approved_id, amount),
            Err(e) => r == Err::<BuyQuote, Error>(e),
        },
{
    if !signature_ok {
        return Err(Error::InvalidSignature);
    }
    let (ratio, timestamp) = match read_price_message(price_message) {
        Some(p) => p,
        None => {
            return Err(Error::MalformedData);
        },
    };
    if timestamp <= ledger.latest_timestamp {
        return Err(Error::InvalidTimestamp);
    }
    let balance = match purse_balance {
        Some(b) => b,
        None => {
            return Err(Error::ValueMissing);
        },
    };
    let a: ApprovedNFT = match ledger.approved.get(&approved_id) {
        Some(a) => *a,
        None => {
            return Err(Error::ApprovedHolderDoesentExist);
        },
    };
    if amount > a.amount {
        return Err(Error::NotEnoughAmount);
    }
    let md = match get_nft_metadata(ledger, a.token_id) {
        Ok(md) => md,
        Err(e) => {
            return Err(e);
        },
    };
    let units = match amount.checked_mul(ratio) {
        Some(k) => k,
        None => {
            return Err(Error::ArithmeticOverflow);
        },
    };
    if a.percentage > 100 {
        return Err(Error::ArithmeticOverflow);
    }
    let price_text = u256_to_decimal(&md.price);
    proof {
        md.price.lemma_bound();
        lemma_pow64_values();
        assert(pow64(4) < pow64(8));
        lemma_scan_decimal(md.price.value(), pow64(8));
    }
    let price = match u512_from_dec_str(price_text.as_str()) {
        Some(p) => p,
        None => Wide512 { limbs: [0, 0, 0, 0, 0, 0, 0, 0] },
    };
    let ghost p = price.value();
    let ghost b: nat = 0x1_0000_0000_0000_0000;
    proof {
        assert(p * units < pow64(5)) by (nonlinear_arith)
            requires
                p < pow64(4),
                units < b,
                pow64(5) == pow64(4) * b,
        ;
        assert(pow64(5) * 101 < pow64(8)) by (nonlinear_arith)
            requires
                pow64(8) == pow64(5) * b * b * b,
                b == 0x1_0000_0000_0000_0000,
                pow64(5) > 0,
        ;
    }
    let to_pay = u512_mul_u64(&price, units);
    let hundred = u512_from_u64(100);
    let publisher_percent = u512_from_u64(a.percentage as u64);
    let producer_percent = u512_sub(&hundred, &publisher_percent);
    let ghost t = to_pay.value();
    let ghost q = producer_percent.value();
    proof {
        assert(t * q < pow64(8)) by (nonlinear_arith)
            requires
                t < pow64(5),
                q <= 100,
                pow64(5) * 101 < pow64(8),
        ;
        assert(t * q / 100 <= t) by (nonlinear_arith)
            requires
                q <= 100,
        ;
    }
    let producer_share = u512_mul(&to_pay, &producer_percent);
    let producer_part = u512_div(&producer_share, &hundred);
    let publisher_part = u512_sub(&to_pay, &producer_part);
    if u512_lt(&balance, &to_pay) {
        return Err(Error::NotEnoughBalance);
    }
    Ok(
        BuyQuote {
            approved_id,
            amount,
            timestamp,
            producer: a.owneraccount,
            publisher: a.publisheraccount,
            amount_to_pay: to_pay,
            producer_part,
            publisher_part,
        },
    )
}

/// Entry point `buy`, second half, once both transfers of `quote` went
/// through: records the new latest timestamp, takes the bought amount off
/// the approval and off the seller's holder (an approval brought to zero
/// leaves both approval lists), and gives the caller a new holder of the
/// bought amount, listed under the caller in the holders and the owners
/// dictionaries. Returns the new holder id.
///
/// The bought tokens always go to a new holder, even where the buyer
/// already holds the same token: merging them into that holder is a
/// planned change of the contract that this function does not make.
pub fn settle_buy(ledger: &mut Ledger, caller: Account, quote: &BuyQuote) -> (r: Result<u64, Error>)
    ensures
        match settle_buy_spec(old(ledger)@, caller, quote.approved_id, quote.amount, quote.timestamp) {
            Ok((m, id)) => r == Ok::<u64, Error>(id) && final(ledger)@ == m,
            Err(e) => r == Err::<u64, Error>(e) && final(ledger)@ == old(ledger)@,
        },
{
    let approved_id = quote.approved_id;
    let amount = quote.amount;
    if quote.timestamp <= ledger.latest_timestamp {
        return Err(Error::InvalidTimestamp);
    }
    let a: ApprovedNFT = match ledger.approved.get(&approved_id) {
        Some(a) => *a,
        None => {
            return Err(Error::ApprovedHolderDoesentExist);
        },
    };
    if amount > a.amount {
        return Err(Error::NotEnoughAmount);
    }
    let left = a.amount - amount;
    let h: NFTHolder = match ledger.holders.get(&a.holder_id) {
        Some(h) => *h,
        None => {
            return Err(Error::HolderDoesentExist);
        },
    };
    if h.amount < amount {
        return Err(Error::ArithmeticOverflow);
    }
    if left == 0 && !ledger.publishers_approved.contains(&a.publisheraccount) {
        return Err(Error::ApprovedListDoesentExist);
    }
    if left == 0 && !ledger.producers_approved.contains(&a.owneraccount) {
        return Err(Error::ApprovedListDoesentExist);
    }
    if ledger.holders_cnt == u64::MAX {
        return Err(Error::ArithmeticOverflow);
    }
    let ghost m0 = ledger@;
    ledger.latest_timestamp = quote.timestamp;
    ledger.holders.insert(a.holder_id, NFTHolder::new(h.amount - amount, h.remaining_amount, h.token_id));
    if left == 0 {
        remove_id(&mut ledger.publishers_approved, a.publisheraccount, approved_id);
        remove_id(&mut ledger.producers_approved, a.owneraccount, approved_id);
    }
    ledger.approved.insert(
        approved_id,
        ApprovedNFT::new(a.holder_id, left, a.owneraccount, a.publisheraccount, a.token_id, a.percentage),
    );
    let id = ledger.holders_cnt + 1;
    ledger.holders_cnt = id;
    ledger.holders.insert(id, NFTHolder::new(amount, amount, a.token_id));
    append_id(&mut ledger.holder_lists, caller, id);
    append_id(&mut ledger.owners, caller, id);
    proof {
        let (m, hid) = settle_buy_spec(m0, caller, approved_id, amount, quote.timestamp).unwrap();
        assert(ledger@ =~= m);
    }
    Ok(id)
}

} // verus!
