//! The metadata record that `mint` stores for a token and `buy` reads back:
//! `name,token_uri,checksum,price` with the price in decimal.
use vstd::prelude::*;
use vstd::string::StringExecFns;
use crate::error::Error;
use crate::ledger::Ledger;
use vstd::utf8::encode_utf8;
use crate::text::{
    dec_scan, decimal_digits, hex_lower, hex_text, lemma_decimal_no_comma, lemma_scan_decimal, lemma_split_join,
    lemma_split_single, split_commas, split_commas_exec,
};
use crate::wide::{pow64, u256_from_dec_str, u256_to_decimal, Wide256};

verus! {

/// The metadata of a token.
#[derive(Debug)]
pub struct NftMetadata {
    pub name: String,
    pub token_uri: String,
    pub checksum: String,
    pub price: Wide256,
}

/// What a metadata says: three texts and a price.
pub struct MetadataView {
    pub name: Seq<char>,
    pub token_uri: Seq<char>,
    pub checksum: Seq<char>,
    pub price: nat,
}

impl View for NftMetadata {
    type V = MetadataView;

    open spec fn view(&self) -> MetadataView {
        MetadataView {
            name: self.name@,
            token_uri: self.token_uri@,
            checksum: self.checksum@,
            price: self.price.value(),
        }
    }
}

/// The stored record of a metadata.
pub open spec fn metadata_record(m: MetadataView) -> Seq<char> {
    m.name + seq![','] + m.token_uri + seq![','] + m.checksum + seq![','] + decimal_digits(m.price)
}

/// The 32-byte BLAKE2b digest of `data`.
pub uninterp spec fn blake2b_spec(data: Seq<u8>) -> Seq<u8>;

/// `casper_types::crypto::blake2b`: the BLAKE2b digest of `data` with a
/// 32-byte output, a function of `data` alone (the hasher is created fresh
/// for each call, with no key or salt). What the digest is, is not stated:
/// only that equal inputs give equal digests.
#[verifier::external_body]
fn blake2b_digest(data: &[u8]) -> (r: [u8; 32])
    ensures
        r@ == blake2b_spec(data@),
{
    casper_types::crypto::blake2b(data)
}

/// The key under which `mint` files a metadata: the BLAKE2b digest of its
/// record's UTF-8 bytes, in lower-case hex.
pub open spec fn metadata_hash_spec(m: MetadataView) -> Seq<char> {
    hex_lower(blake2b_spec(encode_utf8(metadata_record(m))))
}

/// The key under which `mint` files a metadata.
pub fn metadata_hash(m: &NftMetadata) -> (h: String)
    ensures
        h@ == metadata_hash_spec(m@),
{
    let record = m.to_record();
    let digest = blake2b_digest(record.as_str().as_bytes());
    hex_text(&digest)
}

/// The metadata a stored record holds: its first four comma-separated
/// fields, the fourth read as a 256-bit decimal price; `None` where the
/// record has fewer fields or the price does not read.
pub open spec fn parse_record(r: Seq<char>) -> Option<MetadataView> {
    let parts = split_commas(r);
    if parts.len() < 4 {
        None
    } else {
        match dec_scan(parts[3], pow64(4)) {
            Ok(p) => Some(
                MetadataView { name: parts[0], token_uri: parts[1], checksum: parts[2], price: p },
            ),
            Err(_) => None,
        }
    }
}

impl NftMetadata {
    pub fn new(name: String, token_uri: String, checksum: String, price: Wide256) -> (m: NftMetadata)
        ensures
            m.name == name,
            m.token_uri == token_uri,
            m.checksum == checksum,
            m.price == price,
    {
        NftMetadata { name, token_uri, checksum, price }
    }

    /// The record `mint` stores for this metadata.
    pub fn to_record(&self) -> (r: String)
        ensures
            r@ == metadata_record(self@),
    {
        proof {
            reveal_strlit(",");
        }
        let mut r = self.name.clone();
        r.append(",");
        r.append(self.token_uri.as_str());
        r.append(",");
        r.append(self.checksum.as_str());
        r.append(",");
        let price = u256_to_decimal(&self.price);
        r.append(price.as_str());
        r
    }
}

/// Reads a stored record back into a metadata.
pub fn parse_metadata_record(record: &str) -> (r: Option<NftMetadata>)
    ensures
        match parse_record(record@) {
            Some(v) => r is Some && r->0@ == v,
            None => r is None,
        },
{
    let mut parts = split_commas_exec(record);
    if parts.len() < 4 {
        return None;
    }
    let price = match u256_from_dec_str(parts[3].as_str()) {
        Some(p) => p,
        None => {
            return None;
        },
    };
    let checksum = parts[2].clone();
    let token_uri = parts[1].clone();
    let name = parts[0].clone();
    Some(NftMetadata::new(name, token_uri, checksum, price))
}

/// `get_nft_metadata`: the metadata stored for `token_id`.
/// `MetadataDoesentExist` where none is stored, `MalformedData` where the
/// stored record does not read (the contract panics there).
pub fn get_nft_metadata(ledger: &Ledger, token_id: u64) -> (r: Result<NftMetadata, Error>)
    ensures
        !ledger@.metadatas.contains_key(token_id) ==> r == Err::<NftMetadata, Error>(
            Error::MetadataDoesentExist,
        ),
        ledger@.metadatas.contains_key(token_id) ==> match parse_record(
            ledger@.metadatas[token_id],
        ) {
            Some(v) => r is Ok && r->Ok_0@ == v,
            None => r == Err::<NftMetadata, Error>(Error::MalformedData),
        },
{
    match ledger.metadatas.get(&token_id) {
        None => Err(Error::MetadataDoesentExist),
        Some(record) => match parse_metadata_record(record.as_str()) {
            Some(m) => Ok(m),
            None => Err(Error::MalformedData),
        },
    }
}

/// A record read back gives the metadata it was written from, when the
/// three texts hold no comma.
pub proof fn lemma_record_round_trip(m: MetadataView)
    requires
        !m.name.contains(','),
        !m.token_uri.contains(','),
        !m.checksum.contains(','),
        m.price < pow64(4),
    ensures
        parse_record(metadata_record(m)) == Some(m),
{
    let d = decimal_digits(m.price);
    let a1 = m.name + seq![','] + m.token_uri;
    let a2 = a1 + seq![','] + m.checksum;
    lemma_split_join(m.name, m.token_uri);
    lemma_split_join(a1, m.checksum);
    lemma_split_join(a2, d);
    lemma_split_single(m.name);
    lemma_split_single(m.token_uri);
    lemma_split_single(m.checksum);
    lemma_decimal_no_comma(m.price);
    lemma_split_single(d);
    lemma_scan_decimal(m.price, pow64(4));
    let parts = split_commas(metadata_record(m));
    assert(parts =~= seq![m.name, m.token_uri, m.checksum, d]);
}

} // verus!
