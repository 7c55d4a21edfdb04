//! The decisions of the contract's entry points, as functions on a ledger.
//! Each one either returns `Ok` with the ledger changed as its `*_spec`
//! says, or returns the error and leaves the ledger as it was (a reverted
//! call commits nothing).
use vstd::prelude::*;
use crate::error::Error;
use crate::ledger::{Ledger, LedgerModel};
use crate::metadata::{metadata_hash, metadata_hash_spec, metadata_record, NftMetadata};
use crate::model::{
    approve_spec, cancel_request_spec, disapprove_spec, lemma_mint_scan_found, mint_scan, mint_spec,
    publish_request_spec, push_or_new, take_out, MintReceipt, MintScan,
};
use crate::table::Table;
use crate::types::{Account, ApprovedNFT, NFTHolder, PublishRequest, U64list};

verus! {

/// Appends `id` to the list under `a`, creating the list if needed.
pub(crate) fn append_id(t: &mut Table<Account, U64list>, a: Account, id: u64)
    ensures
        final(t)@ == push_or_new(old(t)@, a, id),
{
    let list = match t.get(&a) {
        Some(l) => {
            let mut c = l.duplicate();
            c.add(id);
            c
        },
        None => {
            let mut c = U64list::new();
            c.add(id);
            assert(c@ =~= seq![id]);
            c
        },
    };
    t.insert(a, list);
}

/// Takes every `id` out of the list under `a`, which must exist.
pub(crate) fn remove_id(t: &mut Table<Account, U64list>, a: Account, id: u64)
    requires
        old(t)@.contains_key(a),
    ensures
        final(t)@ == take_out(old(t)@, a, id),
{
    let mut c = match t.get(&a) {
        Some(l) => l.duplicate(),
        None => U64list::new(),
    };
    c.remove(id);
    t.insert(a, c);
}

/// Whether the owner `a` has holder `id` in its list.
fn owns_holder(t: &Table<Account, U64list>, a: &Account, id: u64) -> (r: Option<bool>)
    ensures
        match r {
            Some(b) => t@.contains_key(*a) && b == t@[*a].contains(id),
            None => !t@.contains_key(*a),
        },
{
    match t.get(a) {
        Some(l) => Some(l.contains(id)),
        None => None,
    }
}

/// Walks `ids` in order as `mint` does.
fn scan_holders(holders: &Table<u64, NFTHolder>, ids: &U64list, token_id: u64) -> (r: MintScan)
    ensures
        r == mint_scan(holders@, ids@, token_id),
{
    let n = ids.list.len();
    let mut i: usize = 0;
    assert(ids@.subrange(0, n as int) =~= ids@);
    while i < n
        invariant
            n == ids@.len(),
            0 <= i <= n,
            mint_scan(holders@, ids@, token_id) == mint_scan(
                holders@,
                ids@.subrange(i as int, n as int),
                token_id,
            ),
        decreases n - i,
    {
        let id = ids.list[i];
        let ghost rest = ids@.subrange(i as int, n as int);
        assert(rest[0] == id);
        match holders.get(&id) {
            None => {
                return MintScan::Missing;
            },
            Some(h) => {
                if h.token_id == token_id {
                    return MintScan::Found(id);
                }
            },
        }
        assert(rest.drop_first() =~= ids@.subrange(i + 1, n as int));
        i = i + 1;
    }
    MintScan::Absent
}

/// How `mint` credits the recipient.
enum Placement {
    /// a new holder and a new owner list
    NewList,
    /// the existing holder `id`, which becomes `holder`
    Update(u64, NFTHolder),
    /// a new holder appended to the owner's list
    Append,
}

/// Entry point `init` (with the counters the contract is installed with):
/// a ledger with all counters at zero and every dictionary empty.
pub fn init(latest_timestamp: u64) -> (l: Ledger)
    ensures
        l@ == LedgerModel::with_counters(0, 0, 0, 0, latest_timestamp),
{
    Ledger::new(0, 0, 0, 0, latest_timestamp)
}

/// `mint` with the metadata already rendered: its hash and its record.
pub fn mint_record(
    ledger: &mut Ledger,
    hash: String,
    record: String,
    amount: u64,
    recipient: Account,
) -> (r: Result<MintReceipt, Error>)
    ensures
        match mint_spec(old(ledger)@, hash@, record@, amount, recipient) {
            Ok((m, receipt)) => r == Ok::<MintReceipt, Error>(receipt) && final(ledger)@ == m,
            Err(e) => r == Err::<MintReceipt, Error>(e) && final(ledger)@ == old(ledger)@,
        },
{
    let known: Option<u64> = match ledger.token_ids.get(&hash) {
        Some(t) => Some(*t),
        None => None,
    };
    let token_id = match known {
        Some(t) => t,
        None => {
            if ledger.tokens_cnt == u64::MAX {
                return Err(Error::ArithmeticOverflow);
            }
            ledger.tokens_cnt + 1
        },
    };
    let placement = match ledger.owners.get(&recipient) {
        None => {
            if ledger.holders_cnt == u64::MAX {
                return Err(Error::ArithmeticOverflow);
            }
            Placement::NewList
        },
        Some(list) => {
            proof {
                lemma_mint_scan_found(ledger.holders@, list@, token_id);
            }
            match scan_holders(&ledger.holders, list, token_id) {
                MintScan::Missing => {
                    return Err(Error::MintHolderNotFound);
                },
                MintScan::Found(h) => {
                    let old: NFTHolder = match ledger.holders.get(&h) {
                        Some(x) => *x,
                        None => {
                            return Err(Error::MintHolderNotFound);
                        },
                    };
                    if old.amount > u64::MAX - amount || old.remaining_amount > u64::MAX - amount {
                        return Err(Error::ArithmeticOverflow);
                    }
                    Placement::Update(
                        h,
                        NFTHolder::new(old.amount + amount, old.remaining_amount + amount, old.token_id),
                    )
                },
                MintScan::Absent => {
                    if ledger.holders_cnt == u64::MAX {
                        return Err(Error::ArithmeticOverflow);
                    }
                    Placement::Append
                },
            }
        },
    };
    let supply: u64 = match ledger.total_supply.get(&token_id) {
        Some(s) => {
            if *s > u64::MAX - amount {
                return Err(Error::ArithmeticOverflow);
            }
            *s + amount
        },
        None => amount,
    };
    let ghost m0 = ledger@;
    if known.is_none() {
        ledger.tokens_cnt = token_id;
        ledger.token_ids.insert(hash, token_id);
    }
    ledger.metadatas.insert(token_id, record);
    let holder_id = match placement {
        Placement::NewList => {
            let id = ledger.holders_cnt + 1;
            ledger.holders_cnt = id;
            ledger.holders.insert(id, NFTHolder::new(amount, amount, token_id));
            let mut l = U64list::new();
            l.add(id);
            assert(l@ =~= seq![id]);
            ledger.owners.insert(recipient, l);
            id
        },
        Placement::Update(h, holder) => {
            ledger.holders.insert(h, holder);
            0
        },
        Placement::Append => {
            let id = ledger.holders_cnt + 1;
            ledger.holders_cnt = id;
            ledger.holders.insert(id, NFTHolder::new(amount, amount, token_id));
            append_id(&mut ledger.owners, recipient, id);
            id
        },
    };
    ledger.total_supply.insert(token_id, supply);
    proof {
        let (m, receipt) = mint_spec(m0, hash@, record@, amount, recipient).unwrap();
        assert(ledger@ =~= m);
        assert(receipt == MintReceipt { token_id, holder_id });
    }
    Ok(MintReceipt { token_id, holder_id })
}

/// Entry point `approve`: the caller, owner of the holder that publish
/// request `request_id` names, reserves the requested amount of it for the
/// request's publisher. Returns the new approval id.
///
/// The request stays in the requests dictionary, and nothing stops the same
/// request from being approved again while its lists still exist: catching
/// a repeated approve is a planned check of the contract that this function
/// does not make. Nor does it check that the caller is the producer the
/// request names.
pub fn approve(ledger: &mut Ledger, caller: Account, request_id: u64) -> (r: Result<u64, Error>)
    ensures
        match approve_spec(old(ledger)@, caller, request_id) {
            Ok((m, id)) => r == Ok::<u64, Error>(id) && final(ledger)@ == m,
            Err(e) => r == Err::<u64, Error>(e) && final(ledger)@ == old(ledger)@,
        },
{
    let req: PublishRequest = match ledger.requests.get(&request_id) {
        Some(q) => *q,
        None => {
            return Err(Error::ValueMissing);
        },
    };
    let spender = req.publisher;
    let hid = req.holder_id;
    match owns_holder(&ledger.owners, &caller, hid) {
        None => {
            return Err(Error::NoTokensFound);
        },
        Some(false) => {
            return Err(Error::NotOwnerOfHolderId);
        },
        Some(true) => {},
    }
    let h: NFTHolder = match ledger.holders.get(&hid) {
        Some(h) => *h,
        None => {
            return Err(Error::ValueMissing);
        },
    };
    if h.remaining_amount < req.amount || h.amount < req.amount {
        return Err(Error::NotEnoughTokens);
    }
    if ledger.approved_cnt == u64::MAX {
        return Err(Error::ArithmeticOverflow);
    }
    if !ledger.publisher_requests.contains(&spender) {
        return Err(Error::ValueMissing);
    }
    if !ledger.producer_requests.contains(&caller) {
        return Err(Error::ValueMissing);
    }
    let ghost m0 = ledger@;
    let id = ledger.approved_cnt + 1;
    ledger.holders.insert(hid, NFTHolder::new(h.amount, h.remaining_amount - req.amount, h.token_id));
    ledger.approved_cnt = id;
    ledger.approved.insert(
        id,
        ApprovedNFT::new(hid, req.amount, caller, spender, h.token_id, req.percentage),
    );
    append_id(&mut ledger.publishers_approved, spender, id);
    append_id(&mut ledger.producers_approved, caller, id);
    remove_id(&mut ledger.publisher_requests, spender, request_id);
    remove_id(&mut ledger.producer_requests, caller, request_id);
    proof {
        let (m, rid) = approve_spec(m0, caller, request_id).unwrap();
        assert(ledger@ =~= m);
    }
    Ok(id)
}

/// Entry point `disapprove`: the owner of approval `approved_id` takes
/// `amount` of it back; an approval brought to zero leaves the publisher's
/// (`spender`) and the caller's approval lists.
pub fn disapprove(
    ledger: &mut Ledger,
    caller: Account,
    amount: u64,
    approved_id: u64,
    spender: Account,
) -> (r: Result<(), Error>)
    ensures
        match disapprove_spec(old(ledger)@, caller, amount, approved_id, spender) {
            Ok(m) => r == Ok::<(), Error>(()) && final(ledger)@ == m,
            Err(e) => r == Err::<(), Error>(e) && final(ledger)@ == old(ledger)@,
        },
{
    let a: ApprovedNFT = match ledger.approved.get(&approved_id) {
        Some(a) => *a,
        None => {
            return Err(Error::ApprovedHolderDoesentExist);
        },
    };
    if !caller.same(&a.owneraccount) {
        return Err(Error::NotOwnerOfHolderId);
    }
    if a.amount < amount {
        return Err(Error::NotEnoughAmount);
    }
    let left = a.amount - amount;
    if left == 0 && !ledger.publishers_approved.contains(&spender) {
        return Err(Error::PublisherHasNoApprovedHolders);
    }
    if left == 0 && !ledger.producers_approved.contains(&caller) {
        return Err(Error::ProducerHasNoApprovedHolders);
    }
    let h: NFTHolder = match ledger.holders.get(&a.holder_id) {
        Some(h) => *h,
        None => {
            return Err(Error::HolderDoesentExist);
        },
    };
    if h.remaining_amount > u64::MAX - amount {
        return Err(Error::ArithmeticOverflow);
    }
    let ghost m0 = ledger@;
    if left == 0 {
        remove_id(&mut ledger.publishers_approved, spender, approved_id);
        remove_id(&mut ledger.producers_approved, caller, approved_id);
    }
    ledger.approved.insert(
        approved_id,
        ApprovedNFT::new(a.holder_id, left, a.owneraccount, a.publisheraccount, a.token_id, a.percentage),
    );
    ledger.holders.insert(
        a.holder_id,
        NFTHolder::new(h.amount, h.remaining_amount + amount, h.token_id),
    );
    proof {
        let m = disapprove_spec(m0, caller, amount, approved_id, spender).unwrap();
        assert(ledger@ =~= m);
    }
    Ok(())
}

/// Entry point `publish_request`: the caller (a publisher) asks the
/// producer to approve `amount` tokens of holder `holder_id` for a
/// commission. Returns the new request id.
pub fn publish_request(
    ledger: &mut Ledger,
    caller: Account,
    producer: Account,
    holder_id: u64,
    amount: u64,
    comission: u8,
) -> (r: Result<u64, Error>)
    ensures
        match publish_request_spec(old(ledger)@, caller, producer, holder_id, amount, comission) {
            Ok((m, id)) => r == Ok::<u64, Error>(id) && final(ledger)@ == m,
            Err(e) => r == Err::<u64, Error>(e) && final(ledger)@ == old(ledger)@,
        },
{
    let h: NFTHolder = match ledger.holders.get(&holder_id) {
        Some(h) => *h,
        None => {
            return Err(Error::HolderDoesentExist);
        },
    };
    if h.amount < amount {
        return Err(Error::NotEnoughAmount);
    }
    match owns_holder(&ledger.owners, &producer, holder_id) {
        None => {
            return Err(Error::EmptyOwnerShipList);
        },
        Some(false) => {
            return Err(Error::NotOwnerOfHolderId);
        },
        Some(true) => {},
    }
    if ledger.requests_cnt == u64::MAX {
        return Err(Error::ArithmeticOverflow);
    }
    let ghost m0 = ledger@;
    let id = ledger.requests_cnt + 1;
    ledger.requests_cnt = id;
    ledger.requests.insert(id, PublishRequest::new(holder_id, amount, comission, producer, caller));
    append_id(&mut ledger.producer_requests, producer, id);
    append_id(&mut ledger.publisher_requests, caller, id);
    proof {
        let (m, rid) = publish_request_spec(m0, caller, producer, holder_id, amount, comission).unwrap();
        assert(ledger@ =~= m);
    }
    Ok(id)
}

/// Entry point `cancel_request`: the publisher of request `request_id`
/// withdraws it from its own and the producer's request lists.
pub fn cancel_request(ledger: &mut Ledger, caller: Account, request_id: u64) -> (r: Result<(), Error>)
    ensures
        match cancel_request_spec(old(ledger)@, caller, request_id) {
            Ok(m) => r == Ok::<(), Error>(()) && final(ledger)@ == m,
            Err(e) => r == Err::<(), Error>(e) && final(ledger)@ == old(ledger)@,
        },
{
    let req: PublishRequest = match ledger.requests.get(&request_id) {
        Some(q) => *q,
        None => {
            return Err(Error::ValueMissing);
        },
    };
    if !req.publisher.same(&caller) {
        return Err(Error::AccessDenied);
    }
    if !ledger.publisher_requests.contains(&req.publisher) {
        return Err(Error::EmptyU64List);
    }
    if !ledger.producer_requests.contains(&req.producer) {
        return Err(Error::EmptyU64List);
    }
    let ghost m0 = ledger@;
    remove_id(&mut ledger.publisher_requests, caller, request_id);
    remove_id(&mut ledger.producer_requests, req.producer, request_id);
    proof {
        let m = cancel_request_spec(m0, caller, request_id).unwrap();
        assert(ledger@ =~= m);
    }
    Ok(())
}

/// Entry point `mint`: `amount` new tokens of `metadata` for `recipient`.
/// The token id is the one already filed under the metadata's hash (see
/// `metadata_hash`), or the next free one; the tokens go to the recipient's first holder of that token,
/// or to a new holder. The metadata's record is stored under the token id
/// and the token's total supply grows by `amount`.
pub fn mint(
    ledger: &mut Ledger,
    metadata: &NftMetadata,
    amount: u64,
    recipient: Account,
) -> (r: Result<MintReceipt, Error>)
    ensures
        match mint_spec(
            old(ledger)@,
            metadata_hash_spec(metadata@),
            metadata_record(metadata@),
            amount,
            recipient,
        ) {
            Ok((m, receipt)) => r == Ok::<MintReceipt, Error>(receipt) && final(ledger)@ == m,
            Err(e) => r == Err::<MintReceipt, Error>(e) && final(ledger)@ == old(ledger)@,
        },
{
    let hash = metadata_hash(metadata);
    let record = metadata.to_record();
    mint_record(ledger, hash, record, amount, recipient)
}

} // verus!
