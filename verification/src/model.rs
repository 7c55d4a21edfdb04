//! What each entry point does to the ledger, stated over `LedgerModel`.
use vstd::prelude::*;
use crate::error::Error;
use crate::ledger::LedgerModel;
use crate::metadata::parse_record;
use crate::text::{parse_u64_spec, split_commas};
use crate::types::{seq_without, Account, ApprovedNFT, NFTHolder, PublishRequest};

verus! {

/// `id` appended to the list under `a`, or a new list `[id]` if `a` has none.
pub open spec fn push_or_new(lists: Map<Account, Seq<u64>>, a: Account, id: u64) -> Map<
    Account,
    Seq<u64>,
> {
    if lists.contains_key(a) {
        lists.insert(a, lists[a].push(id))
    } else {
        lists.insert(a, seq![id])
    }
}

/// Every occurrence of `id` taken out of the list under `a`.
pub open spec fn take_out(lists: Map<Account, Seq<u64>>, a: Account, id: u64) -> Map<
    Account,
    Seq<u64>,
> {
    lists.insert(a, seq_without(lists[a], id))
}

/// What `mint` learns by walking the recipient's holder ids in order.
pub enum MintScan {
    /// an id with no holder comes before any holder of the token
    Missing,
    /// the first holder of the token
    Found(u64),
    /// every id has a holder and none holds the token
    Absent,
}

/// The first two outcomes of a scan name a holder that exists.
pub proof fn lemma_mint_scan_found(holders: Map<u64, NFTHolder>, ids: Seq<u64>, token_id: u64)
    ensures
        mint_scan(holders, ids, token_id) matches MintScan::Found(h) ==> holders.contains_key(h)
            && holders[h].token_id == token_id,
    decreases ids.len(),
{
    if ids.len() > 0 && holders.contains_key(ids[0]) && holders[ids[0]].token_id != token_id {
        lemma_mint_scan_found(holders, ids.drop_first(), token_id);
    }
}

/// A scan that finds no holder of the token walked ids that all have a
/// holder, of another token.
pub proof fn lemma_mint_scan_absent(holders: Map<u64, NFTHolder>, ids: Seq<u64>, token_id: u64)
    requires
        mint_scan(holders, ids, token_id) is Absent,
    ensures
        forall|i: int|
            0 <= i < ids.len() ==> holders.contains_key(#[trigger] ids[i]) && holders[ids[i]].token_id
                != token_id,
    decreases ids.len(),
{
    if ids.len() > 0 {
        lemma_mint_scan_absent(holders, ids.drop_first(), token_id);
        assert forall|i: int| 0 <= i < ids.len() implies holders.contains_key(#[trigger] ids[i])
            && holders[ids[i]].token_id != token_id by {
            if i > 0 {
                assert(ids[i] == ids.drop_first()[i - 1]);
            }
        }
    }
}

pub open spec fn mint_scan(holders: Map<u64, NFTHolder>, ids: Seq<u64>, token_id: u64) -> MintScan
    decreases ids.len(),
{
    if ids.len() == 0 {
        MintScan::Absent
    } else if !holders.contains_key(ids[0]) {
        MintScan::Missing
    } else if holders[ids[0]].token_id == token_id {
        MintScan::Found(ids[0])
    } else {
        mint_scan(holders, ids.drop_first(), token_id)
    }
}

/// What `mint` returns: the token id, and the id of the holder it created
/// (0 where it added to an existing holder).
#[derive(Clone, Copy, Debug)]
pub struct MintReceipt {
    pub token_id: u64,
    pub holder_id: u64,
}

/// Step one of `mint`: the token id of a metadata hash, a new one if the
/// hash is unknown.
pub open spec fn mint_token_id(m: LedgerModel, hash: Seq<char>) -> Result<(LedgerModel, u64), Error> {
    if m.token_ids.contains_key(hash) {
        Ok((m, m.token_ids[hash]))
    } else if m.tokens_cnt == u64::MAX {
        Err(Error::ArithmeticOverflow)
    } else {
        let id = (m.tokens_cnt + 1) as u64;
        Ok((LedgerModel { tokens_cnt: id, token_ids: m.token_ids.insert(hash, id), ..m }, id))
    }
}

/// Step two of `mint`: credit `amount` of the token to the recipient, on its
/// first holder of that token or on a new holder.
pub open spec fn mint_place(m: LedgerModel, token_id: u64, amount: u64, recipient: Account) -> Result<
    (LedgerModel, u64),
    Error,
> {
    let fresh = NFTHolder { amount, remaining_amount: amount, token_id };
    if !m.owners.contains_key(recipient) {
        if m.holders_cnt == u64::MAX {
            Err(Error::ArithmeticOverflow)
        } else {
            let id = (m.holders_cnt + 1) as u64;
            Ok(
                (
                    LedgerModel {
                        holders_cnt: id,
                        holders: m.holders.insert(id, fresh),
                        owners: m.owners.insert(recipient, seq![id]),
                        ..m
                    },
                    id,
                ),
            )
        }
    } else {
        match mint_scan(m.holders, m.owners[recipient], token_id) {
            MintScan::Missing => Err(Error::MintHolderNotFound),
            MintScan::Found(h) => {
                let old = m.holders[h];
                if old.amount + amount > u64::MAX || old.remaining_amount + amount > u64::MAX {
                    Err(Error::ArithmeticOverflow)
                } else {
                    let new = NFTHolder {
                        amount: (old.amount + amount) as u64,
                        remaining_amount: (old.remaining_amount + amount) as u64,
                        token_id: old.token_id,
                    };
                    Ok((LedgerModel { holders: m.holders.insert(h, new), ..m }, 0))
                }
            },
            MintScan::Absent => {
                if m.holders_cnt == u64::MAX {
                    Err(Error::ArithmeticOverflow)
                } else {
                    let id = (m.holders_cnt + 1) as u64;
                    Ok(
                        (
                            LedgerModel {
                                holders_cnt: id,
                                holders: m.holders.insert(id, fresh),
                                owners: m.owners.insert(recipient, m.owners[recipient].push(id)),
                                ..m
                            },
                            id,
                        ),
                    )
                }
            },
        }
    }
}

/// Step three of `mint`: add `amount` to the token's total supply.
pub open spec fn mint_supply(m: LedgerModel, token_id: u64, amount: u64) -> Result<LedgerModel, Error> {
    if m.total_supply.contains_key(token_id) {
        if m.total_supply[token_id] + amount > u64::MAX {
            Err(Error::ArithmeticOverflow)
        } else {
            Ok(
                LedgerModel {
                    total_supply: m.total_supply.insert(
                        token_id,
                        (m.total_supply[token_id] + amount) as u64,
                    ),
                    ..m
                },
            )
        }
    } else {
        Ok(LedgerModel { total_supply: m.total_supply.insert(token_id, amount), ..m })
    }
}

/// `mint`: `amount` new tokens of the metadata with hash `hash` and record
/// `record`, credited to `recipient`.
pub open spec fn mint_spec(
    m: LedgerModel,
    hash: Seq<char>,
    record: Seq<char>,
    amount: u64,
    recipient: Account,
) -> Result<(LedgerModel, MintReceipt), Error> {
    match mint_token_id(m, hash) {
        Err(e) => Err(e),
        Ok((m1, token_id)) => {
            let m2 = LedgerModel { metadatas: m1.metadatas.insert(token_id, record), ..m1 };
            match mint_place(m2, token_id, amount, recipient) {
                Err(e) => Err(e),
                Ok((m3, holder_id)) => match mint_supply(m3, token_id, amount) {
                    Err(e) => Err(e),
                    Ok(m4) => Ok((m4, MintReceipt { token_id, holder_id })),
                },
            }
        },
    }
}

/// `approve`: the caller accepts publish request `request_id`; returns the
/// new approval id.
pub open spec fn approve_spec(m: LedgerModel, caller: Account, request_id: u64) -> Result<
    (LedgerModel, u64),
    Error,
> {
    if !m.requests.contains_key(request_id) {
        Err(Error::ValueMissing)
    } else {
        let req = m.requests[request_id];
        let spender = req.publisher;
        let hid = req.holder_id;
        if !m.owners.contains_key(caller) {
            Err(Error::NoTokensFound)
        } else if !m.owners[caller].contains(hid) {
            Err(Error::NotOwnerOfHolderId)
        } else if !m.holders.contains_key(hid) {
            Err(Error::ValueMissing)
        } else {
            let h = m.holders[hid];
            if h.remaining_amount < req.amount || h.amount < req.amount {
                Err(Error::NotEnoughTokens)
            } else if m.approved_cnt == u64::MAX {
                Err(Error::ArithmeticOverflow)
            } else if !m.publisher_requests.contains_key(spender) {
                Err(Error::ValueMissing)
            } else if !m.producer_requests.contains_key(caller) {
                Err(Error::ValueMissing)
            } else {
                let id = (m.approved_cnt + 1) as u64;
                let holder = NFTHolder {
                    remaining_amount: (h.remaining_amount - req.amount) as u64,
                    ..h
                };
                let approval = ApprovedNFT {
                    holder_id: hid,
                    amount: req.amount,
                    owneraccount: caller,
                    publisheraccount: spender,
                    token_id: h.token_id,
                    percentage: req.percentage,
                };
                Ok(
                    (
                        LedgerModel {
                            holders: m.holders.insert(hid, holder),
                            approved_cnt: id,
                            approved: m.approved.insert(id, approval),
                            publishers_approved: push_or_new(m.publishers_approved, spender, id),
                            producers_approved: push_or_new(m.producers_approved, caller, id),
                            publisher_requests: take_out(m.publisher_requests, spender, request_id),
                            producer_requests: take_out(m.producer_requests, caller, request_id),
                            ..m
                        },
                        id,
                    ),
                )
            }
        }
    }
}

/// `disapprove`: the owner takes `amount` back from approval `approved_id`.
pub open spec fn disapprove_spec(
    m: LedgerModel,
    caller: Account,
    amount: u64,
    approved_id: u64,
    spender: Account,
) -> Result<LedgerModel, Error> {
    if !m.approved.contains_key(approved_id) {
        Err(Error::ApprovedHolderDoesentExist)
    } else {
        let a = m.approved[approved_id];
        let left = (a.amount - amount) as u64;
        if caller != a.owneraccount {
            Err(Error::NotOwnerOfHolderId)
        } else if a.amount < amount {
            Err(Error::NotEnoughAmount)
        } else if left == 0 && !m.publishers_approved.contains_key(spender) {
            Err(Error::PublisherHasNoApprovedHolders)
        } else if left == 0 && !m.producers_approved.contains_key(caller) {
            Err(Error::ProducerHasNoApprovedHolders)
        } else if !m.holders.contains_key(a.holder_id) {
            Err(Error::HolderDoesentExist)
        } else {
            let h = m.holders[a.holder_id];
            if h.remaining_amount + amount > u64::MAX {
                Err(Error::ArithmeticOverflow)
            } else {
                Ok(
                    LedgerModel {
                        approved: m.approved.insert(approved_id, ApprovedNFT { amount: left, ..a }),
                        publishers_approved: if left == 0 {
                            take_out(m.publishers_approved, spender, approved_id)
                        } else {
                            m.publishers_approved
                        },
                        producers_approved: if left == 0 {
                            take_out(m.producers_approved, caller, approved_id)
                        } else {
                            m.producers_approved
                        },
                        holders: m.holders.insert(
                            a.holder_id,
                            NFTHolder { remaining_amount: (h.remaining_amount + amount) as u64, ..h },
                        ),
                        ..m
                    },
                )
            }
        }
    }
}

/// `publish_request`: the caller asks to sell `amount` tokens of the
/// producer's holder `holder_id`; returns the new request id.
pub open spec fn publish_request_spec(
    m: LedgerModel,
    caller: Account,
    producer: Account,
    holder_id: u64,
    amount: u64,
    comission: u8,
) -> Result<(LedgerModel, u64), Error> {
    if !m.holders.contains_key(holder_id) {
        Err(Error::HolderDoesentExist)
    } else if m.holders[holder_id].amount < amount {
        Err(Error::NotEnoughAmount)
    } else if !m.owners.contains_key(producer) {
        Err(Error::EmptyOwnerShipList)
    } else if !m.owners[producer].contains(holder_id) {
        Err(Error::NotOwnerOfHolderId)
    } else if m.requests_cnt == u64::MAX {
        Err(Error::ArithmeticOverflow)
    } else {
        let id = (m.requests_cnt + 1) as u64;
        let req = PublishRequest {
            holder_id,
            amount,
            percentage: comission,
            producer,
            publisher: caller,
        };
        Ok(
            (
                LedgerModel {
                    requests_cnt: id,
                    requests: m.requests.insert(id, req),
                    producer_requests: push_or_new(m.producer_requests, producer, id),
                    publisher_requests: push_or_new(m.publisher_requests, caller, id),
                    ..m
                },
                id,
            ),
        )
    }
}

/// `cancel_request`: the publisher withdraws request `request_id`.
pub open spec fn cancel_request_spec(m: LedgerModel, caller: Account, request_id: u64) -> Result<
    LedgerModel,
    Error,
> {
    if !m.requests.contains_key(request_id) {
        Err(Error::ValueMissing)
    } else {
        let r = m.requests[request_id];
        if r.publisher != caller {
            Err(Error::AccessDenied)
        } else if !m.publisher_requests.contains_key(r.publisher) {
            Err(Error::EmptyU64List)
        } else if !m.producer_requests.contains_key(r.producer) {
            Err(Error::EmptyU64List)
        } else {
            Ok(
                LedgerModel {
                    publisher_requests: take_out(m.publisher_requests, caller, request_id),
                    producer_requests: take_out(m.producer_requests, r.producer, request_id),
                    ..m
                },
            )
        }
    }
}

/// The price ratio and the timestamp of a signed price message
/// `ratio,timestamp`; `None` where it has fewer than two fields or either
/// does not read as a `u64` (the contract panics there).
pub open spec fn parse_price_message(s: Seq<char>) -> Option<(u64, u64)> {
    let parts = split_commas(s);
    if parts.len() < 2 {
        None
    } else {
        match (parse_u64_spec(parts[0]), parse_u64_spec(parts[1])) {
            (Some(ratio), Some(timestamp)) => Some((ratio, timestamp)),
            _ => None,
        }
    }
}

/// What `buy` settles on before it moves any money.
pub struct BuyTerms {
    pub timestamp: u64,
    pub approval: ApprovedNFT,
    /// the token price from the stored metadata
    pub price: nat,
    /// price * amount * ratio
    pub amount_to_pay: nat,
    /// the producer's share: amount_to_pay * (100 - percentage) / 100
    pub producer_part: nat,
    /// the rest, for the publisher
    pub publisher_part: nat,
}

/// First half of `buy`: the checks before the transfers, and the split of
/// the payment. `balance` is that of the buyer's purse (`None` where the
/// purse has none to read).
pub open spec fn buy_spec(
    m: LedgerModel,
    signature_ok: bool,
    message: Seq<char>,
    approved_id: u64,
    amount: u64,
    balance: Option<nat>,
) -> Result<BuyTerms, Error> {
    if !signature_ok {
        Err(Error::InvalidSignature)
    } else {
        match parse_price_message(message) {
            None => Err(Error::MalformedData),
            Some((ratio, timestamp)) => {
                if timestamp <= m.latest_timestamp {
                    Err(Error::InvalidTimestamp)
                } else if balance is None {
                    Err(Error::ValueMissing)
                } else if !m.approved.contains_key(approved_id) {
                    Err(Error::ApprovedHolderDoesentExist)
                } else {
                    let a = m.approved[approved_id];
                    if amount > a.amount {
                        Err(Error::NotEnoughAmount)
                    } else if !m.metadatas.contains_key(a.token_id) {
                        Err(Error::MetadataDoesentExist)
                    } else {
                        match parse_record(m.metadatas[a.token_id]) {
                            None => Err(Error::MalformedData),
                            Some(md) => {
                                if amount * ratio > u64::MAX {
                                    Err(Error::ArithmeticOverflow)
                                } else if a.percentage > 100 {
                                    Err(Error::ArithmeticOverflow)
                                } else {
                                    let to_pay: nat = md.price * ((amount * ratio) as nat);
                                    let producer_part: nat = to_pay * ((100 - a.percentage) as nat) / 100;
                                    if balance->0 < to_pay {
                                        Err(Error::NotEnoughBalance)
                                    } else {
                                        Ok(
                                            BuyTerms {
                                                timestamp,
                                                approval: a,
                                                price: md.price,
                                                amount_to_pay: to_pay,
                                                producer_part,
                                                publisher_part: (to_pay - producer_part) as nat,
                                            },
                                        )
                                    }
                                }
                            },
                        }
                    }
                }
            },
        }
    }
}

/// Second half of `buy`, after both transfers went through: `amount`
/// tokens of approval `approved_id` pass to a new holder of the caller.
/// Returns the new holder id.
pub open spec fn settle_buy_spec(
    m: LedgerModel,
    caller: Account,
    approved_id: u64,
    amount: u64,
    timestamp: u64,
) -> Result<(LedgerModel, u64), Error> {
    if timestamp <= m.latest_timestamp {
        Err(Error::InvalidTimestamp)
    } else if !m.approved.contains_key(approved_id) {
        Err(Error::ApprovedHolderDoesentExist)
    } else {
        let a = m.approved[approved_id];
        let left = (a.amount - amount) as u64;
        if amount > a.amount {
            Err(Error::NotEnoughAmount)
        } else if !m.holders.contains_key(a.holder_id) {
            Err(Error::HolderDoesentExist)
        } else if m.holders[a.holder_id].amount < amount {
            Err(Error::ArithmeticOverflow)
        } else if left == 0 && !m.publishers_approved.contains_key(a.publisheraccount) {
            Err(Error::ApprovedListDoesentExist)
        } else if left == 0 && !m.producers_approved.contains_key(a.owneraccount) {
            Err(Error::ApprovedListDoesentExist)
        } else if m.holders_cnt == u64::MAX {
            Err(Error::ArithmeticOverflow)
        } else {
            let h = m.holders[a.holder_id];
            let id = (m.holders_cnt + 1) as u64;
            let sold = NFTHolder { amount: (h.amount - amount) as u64, ..h };
            let bought = NFTHolder { amount, remaining_amount: amount, token_id: a.token_id };
            Ok(
                (
                    LedgerModel {
                        latest_timestamp: timestamp,
                        holders: m.holders.insert(a.holder_id, sold).insert(id, bought),
                        holders_cnt: id,
                        approved: m.approved.insert(approved_id, ApprovedNFT { amount: left, ..a }),
                        publishers_approved: if left == 0 {
                            take_out(m.publishers_approved, a.publisheraccount, approved_id)
                        } else {
                            m.publishers_approved
                        },
                        producers_approved: if left == 0 {
                            take_out(m.producers_approved, a.owneraccount, approved_id)
                        } else {
                            m.producers_approved
                        },
                        holder_lists: push_or_new(m.holder_lists, caller, id),
                        owners: push_or_new(m.owners, caller, id),
                        ..m
                    },
                    id,
                ),
            )
        }
    }
}

} // verus!
