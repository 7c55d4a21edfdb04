use vstd::prelude::*;
use crate::table::Table;
use crate::types::{Account, ApprovedNFT, NFTHolder, PublishRequest, U64list};

verus! {

/// The contract's storage seen as mathematics: its counters and, for each
/// dictionary, a finite map.
#[verifier::ext_equal]
pub struct LedgerModel {
    pub tokens_cnt: u64,
    pub holders_cnt: u64,
    pub approved_cnt: u64,
    pub requests_cnt: u64,
    pub latest_timestamp: u64,
    /// token id by metadata hash
    pub token_ids: Map<Seq<char>, u64>,
    /// metadata record by token id
    pub metadatas: Map<u64, Seq<char>>,
    /// holder by holder id
    pub holders: Map<u64, NFTHolder>,
    /// the lists that `buy` keeps under a buyer's account in the holders dictionary
    pub holder_lists: Map<Account, Seq<u64>>,
    /// holder ids by owner
    pub owners: Map<Account, Seq<u64>>,
    /// total minted amount by token id
    pub total_supply: Map<u64, u64>,
    /// approval by approval id
    pub approved: Map<u64, ApprovedNFT>,
    /// approval ids by publisher
    pub publishers_approved: Map<Account, Seq<u64>>,
    /// approval ids by producer
    pub producers_approved: Map<Account, Seq<u64>>,
    /// publish request by request id
    pub requests: Map<u64, PublishRequest>,
    /// request ids by producer
    pub producer_requests: Map<Account, Seq<u64>>,
    /// request ids by publisher
    pub publisher_requests: Map<Account, Seq<u64>>,
}

/// The contract's storage, or the part of it that one call reads and writes.
pub struct Ledger {
    pub tokens_cnt: u64,
    pub holders_cnt: u64,
    pub approved_cnt: u64,
    pub requests_cnt: u64,
    pub latest_timestamp: u64,
    pub token_ids: Table<String, u64>,
    pub metadatas: Table<u64, String>,
    pub holders: Table<u64, NFTHolder>,
    pub holder_lists: Table<Account, U64list>,
    pub owners: Table<Account, U64list>,
    pub total_supply: Table<u64, u64>,
    pub approved: Table<u64, ApprovedNFT>,
    pub publishers_approved: Table<Account, U64list>,
    pub producers_approved: Table<Account, U64list>,
    pub requests: Table<u64, PublishRequest>,
    pub producer_requests: Table<Account, U64list>,
    pub publisher_requests: Table<Account, U64list>,
}

impl View for Ledger {
    type V = LedgerModel;

    open spec fn view(&self) -> LedgerModel {
        LedgerModel {
            tokens_cnt: self.tokens_cnt,
            holders_cnt: self.holders_cnt,
            approved_cnt: self.approved_cnt,
            requests_cnt: self.requests_cnt,
            latest_timestamp: self.latest_timestamp,
            token_ids: self.token_ids@,
            metadatas: self.metadatas@,
            holders: self.holders@,
            holder_lists: self.holder_lists@,
            owners: self.owners@,
            total_supply: self.total_supply@,
            approved: self.approved@,
            publishers_approved: self.publishers_approved@,
            producers_approved: self.producers_approved@,
            requests: self.requests@,
            producer_requests: self.producer_requests@,
            publisher_requests: self.publisher_requests@,
        }
    }
}

impl Ledger {
    /// A ledger with the given counters and empty dictionaries.
    pub fn new(
        tokens_cnt: u64,
        holders_cnt: u64,
        approved_cnt: u64,
        requests_cnt: u64,
        latest_timestamp: u64,
    ) -> (l: Ledger)
        ensures
            l@ == LedgerModel::with_counters(
                tokens_cnt,
                holders_cnt,
                approved_cnt,
                requests_cnt,
                latest_timestamp,
            ),
    {
        let l = Ledger {
            tokens_cnt,
            holders_cnt,
            approved_cnt,
            requests_cnt,
            latest_timestamp,
            token_ids: Table::new(),
            metadatas: Table::new(),
            holders: Table::new(),
            holder_lists: Table::new(),
            owners: Table::new(),
            total_supply: Table::new(),
            approved: Table::new(),
            publishers_approved: Table::new(),
            producers_approved: Table::new(),
            requests: Table::new(),
            producer_requests: Table::new(),
            publisher_requests: Table::new(),
        };
        assert(l@ =~= LedgerModel::with_counters(
            tokens_cnt,
            holders_cnt,
            approved_cnt,
            requests_cnt,
            latest_timestamp,
        ));
        l
    }
}

impl LedgerModel {
    pub open spec fn with_counters(
        tokens_cnt: u64,
        holders_cnt: u64,
        approved_cnt: u64,
        requests_cnt: u64,
        latest_timestamp: u64,
    ) -> LedgerModel {
        LedgerModel {
            tokens_cnt,
            holders_cnt,
            approved_cnt,
            requests_cnt,
            latest_timestamp,
            token_ids: Map::empty(),
            metadatas: Map::empty(),
            holders: Map::empty(),
            holder_lists: Map::empty(),
            owners: Map::empty(),
            total_supply: Map::empty(),
            approved: Map::empty(),
            publishers_approved: Map::empty(),
            producers_approved: Map::empty(),
            requests: Map::empty(),
            producer_requests: Map::empty(),
            publisher_requests: Map::empty(),
        }
    }
}

} // verus!
