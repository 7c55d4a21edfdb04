# ndpc_contract

The DropLinked NDPC contract for the Casper network, with its decisions
verified in Verus.

- `src/` is the verified library. The contract's storage is a `Ledger`
  (counters plus one `Table` per dictionary), viewed as a `LedgerModel` of
  finite maps. Each entry point (`mint`, `approve`, `disapprove`,
  `publish_request`, `cancel_request` in `entry.rs`; `buy` + `settle_buy`
  in `purchase.rs`) is a function on
  the ledger whose contract is its `*_spec` in `model.rs`: on success the
  ledger becomes exactly the specified one, on failure it is unchanged and
  the error is the one the contract reverts with.
  `laws.rs` proves what holds across calls: holder amounts stay equal to
  unreserved plus approved amounts, each token's total supply stays what
  its holders hold, a mint never gives an owner two holders of one token,
  cancelling a fresh request gives the request lists back, a mint reuses
  the token id of a known metadata hash, taking back a whole approval
  restores the holder, a signed price message cannot be used twice, the
  payment split loses nothing, and a minted metadata record reads back
  unchanged.
  `text.rs`, `metadata.rs`, `records.rs`, `json.rs` and `event.rs` hold the
  text formats (decimal, hex, comma-separated records, the metadata hash,
  the mint's JSON fields, event records);
  `wide.rs` the 256/512-bit amounts computed with `casper_types`.
- `app/` is the contract itself: the `extern "C"` entry points that read
  runtime arguments and storage, call the library, move money, and write
  the results and events back.
- `tests/` exercise the library on concrete ledgers.
