//! What holds of the contract across calls, proved over the entry points'
//! specifications.
use vstd::prelude::*;
use crate::error::Error;
use crate::ledger::LedgerModel;
use crate::metadata::{lemma_record_round_trip, metadata_record, parse_record, MetadataView};
use crate::model::{
    approve_spec, buy_spec, cancel_request_spec, disapprove_spec, lemma_mint_scan_absent,
    lemma_mint_scan_found, mint_place, mint_scan,
    mint_spec, mint_supply, mint_token_id, parse_price_message, publish_request_spec,
    settle_buy_spec, BuyTerms,
};
use crate::types::{seq_without, Account, ApprovedNFT, NFTHolder};
use crate::wide::pow64;

verus! {

/// What approval `id` reserves of holder `h`.
pub open spec fn reserved_by(approved: Map<u64, ApprovedNFT>, h: u64, id: u64) -> int {
    if approved.contains_key(id) && approved[id].holder_id == h {
        approved[id].amount as int
    } else {
        0
    }
}

/// What the approvals with ids `0..=n` reserve of holder `h`.
pub open spec fn reserved_upto(approved: Map<u64, ApprovedNFT>, h: u64, n: nat) -> int
    decreases n,
{
    if n == 0 {
        reserved_by(approved, h, 0)
    } else {
        reserved_upto(approved, h, (n - 1) as nat) + reserved_by(approved, h, n as u64)
    }
}

/// What all approvals reserve of holder `h`.
pub open spec fn reserved_total(approved: Map<u64, ApprovedNFT>, h: u64) -> int {
    reserved_upto(approved, h, u64::MAX as nat)
}

/// How much of token `t` holder `id` holds.
pub open spec fn held_by(holders: Map<u64, NFTHolder>, t: u64, id: u64) -> int {
    if holders.contains_key(id) && holders[id].token_id == t {
        holders[id].amount as int
    } else {
        0
    }
}

/// How much of token `t` the holders with ids `0..=n` hold.
pub open spec fn held_upto(holders: Map<u64, NFTHolder>, t: u64, n: nat) -> int
    decreases n,
{
    if n == 0 {
        held_by(holders, t, 0)
    } else {
        held_upto(holders, t, (n - 1) as nat) + held_by(holders, t, n as u64)
    }
}

/// How much of token `t` all holders hold.
pub open spec fn held_total(holders: Map<u64, NFTHolder>, t: u64) -> int {
    held_upto(holders, t, u64::MAX as nat)
}

/// The recorded total supply of token `t` (0 where none is recorded).
pub open spec fn supply_of(m: LedgerModel, t: u64) -> int {
    if m.total_supply.contains_key(t) {
        m.total_supply[t] as int
    } else {
        0
    }
}

/// Every holder's amount is what it has not reserved plus what all
/// approvals reserve of it.
pub open spec fn balanced(m: LedgerModel) -> bool {
    forall|h: u64| #[trigger]
        m.holders.contains_key(h) ==> m.holders[h].amount == m.holders[h].remaining_amount
            + reserved_total(m.approved, h)
}

/// Each token's total supply is what its holders hold together.
pub open spec fn supply_matches(m: LedgerModel) -> bool {
    forall|t: u64| #[trigger] held_total(m.holders, t) == supply_of(m, t)
}

/// Approval ids were handed out by the approval counter.
pub open spec fn approvals_counted(m: LedgerModel) -> bool {
    forall|id: u64| #[trigger] m.approved.contains_key(id) ==> id <= m.approved_cnt
}

/// Holder ids, and the holder ids that approvals name, were handed out by
/// the holder counter.
pub open spec fn holders_counted(m: LedgerModel) -> bool {
    &&& forall|id: u64| #[trigger] m.holders.contains_key(id) ==> id <= m.holders_cnt
    &&& forall|id: u64| #[trigger]
        m.approved.contains_key(id) ==> m.approved[id].holder_id <= m.holders_cnt
}

/// The holder ids in owner lists were handed out by the holder counter.
pub open spec fn owner_lists_counted(m: LedgerModel) -> bool {
    forall|a: Account, i: int|
        m.owners.contains_key(a) && 0 <= i < m.owners[a].len() ==> #[trigger] m.owners[a][i]
            <= m.holders_cnt
}

/// Every approval is of the token that its holder holds.
pub open spec fn approvals_match_holders(m: LedgerModel) -> bool {
    forall|id: u64| #[trigger]
        m.approved.contains_key(id) && m.holders.contains_key(m.approved[id].holder_id)
            ==> m.approved[id].token_id == m.holders[m.approved[id].holder_id].token_id
}

/// No owner has two holders of the same token.
pub open spec fn distinct_tokens(m: LedgerModel) -> bool {
    forall|a: Account, i: int, j: int|
        #![trigger m.owners[a][i], m.owners[a][j]]
        m.owners.contains_key(a) && 0 <= i < m.owners[a].len() && 0 <= j < m.owners[a].len() && i
            != j && m.holders.contains_key(m.owners[a][i]) && m.holders.contains_key(m.owners[a][j])
            ==> m.holders[m.owners[a][i]].token_id != m.holders[m.owners[a][j]].token_id
}

proof fn lemma_reserved_nonneg(approved: Map<u64, ApprovedNFT>, h: u64, n: nat)
    ensures
        reserved_upto(approved, h, n) >= 0,
    decreases n,
{
    if n > 0 {
        lemma_reserved_nonneg(approved, h, (n - 1) as nat);
    }
}

/// One approval's reservation is part of the total.
proof fn lemma_reserved_part(approved: Map<u64, ApprovedNFT>, h: u64, n: nat, k: u64)
    requires
        k <= n <= u64::MAX,
    ensures
        reserved_upto(approved, h, n) >= reserved_by(approved, h, k),
    decreases n,
{
    if n > 0 {
        lemma_reserved_nonneg(approved, h, (n - 1) as nat);
        if k < n {
            lemma_reserved_part(approved, h, (n - 1) as nat, k);
        }
    }
}

/// Replacing approval `k` changes the total by the difference of the two
/// reservations.
proof fn lemma_reserved_insert(
    approved: Map<u64, ApprovedNFT>,
    h: u64,
    n: nat,
    k: u64,
    x: ApprovedNFT,
)
    requires
        k <= n <= u64::MAX,
    ensures
        reserved_upto(approved.insert(k, x), h, n) == reserved_upto(approved, h, n) - reserved_by(
            approved,
            h,
            k,
        ) + reserved_by(approved.insert(k, x), h, k),
    decreases n,
{
    if n > 0 && k < n {
        lemma_reserved_insert(approved, h, (n - 1) as nat, k, x);
        assert(reserved_by(approved.insert(k, x), h, n as u64) == reserved_by(approved, h, n as u64));
    } else if n > 0 {
        lemma_reserved_same(approved, approved.insert(k, x), h, (n - 1) as nat);
    }
}

/// Totals over maps that agree up to `n` are equal.
proof fn lemma_reserved_same(a: Map<u64, ApprovedNFT>, b: Map<u64, ApprovedNFT>, h: u64, n: nat)
    requires
        forall|id: u64| id <= n ==> #[trigger] reserved_by(a, h, id) == reserved_by(b, h, id),
    ensures
        reserved_upto(a, h, n) == reserved_upto(b, h, n),
    decreases n,
{
    if n > 0 {
        lemma_reserved_same(a, b, h, (n - 1) as nat);
        assert(reserved_by(a, h, n as u64) == reserved_by(b, h, n as u64));
    } else {
        assert(reserved_by(a, h, 0) == reserved_by(b, h, 0));
    }
}

/// A holder that no approval names has nothing reserved.
proof fn lemma_reserved_none(approved: Map<u64, ApprovedNFT>, h: u64, n: nat)
    requires
        forall|id: u64| #[trigger] approved.contains_key(id) ==> approved[id].holder_id != h,
    ensures
        reserved_upto(approved, h, n) == 0,
    decreases n,
{
    if n > 0 {
        lemma_reserved_none(approved, h, (n - 1) as nat);
        assert(reserved_by(approved, h, n as u64) == 0);
    } else {
        assert(reserved_by(approved, h, 0) == 0);
    }
}

/// Totals over holder maps that agree up to `n` are equal.
proof fn lemma_held_same(a: Map<u64, NFTHolder>, b: Map<u64, NFTHolder>, t: u64, n: nat)
    requires
        forall|id: u64| id <= n ==> #[trigger] held_by(a, t, id) == held_by(b, t, id),
    ensures
        held_upto(a, t, n) == held_upto(b, t, n),
    decreases n,
{
    if n > 0 {
        lemma_held_same(a, b, t, (n - 1) as nat);
        assert(held_by(a, t, n as u64) == held_by(b, t, n as u64));
    } else {
        assert(held_by(a, t, 0) == held_by(b, t, 0));
    }
}

/// Replacing holder `k` changes what token `t`'s holders hold by the
/// difference of the two.
proof fn lemma_held_insert(holders: Map<u64, NFTHolder>, t: u64, n: nat, k: u64, x: NFTHolder)
    requires
        k <= n <= u64::MAX,
    ensures
        held_upto(holders.insert(k, x), t, n) == held_upto(holders, t, n) - held_by(holders, t, k)
            + held_by(holders.insert(k, x), t, k),
    decreases n,
{
    if n > 0 && k < n {
        lemma_held_insert(holders, t, (n - 1) as nat, k, x);
        assert(held_by(holders.insert(k, x), t, n as u64) == held_by(holders, t, n as u64));
    } else if n > 0 {
        lemma_held_same(holders, holders.insert(k, x), t, (n - 1) as nat);
    }
}

/// With no holders, no token is held.
proof fn lemma_held_none(holders: Map<u64, NFTHolder>, t: u64, n: nat)
    requires
        holders =~= Map::<u64, NFTHolder>::empty(),
    ensures
        held_upto(holders, t, n) == 0,
    decreases n,
{
    if n > 0 {
        lemma_held_none(holders, t, (n - 1) as nat);
    }
}

/// The ledger before the first call (all counters zero, every dictionary
/// empty) meets every invariant.
pub proof fn law_initial_ledger(latest_timestamp: u64)
    ensures
        ({
            let m = LedgerModel::with_counters(0, 0, 0, 0, latest_timestamp);
            &&& balanced(m)
            &&& supply_matches(m)
            &&& approvals_counted(m)
            &&& holders_counted(m)
            &&& owner_lists_counted(m)
            &&& approvals_match_holders(m)
            &&& distinct_tokens(m)
            &&& tokens_counted(m)
        }),
{
    let m = LedgerModel::with_counters(0, 0, 0, 0, latest_timestamp);
    assert forall|t: u64| #[trigger] held_total(m.holders, t) == supply_of(m, t) by {
        lemma_held_none(m.holders, t, u64::MAX as nat);
    }
}

/// `approve` keeps every holder's amount equal to what it has not reserved
/// plus what all approvals reserve of it: the holder's unreserved amount
/// falls by exactly what the new approval reserves, and afterwards no holder
/// has more unreserved tokens than tokens. Holdings, tokens and owner lists
/// are untouched, so the other invariants carry over.
pub proof fn law_approve_keeps_balance(m: LedgerModel, caller: Account, request_id: u64)
    requires
        balanced(m),
        approvals_counted(m),
        approve_spec(m, caller, request_id) is Ok,
    ensures
        ({
            let (m1, id) = approve_spec(m, caller, request_id)->Ok_0;
            let req = m.requests[request_id];
            &&& balanced(m1)
            &&& approvals_counted(m1)
            &&& m1.approved[id].holder_id == req.holder_id
            &&& m1.approved[id].amount == req.amount
            &&& m1.holders[req.holder_id].remaining_amount == m.holders[req.holder_id].remaining_amount
                - req.amount
            &&& m1.holders[req.holder_id].amount == m.holders[req.holder_id].amount
            &&& forall|h: u64| #[trigger]
                m1.holders.contains_key(h) ==> m1.holders[h].remaining_amount
                    <= m1.holders[h].amount
            &&& supply_matches(m) ==> supply_matches(m1)
            &&& holders_counted(m) ==> holders_counted(m1)
            &&& owner_lists_counted(m) ==> owner_lists_counted(m1)
            &&& approvals_match_holders(m) ==> approvals_match_holders(m1)
            &&& distinct_tokens(m) ==> distinct_tokens(m1)
        }),
{
    let (m1, id) = approve_spec(m, caller, request_id).unwrap();
    let req = m.requests[request_id];
    let hid = req.holder_id;
    let x = m1.approved[id];
    assert(!m.approved.contains_key(id));
    assert forall|h: u64| #[trigger] m1.holders.contains_key(h) implies m1.holders[h].amount
        == m1.holders[h].remaining_amount + reserved_total(m1.approved, h) by {
        lemma_reserved_insert(m.approved, h, u64::MAX as nat, id, x);
    }
    assert forall|h: u64| #[trigger] m1.holders.contains_key(h) implies m1.holders[h].remaining_amount
        <= m1.holders[h].amount by {
        lemma_reserved_nonneg(m1.approved, h, u64::MAX as nat);
    }
    if supply_matches(m) {
        assert forall|t: u64| #[trigger] held_total(m1.holders, t) == supply_of(m1, t) by {
            lemma_held_insert(m.holders, t, u64::MAX as nat, hid, m1.holders[hid]);
            assert(held_total(m.holders, t) == supply_of(m, t));
        }
    }
    if distinct_tokens(m) {
        assert forall|a: Account, i: int, j: int|
            #![trigger m1.owners[a][i], m1.owners[a][j]]
            m1.owners.contains_key(a) && 0 <= i < m1.owners[a].len() && 0 <= j < m1.owners[a].len()
                && i != j && m1.holders.contains_key(m1.owners[a][i]) && m1.holders.contains_key(
                m1.owners[a][j],
            ) implies m1.holders[m1.owners[a][i]].token_id != m1.holders[m1.owners[a][j]].token_id by {
            assert(m.owners[a][i] == m1.owners[a][i] && m.owners[a][j] == m1.owners[a][j]);
        }
    }
}

/// `disapprove` keeps every holder's amount equal to what it has not
/// reserved plus what all approvals reserve of it: what it releases returns
/// to the holder's unreserved amount one for one. That sum stays within the
/// holder's amount, so it never overflows.
pub proof fn law_disapprove_keeps_balance(
    m: LedgerModel,
    caller: Account,
    amount: u64,
    approved_id: u64,
    spender: Account,
)
    requires
        balanced(m),
    ensures
        disapprove_spec(m, caller, amount, approved_id, spender) != Err::<LedgerModel, Error>(
            Error::ArithmeticOverflow,
        ),
        disapprove_spec(m, caller, amount, approved_id, spender) is Ok ==> ({
            let m1 = disapprove_spec(m, caller, amount, approved_id, spender)->Ok_0;
            let a = m.approved[approved_id];
            &&& balanced(m1)
            &&& m1.holders[a.holder_id].remaining_amount == m.holders[a.holder_id].remaining_amount
                + amount
            &&& m1.holders[a.holder_id].amount == m.holders[a.holder_id].amount
            &&& m1.approved[approved_id].amount == a.amount - amount
            &&& forall|h: u64| #[trigger]
                m1.holders.contains_key(h) ==> m1.holders[h].remaining_amount
                    <= m1.holders[h].amount
            &&& supply_matches(m) ==> supply_matches(m1)
            &&& approvals_counted(m) ==> approvals_counted(m1)
            &&& holders_counted(m) ==> holders_counted(m1)
            &&& owner_lists_counted(m) ==> owner_lists_counted(m1)
            &&& approvals_match_holders(m) ==> approvals_match_holders(m1)
            &&& distinct_tokens(m) ==> distinct_tokens(m1)
        }),
{
    if m.approved.contains_key(approved_id) {
        let a = m.approved[approved_id];
        if m.holders.contains_key(a.holder_id) {
            lemma_reserved_part(m.approved, a.holder_id, u64::MAX as nat, approved_id);
        }
    }
    if disapprove_spec(m, caller, amount, approved_id, spender) is Ok {
        let m1 = disapprove_spec(m, caller, amount, approved_id, spender)->Ok_0;
        let x = m1.approved[approved_id];
        assert forall|h: u64| #[trigger] m1.holders.contains_key(h) implies m1.holders[h].amount
            == m1.holders[h].remaining_amount + reserved_total(m1.approved, h) by {
            lemma_reserved_insert(m.approved, h, u64::MAX as nat, approved_id, x);
        }
        assert forall|h: u64| #[trigger] m1.holders.contains_key(h) implies m1.holders[h].remaining_amount
            <= m1.holders[h].amount by {
            lemma_reserved_nonneg(m1.approved, h, u64::MAX as nat);
        }
        let hid = m.approved[approved_id].holder_id;
        if supply_matches(m) {
            assert forall|t: u64| #[trigger] held_total(m1.holders, t) == supply_of(m1, t) by {
                lemma_held_insert(m.holders, t, u64::MAX as nat, hid, m1.holders[hid]);
                assert(held_total(m.holders, t) == supply_of(m, t));
            }
        }
        if distinct_tokens(m) {
            assert forall|a: Account, i: int, j: int|
                #![trigger m1.owners[a][i], m1.owners[a][j]]
                m1.owners.contains_key(a) && 0 <= i < m1.owners[a].len() && 0 <= j
                    < m1.owners[a].len() && i != j && m1.holders.contains_key(m1.owners[a][i])
                    && m1.holders.contains_key(
                    m1.owners[a][j],
                ) implies m1.holders[m1.owners[a][i]].token_id
                != m1.holders[m1.owners[a][j]].token_id by {
                assert(m.owners[a][i] == m1.owners[a][i] && m.owners[a][j] == m1.owners[a][j]);
            }
        }
    }
}

/// A completed purchase moves `amount` tokens from the seller's holder to a
/// new holder of the buyer: none are created or destroyed, total supplies
/// stay as they were, each token's supply is still what its holders hold,
/// and every holder's amount is still what it has not reserved plus what
/// all approvals reserve of it.
pub proof fn law_settle_buy_keeps_invariants(
    m: LedgerModel,
    caller: Account,
    approved_id: u64,
    amount: u64,
    timestamp: u64,
)
    requires
        balanced(m),
        supply_matches(m),
        holders_counted(m),
        approvals_match_holders(m),
        settle_buy_spec(m, caller, approved_id, amount, timestamp) is Ok,
    ensures
        ({
            let (m1, id) = settle_buy_spec(m, caller, approved_id, amount, timestamp)->Ok_0;
            let hid = m.approved[approved_id].holder_id;
            &&& balanced(m1)
            &&& supply_matches(m1)
            &&& holders_counted(m1)
            &&& approvals_match_holders(m1)
            &&& m1.total_supply == m.total_supply
            &&& !m.holders.contains_key(id)
            &&& m1.holders[hid].amount == m.holders[hid].amount - amount
            &&& m1.holders[hid].token_id == m.holders[hid].token_id
            &&& m1.holders[id].amount == amount
            &&& m1.holders[id].token_id == m.holders[hid].token_id
            &&& approvals_counted(m) ==> approvals_counted(m1)
            &&& owner_lists_counted(m) ==> owner_lists_counted(m1)
        }),
{
    let (m1, id) = settle_buy_spec(m, caller, approved_id, amount, timestamp).unwrap();
    let a = m.approved[approved_id];
    let hid = a.holder_id;
    let x = m1.approved[approved_id];
    let h = m.holders[hid];
    let sold = NFTHolder { amount: (h.amount - amount) as u64, ..h };
    let bought = NFTHolder { amount, remaining_amount: amount, token_id: a.token_id };
    let mid = m.holders.insert(hid, sold);
    assert(!m.holders.contains_key(id));
    assert(hid != id);
    assert(m1.holders == mid.insert(id, bought));
    assert forall|g: u64| #[trigger] m1.holders.contains_key(g) implies m1.holders[g].amount
        == m1.holders[g].remaining_amount + reserved_total(m1.approved, g) by {
        lemma_reserved_insert(m.approved, g, u64::MAX as nat, approved_id, x);
        if g == id {
            assert forall|k: u64| #[trigger] m1.approved.contains_key(k) implies m1.approved[k].holder_id
                != g by {
                if k != approved_id {
                    assert(m.approved.contains_key(k));
                }
            }
            lemma_reserved_none(m1.approved, g, u64::MAX as nat);
        }
    }
    assert forall|t: u64| #[trigger] held_total(m1.holders, t) == supply_of(m1, t) by {
        lemma_held_insert(m.holders, t, u64::MAX as nat, hid, sold);
        lemma_held_insert(mid, t, u64::MAX as nat, id, bought);
        assert(held_total(m.holders, t) == supply_of(m, t));
    }
    assert forall|k: u64| #[trigger] m1.approved.contains_key(k) && m1.holders.contains_key(
        m1.approved[k].holder_id,
    ) implies m1.approved[k].token_id == m1.holders[m1.approved[k].holder_id].token_id by {
        assert(m.approved.contains_key(k));
        assert(m1.approved[k].holder_id <= m.holders_cnt);
    }
    if owner_lists_counted(m) {
        assert forall|b: Account, i: int|
            m1.owners.contains_key(b) && 0 <= i < m1.owners[b].len() implies #[trigger] m1.owners[b][i]
            <= m1.holders_cnt by {
            if b != caller {
                assert(m1.owners[b] == m.owners[b]);
            } else if m.owners.contains_key(b) && i < m.owners[b].len() {
                assert(m1.owners[b][i] == m.owners[b][i]);
            }
        }
    }
}

/// What crediting a mint to its recipient keeps, and how much of each
/// token is then held.
proof fn lemma_mint_place_keeps(m: LedgerModel, token_id: u64, amount: u64, recipient: Account)
    requires
        balanced(m),
        holders_counted(m),
        owner_lists_counted(m),
        distinct_tokens(m),
        mint_place(m, token_id, amount, recipient) is Ok,
    ensures
        ({
            let m1 = mint_place(m, token_id, amount, recipient)->Ok_0.0;
            &&& balanced(m1)
            &&& holders_counted(m1)
            &&& owner_lists_counted(m1)
            &&& distinct_tokens(m1)
            &&& approvals_match_holders(m) ==> approvals_match_holders(m1)
            &&& m1.approved == m.approved
            &&& m1.total_supply == m.total_supply
            &&& forall|t: u64| #[trigger]
                held_total(m1.holders, t) == held_total(m.holders, t) + (if t == token_id {
                    amount as int
                } else {
                    0
                })
        }),
{
    let m1 = mint_place(m, token_id, amount, recipient)->Ok_0.0;
    let fresh = NFTHolder { amount, remaining_amount: amount, token_id };
    let id = (m.holders_cnt + 1) as u64;
    let listed = m.owners.contains_key(recipient);
    if listed {
        lemma_mint_scan_found(m.holders, m.owners[recipient], token_id);
    }
    let found = listed && mint_scan(m.holders, m.owners[recipient], token_id) is Found;
    if listed && mint_scan(m.holders, m.owners[recipient], token_id) is Absent {
        lemma_mint_scan_absent(m.holders, m.owners[recipient], token_id);
    }
    let k: u64 = if found {
        mint_scan(m.holders, m.owners[recipient], token_id)->Found_0
    } else {
        id
    };
    let x = m1.holders[k];
    assert(m1.holders == m.holders.insert(k, x));
    assert(!found ==> !m.holders.contains_key(k) && x == fresh);
    assert(found ==> m.holders.contains_key(k) && m.holders[k].token_id == token_id && x.amount
        == m.holders[k].amount + amount && x.remaining_amount == m.holders[k].remaining_amount
        + amount && x.token_id == token_id);
    assert(found ==> m1.owners == m.owners);
    // balance
    assert forall|g: u64| #[trigger] m1.holders.contains_key(g) implies m1.holders[g].amount
        == m1.holders[g].remaining_amount + reserved_total(m1.approved, g) by {
        if g == k && !found {
            assert forall|q: u64| #[trigger] m1.approved.contains_key(q) implies m1.approved[q].holder_id
                != g by {
                assert(m.approved[q].holder_id <= m.holders_cnt);
            }
            lemma_reserved_none(m1.approved, g, u64::MAX as nat);
        }
    }
    // holdings per token
    assert forall|t: u64| #[trigger] held_total(m1.holders, t) == held_total(m.holders, t) + (if t
        == token_id {
        amount as int
    } else {
        0
    }) by {
        lemma_held_insert(m.holders, t, u64::MAX as nat, k, x);
    }
    // owner lists
    assert forall|a: Account, i: int|
        m1.owners.contains_key(a) && 0 <= i < m1.owners[a].len() implies #[trigger] m1.owners[a][i]
        <= m1.holders_cnt by {
        if a != recipient || found {
            assert(m1.owners[a] == m.owners[a]);
        } else if listed && i < m.owners[a].len() {
            assert(m1.owners[a][i] == m.owners[a][i]);
        }
    }
    // distinct tokens
    assert forall|a: Account, i: int, j: int|
        #![trigger m1.owners[a][i], m1.owners[a][j]]
        m1.owners.contains_key(a) && 0 <= i < m1.owners[a].len() && 0 <= j < m1.owners[a].len() && i
            != j && m1.holders.contains_key(m1.owners[a][i]) && m1.holders.contains_key(
            m1.owners[a][j],
        ) implies m1.holders[m1.owners[a][i]].token_id != m1.holders[m1.owners[a][j]].token_id by {
        if a != recipient || found {
            assert(m1.owners[a] == m.owners[a]);
            let e = m.owners[a][i];
            let f = m.owners[a][j];
            assert(e <= m.holders_cnt && f <= m.holders_cnt);
            assert(m.holders.contains_key(e) && m.holders.contains_key(f));
            assert(m.holders[e].token_id != m.holders[f].token_id);
        } else if listed {
            let l = m.owners[a];
            assert(m1.owners[a] == l.push(id));
            if i < l.len() && j < l.len() {
                assert(l[i] <= m.holders_cnt && l[j] <= m.holders_cnt);
                assert(m1.owners[a][i] == l[i] && m1.owners[a][j] == l[j]);
                assert(m.holders.contains_key(l[i]) && m.holders.contains_key(l[j]));
            } else if i < l.len() {
                assert(m1.owners[a][i] == l[i]);
                assert(l[i] <= m.holders_cnt);
                assert(m.holders.contains_key(l[i]) && m.holders[l[i]].token_id != token_id);
            } else {
                assert(m1.owners[a][j] == l[j]);
                assert(l[j] <= m.holders_cnt);
                assert(m.holders.contains_key(l[j]) && m.holders[l[j]].token_id != token_id);
            }
        }
    }
    if approvals_match_holders(m) {
        assert forall|q: u64| #[trigger] m1.approved.contains_key(q) && m1.holders.contains_key(
            m1.approved[q].holder_id,
        ) implies m1.approved[q].token_id == m1.holders[m1.approved[q].holder_id].token_id by {
            assert(m.approved[q].holder_id <= m.holders_cnt);
        }
    }
}

/// A mint keeps each token's total supply equal to what its holders hold,
/// every holder's amount equal to what it has not reserved plus what all
/// approvals reserve of it, the holder ids within their counter, and no
/// owner with two holders of one token.
pub proof fn law_mint_keeps_invariants(
    m: LedgerModel,
    hash: Seq<char>,
    record: Seq<char>,
    amount: u64,
    recipient: Account,
)
    requires
        balanced(m),
        supply_matches(m),
        holders_counted(m),
        owner_lists_counted(m),
        distinct_tokens(m),
        mint_spec(m, hash, record, amount, recipient) is Ok,
    ensures
        ({
            let m1 = mint_spec(m, hash, record, amount, recipient)->Ok_0.0;
            &&& balanced(m1)
            &&& supply_matches(m1)
            &&& holders_counted(m1)
            &&& owner_lists_counted(m1)
            &&& distinct_tokens(m1)
            &&& approvals_counted(m) ==> approvals_counted(m1)
            &&& approvals_match_holders(m) ==> approvals_match_holders(m1)
        }),
{
    let (m1, token_id) = mint_token_id(m, hash).unwrap();
    let m2 = LedgerModel { metadatas: m1.metadatas.insert(token_id, record), ..m1 };
    let (m3, holder_id) = mint_place(m2, token_id, amount, recipient).unwrap();
    let m4 = mint_supply(m3, token_id, amount).unwrap();
    assert(balanced(m2) && supply_matches(m2) && holders_counted(m2));
    assert(owner_lists_counted(m2) && distinct_tokens(m2));
    assert(approvals_match_holders(m) ==> approvals_match_holders(m2));
    lemma_mint_place_keeps(m2, token_id, amount, recipient);
    assert forall|t: u64| #[trigger] held_total(m4.holders, t) == supply_of(m4, t) by {
        assert(held_total(m2.holders, t) == supply_of(m2, t));
    }
    assert(distinct_tokens(m4));
}

/// Where every holder's amount is what it has not reserved plus what all
/// approvals reserve of it, no holder has more unreserved tokens than
/// tokens, the sale of part of an approval never takes its holder below
/// zero, and taking it back never overflows.
pub proof fn law_reservations_fit(m: LedgerModel, approved_id: u64, amount: u64)
    requires
        balanced(m),
        m.approved.contains_key(approved_id),
        m.holders.contains_key(m.approved[approved_id].holder_id),
        amount <= m.approved[approved_id].amount,
    ensures
        m.holders[m.approved[approved_id].holder_id].amount >= amount,
        m.holders[m.approved[approved_id].holder_id].remaining_amount + amount <= u64::MAX,
        forall|h: u64| #[trigger]
            m.holders.contains_key(h) ==> m.holders[h].remaining_amount <= m.holders[h].amount,
{
    let h = m.approved[approved_id].holder_id;
    lemma_reserved_part(m.approved, h, u64::MAX as nat, approved_id);
    assert forall|g: u64| #[trigger]
        m.holders.contains_key(g) implies m.holders[g].remaining_amount <= m.holders[g].amount by {
        lemma_reserved_nonneg(m.approved, g, u64::MAX as nat);
    }
}

/// Publishing and cancelling requests touch only the request records and
/// lists: holdings, owner lists, approvals and supplies stay as they were,
/// and with them every invariant over those.
pub proof fn law_requests_touch_only_requests(
    m: LedgerModel,
    caller: Account,
    producer: Account,
    holder_id: u64,
    amount: u64,
    comission: u8,
    request_id: u64,
)
    ensures
        publish_request_spec(m, caller, producer, holder_id, amount, comission) is Ok ==> ({
            let m1 = publish_request_spec(m, caller, producer, holder_id, amount, comission)->Ok_0.0;
            &&& m1.holders == m.holders && m1.owners == m.owners && m1.approved == m.approved
            &&& m1.total_supply == m.total_supply && m1.holders_cnt == m.holders_cnt
            &&& m1.approved_cnt == m.approved_cnt
            &&& balanced(m1) == balanced(m) && supply_matches(m1) == supply_matches(m)
            &&& holders_counted(m1) == holders_counted(m) && approvals_counted(m1)
                == approvals_counted(m)
            &&& owner_lists_counted(m1) == owner_lists_counted(m) && approvals_match_holders(m1)
                == approvals_match_holders(m) && distinct_tokens(m1) == distinct_tokens(m)
        }),
        cancel_request_spec(m, caller, request_id) is Ok ==> ({
            let m1 = cancel_request_spec(m, caller, request_id)->Ok_0;
            &&& m1.holders == m.holders && m1.owners == m.owners && m1.approved == m.approved
            &&& m1.total_supply == m.total_supply && m1.holders_cnt == m.holders_cnt
            &&& m1.approved_cnt == m.approved_cnt
            &&& balanced(m1) == balanced(m) && supply_matches(m1) == supply_matches(m)
            &&& holders_counted(m1) == holders_counted(m) && approvals_counted(m1)
                == approvals_counted(m)
            &&& owner_lists_counted(m1) == owner_lists_counted(m) && approvals_match_holders(m1)
                == approvals_match_holders(m) && distinct_tokens(m1) == distinct_tokens(m)
        }),
{
    if publish_request_spec(m, caller, producer, holder_id, amount, comission) is Ok {
        let m1 = publish_request_spec(m, caller, producer, holder_id, amount, comission)->Ok_0.0;
        lemma_same_supply(m, m1);
    }
    if cancel_request_spec(m, caller, request_id) is Ok {
        let m1 = cancel_request_spec(m, caller, request_id)->Ok_0;
        lemma_same_supply(m, m1);
    }
}

/// Ledgers with the same holders and supplies agree on whether supplies
/// match holdings.
proof fn lemma_same_supply(m: LedgerModel, m1: LedgerModel)
    requires
        m1.holders == m.holders,
        m1.total_supply == m.total_supply,
    ensures
        supply_matches(m1) == supply_matches(m),
{
    if supply_matches(m) {
        assert forall|t: u64| #[trigger] held_total(m1.holders, t) == supply_of(m1, t) by {
            assert(held_total(m.holders, t) == supply_of(m, t));
        }
    }
    if supply_matches(m1) {
        assert forall|t: u64| #[trigger] held_total(m.holders, t) == supply_of(m, t) by {
            assert(held_total(m1.holders, t) == supply_of(m1, t));
        }
    }
}

/// Cancelling a request right after publishing it gives the publisher's and
/// the producer's request lists back as they were (an empty list where the
/// party had none), when neither list already held the new request id;
/// holdings, owner lists and approvals are untouched throughout.
pub proof fn law_cancel_undoes_publish(
    m: LedgerModel,
    caller: Account,
    producer: Account,
    holder_id: u64,
    amount: u64,
    comission: u8,
)
    requires
        publish_request_spec(m, caller, producer, holder_id, amount, comission) is Ok,
        m.publisher_requests.contains_key(caller) ==> !m.publisher_requests[caller].contains(
            (m.requests_cnt + 1) as u64,
        ),
        m.producer_requests.contains_key(producer) ==> !m.producer_requests[producer].contains(
            (m.requests_cnt + 1) as u64,
        ),
    ensures
        ({
            let (m1, id) = publish_request_spec(m, caller, producer, holder_id, amount, comission)->Ok_0;
            let r = cancel_request_spec(m1, caller, id);
            &&& r is Ok
            &&& r->Ok_0.publisher_requests == m.publisher_requests.insert(
                caller,
                if m.publisher_requests.contains_key(caller) {
                    m.publisher_requests[caller]
                } else {
                    Seq::empty()
                },
            )
            &&& r->Ok_0.producer_requests == m.producer_requests.insert(
                producer,
                if m.producer_requests.contains_key(producer) {
                    m.producer_requests[producer]
                } else {
                    Seq::empty()
                },
            )
            &&& r->Ok_0.holders == m.holders
            &&& r->Ok_0.owners == m.owners
            &&& r->Ok_0.approved == m.approved
            &&& r->Ok_0.total_supply == m.total_supply
        }),
{
    let (m1, id) = publish_request_spec(m, caller, producer, holder_id, amount, comission).unwrap();
    let e = Seq::<u64>::empty();
    let p = if m.publisher_requests.contains_key(caller) {
        m.publisher_requests[caller]
    } else {
        e
    };
    let q = if m.producer_requests.contains_key(producer) {
        m.producer_requests[producer]
    } else {
        e
    };
    lemma_without_pushed(p, id);
    lemma_without_pushed(q, id);
    assert(p.push(id) =~= m1.publisher_requests[caller]) by {
        if !m.publisher_requests.contains_key(caller) {
            assert(e.push(id) =~= seq![id]);
        }
    }
    assert(q.push(id) =~= m1.producer_requests[producer]) by {
        if !m.producer_requests.contains_key(producer) {
            assert(e.push(id) =~= seq![id]);
        }
    }
    let r = cancel_request_spec(m1, caller, id)->Ok_0;
    assert(r.publisher_requests =~= m.publisher_requests.insert(caller, p));
    assert(r.producer_requests =~= m.producer_requests.insert(producer, q));
}

/// Taking `x` out of a list that held it only as its last, appended entry
/// gives the list before the append.
proof fn lemma_without_pushed(s: Seq<u64>, x: u64)
    requires
        !s.contains(x),
    ensures
        seq_without(s.push(x), x) == s,
{
    assert(s.push(x).drop_last() =~= s);
    lemma_without_absent(s, x);
}

/// Taking out an id that a list does not hold leaves it as it is.
proof fn lemma_without_absent(s: Seq<u64>, x: u64)
    requires
        !s.contains(x),
    ensures
        seq_without(s, x) == s,
    decreases s.len(),
{
    if s.len() > 0 {
        assert(!s.drop_last().contains(x)) by {
            if s.drop_last().contains(x) {
                let i = choose|i: int| 0 <= i < s.drop_last().len() && s.drop_last()[i] == x;
                assert(s[i] == x);
            }
        }
        lemma_without_absent(s.drop_last(), x);
        assert(s.last() != x) by {
            assert(s[s.len() - 1] == s.last());
        }
        assert(s.drop_last().push(s.last()) =~= s);
    }
}

/// Minting under a known metadata hash reuses its token id; minting under
/// a new one takes the next id.
pub proof fn law_mint_token_id(
    m: LedgerModel,
    hash: Seq<char>,
    record: Seq<char>,
    amount: u64,
    recipient: Account,
)
    requires
        mint_spec(m, hash, record, amount, recipient) is Ok,
    ensures
        ({
            let (m1, receipt) = mint_spec(m, hash, record, amount, recipient)->Ok_0;
            &&& m.token_ids.contains_key(hash) ==> receipt.token_id == m.token_ids[hash]
            &&& !m.token_ids.contains_key(hash) ==> receipt.token_id == m.tokens_cnt + 1
            &&& m1.token_ids.contains_key(hash) && m1.token_ids[hash] == receipt.token_id
        }),
{
}

/// Two mints of the same metadata hash give the same token id.
pub proof fn law_mint_same_hash_same_token(
    m: LedgerModel,
    hash: Seq<char>,
    record1: Seq<char>,
    amount1: u64,
    recipient1: Account,
    record2: Seq<char>,
    amount2: u64,
    recipient2: Account,
)
    requires
        mint_spec(m, hash, record1, amount1, recipient1) is Ok,
        mint_spec(
            mint_spec(m, hash, record1, amount1, recipient1)->Ok_0.0,
            hash,
            record2,
            amount2,
            recipient2,
        ) is Ok,
    ensures
        mint_spec(
            mint_spec(m, hash, record1, amount1, recipient1)->Ok_0.0,
            hash,
            record2,
            amount2,
            recipient2,
        )->Ok_0.1.token_id == mint_spec(m, hash, record1, amount1, recipient1)->Ok_0.1.token_id,
{
    law_mint_token_id(m, hash, record1, amount1, recipient1);
    let m1 = mint_spec(m, hash, record1, amount1, recipient1)->Ok_0.0;
    law_mint_token_id(m1, hash, record2, amount2, recipient2);
}

/// A mint adds its amount to the token's total supply.
pub proof fn law_mint_total_supply(
    m: LedgerModel,
    hash: Seq<char>,
    record: Seq<char>,
    amount: u64,
    recipient: Account,
)
    requires
        mint_spec(m, hash, record, amount, recipient) is Ok,
    ensures
        ({
            let (m1, receipt) = mint_spec(m, hash, record, amount, recipient)->Ok_0;
            let before = if m.total_supply.contains_key(receipt.token_id) {
                m.total_supply[receipt.token_id] as int
            } else {
                0
            };
            m1.total_supply.contains_key(receipt.token_id) && m1.total_supply[receipt.token_id]
                == before + amount
        }),
{
}

/// What a mint stores as the token's metadata reads back as that metadata,
/// when its three texts hold no comma.
pub proof fn law_mint_metadata_reads_back(
    m: LedgerModel,
    hash: Seq<char>,
    md: MetadataView,
    amount: u64,
    recipient: Account,
)
    requires
        !md.name.contains(','),
        !md.token_uri.contains(','),
        !md.checksum.contains(','),
        md.price < pow64(4),
        mint_spec(m, hash, metadata_record(md), amount, recipient) is Ok,
    ensures
        ({
            let (m1, receipt) = mint_spec(m, hash, metadata_record(md), amount, recipient)->Ok_0;
            m1.metadatas.contains_key(receipt.token_id) && parse_record(
                m1.metadatas[receipt.token_id],
            ) == Some(md)
        }),
{
    lemma_record_round_trip(md);
}

/// Taking back the whole of a fresh approval gives its holder back the
/// amount it had before the approval.
pub proof fn law_disapprove_undoes_approve(m: LedgerModel, caller: Account, request_id: u64)
    requires
        approve_spec(m, caller, request_id) is Ok,
    ensures
        ({
            let (m1, approved_id) = approve_spec(m, caller, request_id)->Ok_0;
            let req = m.requests[request_id];
            let r = disapprove_spec(m1, caller, req.amount, approved_id, req.publisher);
            &&& r is Ok
            &&& r->Ok_0.holders[req.holder_id] == m.holders[req.holder_id]
            &&& r->Ok_0.approved[approved_id].amount == 0
        }),
{
}

/// Only the publisher of a request can cancel it, only the owner of an
/// approval can take it back, and only an owner of the holder can approve
/// a request on it.
pub proof fn law_only_parties_act(
    m: LedgerModel,
    caller: Account,
    id: u64,
    amount: u64,
    spender: Account,
)
    ensures
        cancel_request_spec(m, caller, id) is Ok ==> m.requests[id].publisher == caller,
        disapprove_spec(m, caller, amount, id, spender) is Ok ==> m.approved[id].owneraccount
            == caller,
        approve_spec(m, caller, id) is Ok ==> m.owners[caller].contains(m.requests[id].holder_id),
{
}

/// A completed purchase records its timestamp, so the same signed price
/// message, or any older one, is refused afterwards.
pub proof fn law_price_message_not_replayed(
    m: LedgerModel,
    caller: Account,
    message: Seq<char>,
    approved_id: u64,
    amount: u64,
    balance: Option<nat>,
    later_message: Seq<char>,
    later_approved_id: u64,
    later_amount: u64,
    later_balance: Option<nat>,
)
    requires
        buy_spec(m, true, message, approved_id, amount, balance) is Ok,
        settle_buy_spec(
            m,
            caller,
            approved_id,
            amount,
            buy_spec(m, true, message, approved_id, amount, balance)->Ok_0.timestamp,
        ) is Ok,
        parse_price_message(later_message) matches Some(later) && parse_price_message(message) matches Some(
            first) && later.1 <= first.1,
    ensures
        buy_spec(
            settle_buy_spec(
                m,
                caller,
                approved_id,
                amount,
                buy_spec(m, true, message, approved_id, amount, balance)->Ok_0.timestamp,
            )->Ok_0.0,
            true,
            later_message,
            later_approved_id,
            later_amount,
            later_balance,
        ) == Err::<BuyTerms, Error>(Error::InvalidTimestamp),
{
}

/// The buyer's payment is split without loss: the producer's and the
/// publisher's parts add up to the price paid, and the producer gets
/// `100 - percentage` percent of it, rounded down.
pub proof fn law_payment_split(
    m: LedgerModel,
    signature_ok: bool,
    message: Seq<char>,
    approved_id: u64,
    amount: u64,
    balance: Option<nat>,
)
    requires
        buy_spec(m, signature_ok, message, approved_id, amount, balance) is Ok,
    ensures
        ({
            let t = buy_spec(m, signature_ok, message, approved_id, amount, balance)->Ok_0;
            &&& t.producer_part + t.publisher_part == t.amount_to_pay
            &&& t.producer_part <= t.amount_to_pay
            &&& t.amount_to_pay <= balance->0
            &&& t.producer_part * 100 <= t.amount_to_pay * (100 - t.approval.percentage)
        }),
{
    let t = buy_spec(m, signature_ok, message, approved_id, amount, balance)->Ok_0;
    let q: nat = (100 - t.approval.percentage) as nat;
    let p = t.amount_to_pay;
    assert(p * q / 100 <= p) by (nonlinear_arith)
        requires
            q <= 100,
    ;
    assert((p * q / 100) * 100 <= p * q) by (nonlinear_arith);
}

/// Every token id filed under a metadata hash was handed out by the token
/// counter.
pub open spec fn tokens_counted(m: LedgerModel) -> bool {
    forall|h: Seq<char>| #[trigger] m.token_ids.contains_key(h) ==> m.token_ids[h] <= m.tokens_cnt
}

/// A mint never lowers the token counter and keeps every filed token id
/// within it. A known hash keeps its token id and leaves the counter as it
/// was; a new hash gets the next id, which no other hash had, and only then
/// does the counter move, by one. Every other hash keeps its token id.
pub proof fn law_mint_token_counter(
    m: LedgerModel,
    hash: Seq<char>,
    record: Seq<char>,
    amount: u64,
    recipient: Account,
)
    requires
        tokens_counted(m),
        mint_spec(m, hash, record, amount, recipient) is Ok,
    ensures
        ({
            let (m1, receipt) = mint_spec(m, hash, record, amount, recipient)->Ok_0;
            &&& tokens_counted(m1)
            &&& m1.tokens_cnt >= m.tokens_cnt
            &&& m.token_ids.contains_key(hash) ==> m1.tokens_cnt == m.tokens_cnt
            &&& !m.token_ids.contains_key(hash) ==> m1.tokens_cnt == m.tokens_cnt + 1
                && receipt.token_id == m1.tokens_cnt
            &&& !m.token_ids.contains_key(hash) ==> forall|g: Seq<char>| #[trigger]
                m.token_ids.contains_key(g) ==> m.token_ids[g] != receipt.token_id
            &&& forall|g: Seq<char>| #[trigger]
                m.token_ids.contains_key(g) ==> m1.token_ids.contains_key(g) && m1.token_ids[g]
                    == m.token_ids[g]
            &&& m1.token_ids.contains_key(hash) && m1.token_ids[hash] == receipt.token_id
        }),
{
}

/// A purchase of part of an approval goes through on a balanced ledger
/// whenever the timestamp is newer, the approval and its holder exist, the
/// amount is within the approval, the holder counter can move on, and, for
/// a purchase that uses the approval up, both approval lists exist: the
/// holder's unreserved amount never blocks the sale of tokens its approval
/// reserves. The seller's holder (where its id is within the holder
/// counter) keeps its unreserved amount.
pub proof fn law_settle_buy_succeeds(
    m: LedgerModel,
    caller: Account,
    approved_id: u64,
    amount: u64,
    timestamp: u64,
)
    requires
        balanced(m),
        timestamp > m.latest_timestamp,
        m.approved.contains_key(approved_id),
        amount <= m.approved[approved_id].amount,
        m.holders.contains_key(m.approved[approved_id].holder_id),
        m.holders_cnt < u64::MAX,
        amount == m.approved[approved_id].amount ==> m.publishers_approved.contains_key(
            m.approved[approved_id].publisheraccount,
        ) && m.producers_approved.contains_key(m.approved[approved_id].owneraccount),
    ensures
        settle_buy_spec(m, caller, approved_id, amount, timestamp) is Ok,
        ({
            let (m1, id) = settle_buy_spec(m, caller, approved_id, amount, timestamp)->Ok_0;
            let hid = m.approved[approved_id].holder_id;
            &&& id == m.holders_cnt + 1
            &&& hid <= m.holders_cnt ==> m1.holders[hid].amount == m.holders[hid].amount - amount
                && m1.holders[hid].remaining_amount == m.holders[hid].remaining_amount
            &&& m1.holders[id].amount == amount
            &&& m1.holders[id].remaining_amount == amount
            &&& m1.holders[id].token_id == m.approved[approved_id].token_id
            &&& m1.approved[approved_id].amount == m.approved[approved_id].amount - amount
            &&& m1.latest_timestamp == timestamp
            &&& m1.owners.contains_key(caller)
            &&& m1.owners[caller].last() == id
            &&& m1.owners[caller].drop_last() == (if m.owners.contains_key(caller) {
                m.owners[caller]
            } else {
                Seq::empty()
            })
            &&& amount == m.approved[approved_id].amount ==> !m1.publishers_approved[m.approved[approved_id].publisheraccount].contains(
                approved_id,
            ) && !m1.producers_approved[m.approved[approved_id].owneraccount].contains(approved_id)
            &&& amount < m.approved[approved_id].amount ==> m1.publishers_approved
                == m.publishers_approved && m1.producers_approved == m.producers_approved
        }),
{
    let a = m.approved[approved_id];
    let (m1, id) = settle_buy_spec(m, caller, approved_id, amount, timestamp).unwrap();
    assert(seq![id].drop_last() =~= Seq::<u64>::empty());
    if m.owners.contains_key(caller) {
        assert(m.owners[caller].push(id).drop_last() =~= m.owners[caller]);
    }
    if amount == a.amount {
        lemma_without_drops(m.publishers_approved[a.publisheraccount], approved_id);
        lemma_without_drops(m.producers_approved[a.owneraccount], approved_id);
    }
    lemma_reserved_part(m.approved, a.holder_id, u64::MAX as nat, approved_id);
    assert(reserved_by(m.approved, a.holder_id, approved_id) == a.amount);
    assert(m.holders[a.holder_id].amount == m.holders[a.holder_id].remaining_amount
        + reserved_total(m.approved, a.holder_id));
    assert(m.holders[a.holder_id].amount >= amount);
}

/// `approve` goes through whenever the request exists, the caller's owner
/// list holds its holder, that holder exists and has at least the requested
/// amount both unreserved and in all, the approval counter can move on, and
/// both parties have request lists. The new approval reserves the requested
/// amount of that holder for the request's publisher, and the request
/// leaves both request lists.
pub proof fn law_approve_succeeds(m: LedgerModel, caller: Account, request_id: u64)
    requires
        m.requests.contains_key(request_id),
        m.owners.contains_key(caller),
        m.owners[caller].contains(m.requests[request_id].holder_id),
        m.holders.contains_key(m.requests[request_id].holder_id),
        m.holders[m.requests[request_id].holder_id].remaining_amount
            >= m.requests[request_id].amount,
        m.holders[m.requests[request_id].holder_id].amount >= m.requests[request_id].amount,
        m.approved_cnt < u64::MAX,
        m.publisher_requests.contains_key(m.requests[request_id].publisher),
        m.producer_requests.contains_key(caller),
    ensures
        approve_spec(m, caller, request_id) is Ok,
        ({
            let (m1, id) = approve_spec(m, caller, request_id)->Ok_0;
            let req = m.requests[request_id];
            &&& id == m.approved_cnt + 1
            &&& m1.approved.contains_key(id)
            &&& m1.approved[id].holder_id == req.holder_id
            &&& m1.approved[id].amount == req.amount
            &&& m1.approved[id].owneraccount == caller
            &&& m1.approved[id].publisheraccount == req.publisher
            &&& m1.holders[req.holder_id].remaining_amount == m.holders[req.holder_id].remaining_amount
                - req.amount
            &&& m1.approved[id].token_id == m.holders[req.holder_id].token_id
            &&& m1.approved[id].percentage == req.percentage
            &&& m1.holders[req.holder_id].amount == m.holders[req.holder_id].amount
            &&& !m1.publisher_requests[req.publisher].contains(request_id)
            &&& !m1.producer_requests[caller].contains(request_id)
            &&& m1.publishers_approved[req.publisher].last() == id
            &&& m1.producers_approved[caller].last() == id
        }),
{
    let req = m.requests[request_id];
    lemma_without_drops(m.publisher_requests[req.publisher], request_id);
    lemma_without_drops(m.producer_requests[caller], request_id);
}

/// `publish_request` goes through whenever the holder exists with at least
/// the requested amount, its id occurs anywhere in the producer's owner
/// list, and the request counter can move on. The request is recorded as
/// asked under the next id, which ends both parties' request lists, after
/// the ids they held before.
pub proof fn law_publish_request_succeeds(
    m: LedgerModel,
    caller: Account,
    producer: Account,
    holder_id: u64,
    amount: u64,
    comission: u8,
)
    requires
        m.holders.contains_key(holder_id),
        m.holders[holder_id].amount >= amount,
        m.owners.contains_key(producer),
        m.owners[producer].contains(holder_id),
        m.requests_cnt < u64::MAX,
    ensures
        publish_request_spec(m, caller, producer, holder_id, amount, comission) is Ok,
        ({
            let (m1, id) = publish_request_spec(m, caller, producer, holder_id, amount, comission)->Ok_0;
            &&& id == m.requests_cnt + 1
            &&& m1.requests.contains_key(id)
            &&& m1.requests[id].holder_id == holder_id
            &&& m1.requests[id].amount == amount
            &&& m1.requests[id].percentage == comission
            &&& m1.requests[id].producer == producer
            &&& m1.requests[id].publisher == caller
            &&& m1.publisher_requests.contains_key(caller)
            &&& m1.publisher_requests[caller].last() == id
            &&& m1.publisher_requests[caller].drop_last() == (if m.publisher_requests.contains_key(
                caller,
            ) {
                m.publisher_requests[caller]
            } else {
                Seq::empty()
            })
            &&& m1.producer_requests.contains_key(producer)
            &&& m1.producer_requests[producer].last() == id
            &&& m1.producer_requests[producer].drop_last() == (if m.producer_requests.contains_key(
                producer,
            ) {
                m.producer_requests[producer]
            } else {
                Seq::empty()
            })
        }),
{
    let (m1, id) = publish_request_spec(m, caller, producer, holder_id, amount, comission).unwrap();
    assert(seq![id].drop_last() =~= Seq::<u64>::empty());
    if m.publisher_requests.contains_key(caller) {
        assert(m.publisher_requests[caller].push(id).drop_last() =~= m.publisher_requests[caller]);
    }
    if m.producer_requests.contains_key(producer) {
        assert(m.producer_requests[producer].push(id).drop_last() =~= m.producer_requests[producer]);
    }
}

/// After a cancelled request, neither the publisher's nor the producer's
/// request list holds its id anywhere, and each keeps every other id it
/// held, in order.
pub proof fn law_cancel_request_removes_everywhere(m: LedgerModel, caller: Account, request_id: u64)
    requires
        cancel_request_spec(m, caller, request_id) is Ok,
    ensures
        ({
            let m1 = cancel_request_spec(m, caller, request_id)->Ok_0;
            let p = m.requests[request_id].producer;
            &&& m1.publisher_requests.contains_key(caller)
            &&& m1.producer_requests.contains_key(p)
            &&& !m1.publisher_requests[caller].contains(request_id)
            &&& !m1.producer_requests[p].contains(request_id)
            &&& forall|x: u64|
                x != request_id ==> (#[trigger] m1.publisher_requests[caller].contains(x)
                    <==> m.publisher_requests[caller].contains(x))
            &&& forall|x: u64|
                x != request_id ==> (#[trigger] m1.producer_requests[p].contains(x)
                    <==> m.producer_requests[p].contains(x))
        }),
{
    let p = m.requests[request_id].producer;
    lemma_without_drops(m.publisher_requests[caller], request_id);
    lemma_without_drops(m.producer_requests[p], request_id);
}

/// Taking `x` out of a list leaves no `x` and keeps every other id.
proof fn lemma_without_drops(s: Seq<u64>, x: u64)
    ensures
        !seq_without(s, x).contains(x),
        forall|y: u64| y != x ==> (#[trigger] seq_without(s, x).contains(y) <==> s.contains(y)),
    decreases s.len(),
{
    if s.len() > 0 {
        let t = s.drop_last();
        lemma_without_drops(t, x);
        let w = seq_without(t, x);
        assert(s =~= t.push(s.last()));
        assert forall|y: u64| y != x implies (#[trigger] seq_without(s, x).contains(y)
            <==> s.contains(y)) by {
            if s.contains(y) {
                let i = choose|i: int| 0 <= i < s.len() && s[i] == y;
                if i < t.len() {
                    assert(t[i] == y);
                    assert(t.contains(y));
                    assert(seq_without(t, x).contains(y));
                    let k = choose|k: int| 0 <= k < w.len() && w[k] == y;
                    if s.last() != x {
                        assert(seq_without(s, x) == w.push(s.last()));
                    }
                    assert(seq_without(s, x)[k] == y);
                } else {
                    assert(seq_without(s, x) == w.push(s.last()));
                    assert(seq_without(s, x)[w.len() as int] == y);
                }
            }
            if seq_without(s, x).contains(y) {
                let i = choose|i: int| 0 <= i < seq_without(s, x).len() && seq_without(s, x)[i] == y;
                if s.last() == x || i < w.len() {
                    assert(w[i] == y);
                    assert(w.contains(y));
                    assert(seq_without(t, x).contains(y));
                    assert(t.contains(y));
                    let j = choose|j: int| 0 <= j < t.len() && t[j] == y;
                    assert(s[j] == y);
                } else {
                    assert(s[s.len() - 1] == y);
                }
            }
        }
        assert(!seq_without(s, x).contains(x)) by {
            if seq_without(s, x).contains(x) {
                let i = choose|i: int| 0 <= i < seq_without(s, x).len() && seq_without(s, x)[i] == x;
                if s.last() != x && i == w.len() {
                } else {
                    assert(w[i] == x);
                }
            }
        }
    }
}

/// `disapprove` goes through whenever the caller owns the approval, the
/// amount is within it, the approval's holder exists, the ledger is balanced,
/// and, for a take-back that uses the approval up, both approval lists
/// exist. The amount leaves the approval and returns to the holder's
/// unreserved amount; an approval used up leaves both approval lists.
pub proof fn law_disapprove_succeeds(
    m: LedgerModel,
    caller: Account,
    amount: u64,
    approved_id: u64,
    spender: Account,
)
    requires
        balanced(m),
        m.approved.contains_key(approved_id),
        m.approved[approved_id].owneraccount == caller,
        amount <= m.approved[approved_id].amount,
        m.holders.contains_key(m.approved[approved_id].holder_id),
        amount == m.approved[approved_id].amount ==> m.publishers_approved.contains_key(spender)
            && m.producers_approved.contains_key(caller),
    ensures
        disapprove_spec(m, caller, amount, approved_id, spender) is Ok,
        ({
            let m1 = disapprove_spec(m, caller, amount, approved_id, spender)->Ok_0;
            let a = m.approved[approved_id];
            &&& m1.approved[approved_id].amount == a.amount - amount
            &&& m1.approved[approved_id].holder_id == a.holder_id
            &&& m1.holders[a.holder_id].remaining_amount == m.holders[a.holder_id].remaining_amount
                + amount
            &&& m1.holders[a.holder_id].amount == m.holders[a.holder_id].amount
            &&& amount == a.amount ==> !m1.publishers_approved[spender].contains(approved_id)
                && !m1.producers_approved[caller].contains(approved_id)
            &&& amount < a.amount ==> m1.publishers_approved == m.publishers_approved
                && m1.producers_approved == m.producers_approved
        }),
{
    law_disapprove_keeps_balance(m, caller, amount, approved_id, spender);
    if amount == m.approved[approved_id].amount {
        lemma_without_drops(m.publishers_approved[spender], approved_id);
        lemma_without_drops(m.producers_approved[caller], approved_id);
    }
}

/// `cancel_request` goes through whenever the request exists, the caller
/// published it, and both parties have request lists.
pub proof fn law_cancel_request_succeeds(m: LedgerModel, caller: Account, request_id: u64)
    requires
        m.requests.contains_key(request_id),
        m.requests[request_id].publisher == caller,
        m.publisher_requests.contains_key(caller),
        m.producer_requests.contains_key(m.requests[request_id].producer),
    ensures
        cancel_request_spec(m, caller, request_id) is Ok,
{
}

/// A mint to a recipient with no holders yet goes through whenever the
/// counters can move on and the token's supply has room for the amount: the
/// recipient gets one new holder with the whole amount, unreserved, of the
/// token filed under the hash (the next token id for a new hash), and that
/// token's supply grows by the amount.
pub proof fn law_mint_to_new_owner(
    m: LedgerModel,
    hash: Seq<char>,
    record: Seq<char>,
    amount: u64,
    recipient: Account,
)
    requires
        !m.owners.contains_key(recipient),
        m.tokens_cnt < u64::MAX,
        m.holders_cnt < u64::MAX,
        supply_of(
            m,
            if m.token_ids.contains_key(hash) {
                m.token_ids[hash]
            } else {
                (m.tokens_cnt + 1) as u64
            },
        ) + amount <= u64::MAX,
    ensures
        mint_spec(m, hash, record, amount, recipient) is Ok,
        ({
            let (m1, receipt) = mint_spec(m, hash, record, amount, recipient)->Ok_0;
            let t = receipt.token_id;
            &&& t == (if m.token_ids.contains_key(hash) {
                m.token_ids[hash]
            } else {
                (m.tokens_cnt + 1) as u64
            })
            &&& receipt.holder_id == m.holders_cnt + 1
            &&& m1.holders[receipt.holder_id].amount == amount
            &&& m1.holders[receipt.holder_id].remaining_amount == amount
            &&& m1.holders[receipt.holder_id].token_id == t
            &&& m1.owners[recipient] == seq![receipt.holder_id]
            &&& supply_of(m1, t) == supply_of(m, t) + amount
            &&& m1.metadatas[t] == record
        }),
{
}

} // verus!
