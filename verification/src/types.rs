use vstd::prelude::*;
use crate::table::TableKey;

verus! {

/// The 32-byte hash that identifies an account.
#[derive(Clone, Copy, Debug)]
pub struct Account {
    pub hash: [u8; 32],
}

impl View for Account {
    type V = Account;

    open spec fn view(&self) -> Account {
        *self
    }
}

impl Account {
    /// Whether two accounts are the same account.
    pub fn same(&self, other: &Account) -> (b: bool)
        ensures
            b == (*self == *other),
    {
        broadcast use vstd::array::group_array_axioms;

        let mut i: usize = 0;
        while i < 32
            invariant
                0 <= i <= 32,
                forall|j: int| 0 <= j < i ==> self.hash[j] == other.hash[j],
            decreases 32 - i,
        {
            if self.hash[i] != other.hash[i] {
                return false;
            }
            i = i + 1;
        }
        assert(self.hash =~= other.hash);
        true
    }
}

impl TableKey for Account {
    fn same_key(&self, other: &Self) -> (b: bool) {
        self.same(other)
    }

    fn copy_key(&self) -> (c: Self) {
        *self
    }
}

/// A holding of a token: how much of it is held and how much of that is not
/// reserved by an approval.
#[derive(Clone, Copy, Debug)]
pub struct NFTHolder {
    pub amount: u64,
    pub remaining_amount: u64,
    pub token_id: u64,
}

impl View for NFTHolder {
    type V = NFTHolder;

    open spec fn view(&self) -> NFTHolder {
        *self
    }
}

impl NFTHolder {
    pub fn new(amount: u64, remaining_amount: u64, token_id: u64) -> (h: NFTHolder)
        ensures
            h == (NFTHolder { amount, remaining_amount, token_id }),
    {
        NFTHolder { amount, remaining_amount, token_id }
    }
}

/// An approval: `amount` tokens of holder `holder_id`, owned by
/// `owneraccount`, that `publisheraccount` may sell for a `percentage`.
#[derive(Clone, Copy, Debug)]
pub struct ApprovedNFT {
    pub holder_id: u64,
    pub amount: u64,
    pub owneraccount: Account,
    pub publisheraccount: Account,
    pub token_id: u64,
    pub percentage: u8,
}

impl View for ApprovedNFT {
    type V = ApprovedNFT;

    open spec fn view(&self) -> ApprovedNFT {
        *self
    }
}

impl ApprovedNFT {
    pub fn new(
        holder_id: u64,
        amount: u64,
        owneraccount: Account,
        publisheraccount: Account,
        token_id: u64,
        percentage: u8,
    ) -> (a: ApprovedNFT)
        ensures
            a == (ApprovedNFT { holder_id, amount, owneraccount, publisheraccount, token_id, percentage }),
    {
        ApprovedNFT { holder_id, amount, owneraccount, publisheraccount, token_id, percentage }
    }
}

/// A publisher's request to sell `amount` tokens of a producer's holder.
#[derive(Clone, Copy, Debug)]
pub struct PublishRequest {
    pub holder_id: u64,
    pub amount: u64,
    pub percentage: u8,
    pub producer: Account,
    pub publisher: Account,
}

impl View for PublishRequest {
    type V = PublishRequest;

    open spec fn view(&self) -> PublishRequest {
        *self
    }
}

impl PublishRequest {
    pub fn new(holder_id: u64, amount: u64, percentage: u8, producer: Account, publisher: Account) -> (r:
        PublishRequest)
        ensures
            r == (PublishRequest { holder_id, amount, percentage, producer, publisher }),
    {
        PublishRequest { holder_id, amount, percentage, producer, publisher }
    }
}

/// `s` with every occurrence of `x` taken out, the rest in order.
pub open spec fn seq_without(s: Seq<u64>, x: u64) -> Seq<u64>
    decreases s.len(),
{
    if s.len() == 0 {
        s
    } else if s.last() == x {
        seq_without(s.drop_last(), x)
    } else {
        seq_without(s.drop_last(), x).push(s.last())
    }
}

/// A list of ids (holder ids, approval ids or request ids).
#[derive(Debug)]
pub struct U64list {
    pub list: Vec<u64>,
}

impl View for U64list {
    type V = Seq<u64>;

    open spec fn view(&self) -> Seq<u64> {
        self.list@
    }
}

impl U64list {
    pub fn new() -> (l: U64list)
        ensures
            l@ == Seq::<u64>::empty(),
    {
        U64list { list: Vec::new() }
    }

    /// Appends `id` at the end.
    pub fn add(&mut self, id: u64)
        ensures
            final(self)@ == old(self)@.push(id),
    {
        self.list.push(id);
    }

    /// Takes every occurrence of `id` out of the list.
    pub fn remove(&mut self, id: u64)
        ensures
            final(self)@ == seq_without(old(self)@, id),
    {
        let mut kept: Vec<u64> = Vec::new();
        let n = self.list.len();
        let mut i: usize = 0;
        while i < n
            invariant
                n == self.list@.len(),
                0 <= i <= n,
                kept@ == seq_without(self.list@.take(i as int), id),
            decreases n - i,
        {
            let x = self.list[i];
            assert(self.list@.take(i + 1).drop_last() =~= self.list@.take(i as int));
            if x != id {
                kept.push(x);
            }
            i = i + 1;
        }
        assert(self.list@.take(n as int) =~= self.list@);
        self.list = kept;
    }

    pub fn contains(&self, id: u64) -> (b: bool)
        ensures
            b == self@.contains(id),
    {
        let n = self.list.len();
        let mut i: usize = 0;
        while i < n
            invariant
                n == self.list@.len(),
                0 <= i <= n,
                forall|j: int| 0 <= j < i ==> self.list@[j] != id,
            decreases n - i,
        {
            if self.list[i] == id {
                assert(self.list@[i as int] == id);
                return true;
            }
            i = i + 1;
        }
        false
    }

    /// A copy with the same ids.
    pub fn duplicate(&self) -> (c: U64list)
        ensures
            c@ == self@,
    {
        let mut list: Vec<u64> = Vec::new();
        let n = self.list.len();
        let mut i: usize = 0;
        while i < n
            invariant
                n == self.list@.len(),
                0 <= i <= n,
                list@ == self.list@.take(i as int),
            decreases n - i,
        {
            list.push(self.list[i]);
            assert(self.list@.take(i + 1) =~= self.list@.take(i as int).push(self.list@[i as int]));
            i = i + 1;
        }
        assert(self.list@.take(n as int) =~= self.list@);
        U64list { list }
    }
}

} // verus!
