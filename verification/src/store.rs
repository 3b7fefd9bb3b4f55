//! The persistent store, modelled as in-memory tables with explicit
//! invariants: a pricebook, accounts, in-flight partial transactions and
//! completed transaction history, each keyed by a unique identifier.
//!
//! Contracts describe each table through a finite map from key to
//! contents, derived from the underlying sequence of rows.

use vstd::prelude::*;

use crate::model::{Account, CompletedTransaction, Item, PartialTransaction, SyncState, TxEntry};
use crate::model::{BalanceUpdate, UpdateOperation};

verus! {

/// The map a sequence of key/value rows denotes; on duplicate keys the
/// later row wins.
pub open spec fn kv_map_of<K, V>(s: Seq<(K, V)>) -> Map<K, V>
    decreases s.len(),
{
    if s.len() == 0 {
        Map::empty()
    } else {
        kv_map_of(s.drop_last()).insert(s.last().0, s.last().1)
    }
}

/// No two rows share a key.
pub open spec fn kv_unique<K, V>(s: Seq<(K, V)>) -> bool {
    forall|i: int, j: int|
        0 <= i < j < s.len() ==> (#[trigger] s[i]).0 != (#[trigger] s[j]).0
}

/// A key is in the map exactly when some row carries it.
pub proof fn lemma_kv_contains<K, V>(s: Seq<(K, V)>, k: K)
    ensures
        kv_map_of(s).contains_key(k) <==> exists|i: int|
            0 <= i < s.len() && (#[trigger] s[i]).0 == k,
    decreases s.len(),
{
    if s.len() > 0 {
        lemma_kv_contains(s.drop_last(), k);
        if s.last().0 == k {
            assert(s[s.len() - 1].0 == k);
        } else if kv_map_of(s).contains_key(k) {
            let i = choose|i: int| 0 <= i < s.drop_last().len() && (#[trigger] s.drop_last()[i]).0 == k;
            assert(s[i].0 == k);
        } else {
            assert forall|i: int| 0 <= i < s.len() implies (#[trigger] s[i]).0 != k by {
                if i < s.len() - 1 {
                    assert(s.drop_last()[i] == s[i]);
                }
            }
        }
    }
}

/// With unique keys, the map sends each row's key to that row's value.
pub proof fn lemma_kv_index<K, V>(s: Seq<(K, V)>, i: int)
    requires
        kv_unique(s),
        0 <= i < s.len(),
    ensures
        kv_map_of(s).contains_key(s[i].0),
        kv_map_of(s)[s[i].0] == s[i].1,
    decreases s.len(),
{
    if i == s.len() - 1 {
    } else {
        assert(kv_unique(s.drop_last())) by {
            assert forall|a: int, b: int|
                0 <= a < b < s.drop_last().len() implies (#[trigger] s.drop_last()[a]).0 != (
            #[trigger] s.drop_last()[b]).0 by {
                assert(s.drop_last()[a] == s[a]);
                assert(s.drop_last()[b] == s[b]);
            }
        }
        assert(s.drop_last()[i] == s[i]);
        lemma_kv_index(s.drop_last(), i);
        assert(s[i].0 != s.last().0) by {
            assert(s[s.len() - 1] == s.last());
        }
    }
}

/// Appending a fresh row inserts its binding.
pub proof fn lemma_kv_push<K, V>(s: Seq<(K, V)>, p: (K, V))
    ensures
        kv_map_of(s.push(p)) == kv_map_of(s).insert(p.0, p.1),
{
    assert(s.push(p).drop_last() =~= s);
    assert(s.push(p).last() == p);
}

/// Replacing the row that carries a key overwrites its binding.
pub proof fn lemma_kv_update<K, V>(s: Seq<(K, V)>, i: int, p: (K, V))
    requires
        kv_unique(s),
        0 <= i < s.len(),
        s[i].0 == p.0,
    ensures
        kv_map_of(s.update(i, p)) == kv_map_of(s).insert(p.0, p.1),
    decreases s.len(),
{
    if i == s.len() - 1 {
        assert(s.update(i, p).drop_last() =~= s.drop_last());
        assert(s.update(i, p).last() == p);
        assert(kv_map_of(s.drop_last()).insert(s.last().0, s.last().1).insert(p.0, p.1)
            =~= kv_map_of(s.drop_last()).insert(p.0, p.1));
    } else {
        assert(kv_unique(s.drop_last())) by {
            assert forall|a: int, b: int|
                0 <= a < b < s.drop_last().len() implies (#[trigger] s.drop_last()[a]).0 != (
            #[trigger] s.drop_last()[b]).0 by {
                assert(s.drop_last()[a] == s[a]);
                assert(s.drop_last()[b] == s[b]);
            }
        }
        assert(s.drop_last()[i] == s[i]);
        lemma_kv_update(s.drop_last(), i, p);
        assert(s.update(i, p).drop_last() =~= s.drop_last().update(i, p));
        assert(s.update(i, p).last() == s.last());
        assert(s[i].0 != s.last().0) by {
            assert(s[s.len() - 1] == s.last());
        }
        assert(kv_map_of(s.drop_last()).insert(p.0, p.1).insert(s.last().0, s.last().1)
            =~= kv_map_of(s.drop_last()).insert(s.last().0, s.last().1).insert(p.0, p.1));
    }
}

/// Removing the row that carries a key removes its binding.
pub proof fn lemma_kv_remove<K, V>(s: Seq<(K, V)>, i: int)
    requires
        kv_unique(s),
        0 <= i < s.len(),
    ensures
        kv_map_of(s.remove(i)) == kv_map_of(s).remove(s[i].0),
    decreases s.len(),
{
    if i == s.len() - 1 {
        assert(s.remove(i) =~= s.drop_last());
        lemma_kv_contains(s.drop_last(), s[i].0);
        assert forall|a: int| 0 <= a < s.drop_last().len() implies (#[trigger] s.drop_last()[a]).0
            != s[i].0 by {
            assert(s.drop_last()[a] == s[a]);
        }
        assert(!kv_map_of(s.drop_last()).contains_key(s[i].0));
        assert(s[s.len() - 1] == s.last());
        assert(kv_map_of(s.drop_last()) =~= kv_map_of(s.drop_last()).insert(s.last().0,
            s.last().1).remove(s.last().0));
    } else {
        assert(kv_unique(s.drop_last())) by {
            assert forall|a: int, b: int|
                0 <= a < b < s.drop_last().len() implies (#[trigger] s.drop_last()[a]).0 != (
            #[trigger] s.drop_last()[b]).0 by {
                assert(s.drop_last()[a] == s[a]);
                assert(s.drop_last()[b] == s[b]);
            }
        }
        assert(s.drop_last()[i] == s[i]);
        lemma_kv_remove(s.drop_last(), i);
        assert(s.remove(i).drop_last() =~= s.drop_last().remove(i));
        assert(s.remove(i).last() == s.last()) by {
            assert(s.remove(i)[s.len() - 2] == s[s.len() - 1]);
        }
        assert(s[i].0 != s.last().0) by {
            assert(s[s.len() - 1] == s.last());
        }
        assert(kv_map_of(s.drop_last()).remove(s[i].0).insert(s.last().0, s.last().1)
            =~= kv_map_of(s.drop_last()).insert(s.last().0, s.last().1).remove(s[i].0));
    }
}


/// Appending a row with a fresh key keeps keys unique.
pub proof fn lemma_kv_unique_push<K, V>(s: Seq<(K, V)>, p: (K, V))
    requires
        kv_unique(s),
        !kv_map_of(s).contains_key(p.0),
    ensures
        kv_unique(s.push(p)),
{
    lemma_kv_contains(s, p.0);
    assert forall|i: int, j: int|
        0 <= i < j < s.push(p).len() implies (#[trigger] s.push(p)[i]).0 != (
    #[trigger] s.push(p)[j]).0 by {
        if j == s.len() {
            assert(s.push(p)[i] == s[i]);
        } else {
            assert(s.push(p)[i] == s[i]);
            assert(s.push(p)[j] == s[j]);
        }
    }
}

/// Overwriting a row with one that keeps its key keeps keys unique.
pub proof fn lemma_kv_unique_update<K, V>(s: Seq<(K, V)>, i: int, p: (K, V))
    requires
        kv_unique(s),
        0 <= i < s.len(),
        s[i].0 == p.0,
    ensures
        kv_unique(s.update(i, p)),
{
}

/// Removing a row keeps keys unique.
pub proof fn lemma_kv_unique_remove<K, V>(s: Seq<(K, V)>, i: int)
    requires
        kv_unique(s),
        0 <= i < s.len(),
    ensures
        kv_unique(s.remove(i)),
{
    assert forall|a: int, b: int|
        0 <= a < b < s.remove(i).len() implies (#[trigger] s.remove(i)[a]).0 != (
    #[trigger] s.remove(i)[b]).0 by {
        let a0 = if a < i { a } else { a + 1 };
        let b0 = if b < i { b } else { b + 1 };
        assert(s.remove(i)[a] == s[a0]);
        assert(s.remove(i)[b] == s[b0]);
    }
}

/// An account with its balance replaced, all else equal.
pub open spec fn with_credit(a: Account, credit: i64) -> Account {
    Account {
        id: a.id,
        name: a.name,
        credit: credit,
        overdraft: a.overdraft,
        discount: a.discount,
        bunk: a.bunk,
    }
}


/// Pricebook rows as key/value pairs, keyed by item id.
pub open spec fn item_pairs(s: Seq<Item>) -> Seq<(u32, Item)> {
    s.map_values(|it: Item| (it.id, it))
}

/// Account rows as key/value pairs, keyed by account id.
pub open spec fn account_pairs(s: Seq<Account>) -> Seq<(u32, Account)> {
    s.map_values(|a: Account| (a.id, a))
}

/// Partial-transaction rows as key/value pairs, keyed by transaction id.
pub open spec fn partial_pairs(s: Seq<PartialTransaction>) -> Seq<(Seq<char>, (Seq<TxEntry>, u32))> {
    s.map_values(|p: PartialTransaction| (p.id@, (p.items@, p.remaining)))
}

/// History rows as key/value pairs, keyed by transaction id.
pub open spec fn history_pairs(s: Seq<CompletedTransaction>) -> Seq<(Seq<char>, (Seq<TxEntry>, u32))> {
    s.map_values(|c: CompletedTransaction| (c.id@, (c.items@, c.cash_back)))
}

/// The pricebook rows whose item id is listed in `ids`, in order.
pub open spec fn items_with_ids(pricebook: Seq<Item>, ids: Seq<u32>) -> Seq<Item> {
    pricebook.filter(|it: Item| ids.contains(it.id))
}

/// Whether `id` occurs in `ids`.
fn id_listed(ids: &Vec<u32>, id: u32) -> (r: bool)
    ensures
        r == ids@.contains(id),
{
    let n = ids.len();
    for i in 0..n
        invariant
            n == ids@.len(),
            forall|j: int| 0 <= j < i ==> ids@[j] != id,
    {
        if ids[i] == id {
            assert(ids@[i as int] == id);
            return true;
        }
    }
    false
}

/// A fresh vector with the same basket entries.
fn clone_entries(v: &Vec<TxEntry>) -> (r: Vec<TxEntry>)
    ensures
        r@ == v@,
{
    let mut out: Vec<TxEntry> = Vec::new();
    let n = v.len();
    for i in 0..n
        invariant
            n == v@.len(),
            out@ =~= v@.take(i as int),
    {
        out.push(v[i]);
    }
    proof {
        assert(v@.take(n as int) =~= v@);
    }
    out
}

/// Whether the pricebook rows carry pairwise distinct item ids.
fn items_unique(v: &Vec<Item>) -> (r: bool)
    ensures
        r == kv_unique(item_pairs(v@)),
{
    let n = v.len();
    for i in 0..n
        invariant
            n == v@.len(),
            forall|a: int, b: int|
                0 <= a < b < i ==> (#[trigger] item_pairs(v@)[a]).0 != (#[trigger] item_pairs(
                v@)[b]).0,
    {
        for j in 0..i
            invariant
                i < n == v@.len(),
                forall|b: int| 0 <= b < j ==> (#[trigger] item_pairs(v@)[b]).0 != item_pairs(
                    v@)[i as int].0,
        {
            if v[j].id == v[i].id {
                assert(item_pairs(v@)[j as int].0 == item_pairs(v@)[i as int].0);
                return false;
            }
        }
    }
    true
}

/// Whether the account rows carry pairwise distinct account ids.
fn accounts_unique(v: &Vec<Account>) -> (r: bool)
    ensures
        r == kv_unique(account_pairs(v@)),
{
    let n = v.len();
    for i in 0..n
        invariant
            n == v@.len(),
            forall|a: int, b: int|
                0 <= a < b < i ==> (#[trigger] account_pairs(v@)[a]).0 != (#[trigger] account_pairs(
                v@)[b]).0,
    {
        for j in 0..i
            invariant
                i < n == v@.len(),
                forall|b: int| 0 <= b < j ==> (#[trigger] account_pairs(v@)[b]).0 != account_pairs(
                    v@)[i as int].0,
        {
            if v[j].id == v[i].id {
                assert(account_pairs(v@)[j as int].0 == account_pairs(v@)[i as int].0);
                return false;
            }
        }
    }
    true
}

/// Whether the partial-transaction rows carry pairwise distinct ids.
fn partials_unique(v: &Vec<PartialTransaction>) -> (r: bool)
    ensures
        r == kv_unique(partial_pairs(v@)),
{
    let n = v.len();
    for i in 0..n
        invariant
            n == v@.len(),
            forall|a: int, b: int|
                0 <= a < b < i ==> (#[trigger] partial_pairs(v@)[a]).0 != (#[trigger] partial_pairs(
                v@)[b]).0,
    {
        for j in 0..i
            invariant
                i < n == v@.len(),
                forall|b: int| 0 <= b < j ==> (#[trigger] partial_pairs(v@)[b]).0 != partial_pairs(
                    v@)[i as int].0,
        {
            if v[j].id == v[i].id {
                assert(partial_pairs(v@)[j as int].0 == partial_pairs(v@)[i as int].0);
                return false;
            }
        }
    }
    true
}

/// Whether the history rows carry pairwise distinct ids.
fn history_unique(v: &Vec<CompletedTransaction>) -> (r: bool)
    ensures
        r == kv_unique(history_pairs(v@)),
{
    let n = v.len();
    for i in 0..n
        invariant
            n == v@.len(),
            forall|a: int, b: int|
                0 <= a < b < i ==> (#[trigger] history_pairs(v@)[a]).0 != (#[trigger] history_pairs(
                v@)[b]).0,
    {
        for j in 0..i
            invariant
                i < n == v@.len(),
                forall|b: int| 0 <= b < j ==> (#[trigger] history_pairs(v@)[b]).0 != history_pairs(
                    v@)[i as int].0,
        {
            if v[j].id == v[i].id {
                assert(history_pairs(v@)[j as int].0 == history_pairs(v@)[i as int].0);
                return false;
            }
        }
    }
    true
}

/// Whether every account discount is a percentage.
fn discounts_ok(v: &Vec<Account>) -> (r: bool)
    ensures
        r == forall|i: int| 0 <= i < v@.len() ==> (#[trigger] v@[i]).discount <= 100,
{
    let n = v.len();
    for i in 0..n
        invariant
            n == v@.len(),
            forall|j: int| 0 <= j < i ==> (#[trigger] v@[j]).discount <= 100,
    {
        if v[i].discount > 100 {
            return false;
        }
    }
    true
}

/// The in-memory persistent store: pricebook, accounts, in-flight
/// partial transactions, and completed transaction history.
pub struct Store {
    pub pricebook: Vec<Item>,
    pub accounts: Vec<Account>,
    pub partials: Vec<PartialTransaction>,
    pub history: Vec<CompletedTransaction>,
}

/// A durable error of the store, surfaced to callers as a typed value.
#[derive(Clone, Copy, Debug, PartialEq, Eq, Structural)]
pub enum DBError {
    /// No row carries the given identifier.
    NoTransactionFound(u32),
    /// No history row carries the requested transaction identifier.
    RecordNotFound,
    /// Two rows of one table share a key.
    DuplicativeEntries,
    /// A history row for this transaction identifier already exists.
    AlreadyLogged,
    /// An account discount must be a percentage, at most 100.
    InvalidDiscount,
    /// The adjusted balance would not fit the balance column.
    BalanceOutOfRange,
}

impl Store {
    /// Pricebook rows as key/value pairs, keyed by item id.
    pub open spec fn item_kvs(self) -> Seq<(u32, Item)> {
        item_pairs(self.pricebook@)
    }

    /// The pricebook as a map from item id to item.
    pub open spec fn items_map(self) -> Map<u32, Item> {
        kv_map_of(self.item_kvs())
    }

    /// Account rows as key/value pairs, keyed by account id.
    pub open spec fn account_kvs(self) -> Seq<(u32, Account)> {
        account_pairs(self.accounts@)
    }

    /// The accounts table as a map from account id to account.
    pub open spec fn accounts_map(self) -> Map<u32, Account> {
        kv_map_of(self.account_kvs())
    }

    /// Partial-transaction rows as key/value pairs: transaction id to
    /// the basket and the frozen remaining amount.
    pub open spec fn partial_kvs(self) -> Seq<(Seq<char>, (Seq<TxEntry>, u32))> {
        partial_pairs(self.partials@)
    }

    /// The in-flight partial transactions as a map.
    pub open spec fn partials_map(self) -> Map<Seq<char>, (Seq<TxEntry>, u32)> {
        kv_map_of(self.partial_kvs())
    }

    /// History rows as key/value pairs: transaction id to the basket
    /// and the cash returned.
    pub open spec fn history_kvs(self) -> Seq<(Seq<char>, (Seq<TxEntry>, u32))> {
        history_pairs(self.history@)
    }

    /// The transaction history as a map.
    pub open spec fn history_map(self) -> Map<Seq<char>, (Seq<TxEntry>, u32)> {
        kv_map_of(self.history_kvs())
    }

    /// Well-formedness: every table is keyed uniquely, and every
    /// account discount is a percentage.
    pub open spec fn wf(self) -> bool {
        &&& kv_unique(self.item_kvs())
        &&& kv_unique(self.account_kvs())
        &&& kv_unique(self.partial_kvs())
        &&& kv_unique(self.history_kvs())
        &&& forall|i: int|
            0 <= i < self.accounts@.len() ==> (#[trigger] self.accounts@[i]).discount <= 100
    }

    /// An empty store, the state right after the schema is created.
    pub fn new() -> (s: Store)
        ensures
            s.wf(),
            s.pricebook@.len() == 0,
            s.accounts@.len() == 0,
            s.partials@.len() == 0,
            s.history@.len() == 0,
            s.items_map() == Map::<u32, Item>::empty(),
            s.accounts_map() == Map::<u32, Account>::empty(),
            s.partials_map() == Map::<Seq<char>, (Seq<TxEntry>, u32)>::empty(),
            s.history_map() == Map::<Seq<char>, (Seq<TxEntry>, u32)>::empty(),
    {
        let s = Store {
            pricebook: Vec::new(),
            accounts: Vec::new(),
            partials: Vec::new(),
            history: Vec::new(),
        };
        proof {
            assert(s.item_kvs() =~= Seq::<(u32, Item)>::empty());
            assert(s.account_kvs() =~= Seq::<(u32, Account)>::empty());
            assert(s.partial_kvs() =~= Seq::<(Seq<char>, (Seq<TxEntry>, u32))>::empty());
            assert(s.history_kvs() =~= Seq::<(Seq<char>, (Seq<TxEntry>, u32))>::empty());
        }
        s
    }

    /// Index of the pricebook row for an item id, if any.
    fn find_item(&self, id: u32) -> (r: Option<usize>)
        requires
            self.wf(),
        ensures
            match r {
                Some(i) => {
                    &&& i < self.pricebook@.len()
                    &&& self.pricebook@[i as int].id == id
                    &&& self.items_map().contains_key(id)
                    &&& self.items_map()[id] == self.pricebook@[i as int]
                },
                None => !self.items_map().contains_key(id),
            },
    {
        let n = self.pricebook.len();
        for i in 0..n
            invariant
                n == self.pricebook@.len(),
                self.wf(),
                forall|j: int| 0 <= j < i ==> (#[trigger] self.pricebook@[j]).id != id,
        {
            if self.pricebook[i].id == id {
                proof {
                    assert(self.item_kvs()[i as int] == (id, self.pricebook@[i as int]));
                    lemma_kv_index(self.item_kvs(), i as int);
                }
                return Some(i);
            }
        }
        proof {
            lemma_kv_contains(self.item_kvs(), id);
        }
        None
    }

    /// Index of the account row for an account id, if any.
    fn find_account(&self, id: u32) -> (r: Option<usize>)
        requires
            self.wf(),
        ensures
            match r {
                Some(i) => {
                    &&& i < self.accounts@.len()
                    &&& self.accounts@[i as int].id == id
                    &&& self.accounts_map().contains_key(id)
                    &&& self.accounts_map()[id] == self.accounts@[i as int]
                },
                None => !self.accounts_map().contains_key(id),
            },
    {
        let n = self.accounts.len();
        for i in 0..n
            invariant
                n == self.accounts@.len(),
                self.wf(),
                forall|j: int| 0 <= j < i ==> (#[trigger] self.accounts@[j]).id != id,
        {
            if self.accounts[i].id == id {
                proof {
                    assert(self.account_kvs()[i as int] == (id, self.accounts@[i as int]));
                    lemma_kv_index(self.account_kvs(), i as int);
                }
                return Some(i);
            }
        }
        proof {
            lemma_kv_contains(self.account_kvs(), id);
        }
        None
    }

    /// Index of the partial-transaction row for a transaction id, if any.
    fn find_partial(&self, tx_id: &String) -> (r: Option<usize>)
        requires
            self.wf(),
        ensures
            match r {
                Some(i) => {
                    &&& i < self.partials@.len()
                    &&& self.partials@[i as int].id@ == tx_id@
                    &&& self.partials_map().contains_key(tx_id@)
                    &&& self.partials_map()[tx_id@] == (self.partials@[i as int].items@,
                        self.partials@[i as int].remaining)
                },
                None => !self.partials_map().contains_key(tx_id@),
            },
    {
        let n = self.partials.len();
        for i in 0..n
            invariant
                n == self.partials@.len(),
                self.wf(),
                forall|j: int| 0 <= j < i ==> (#[trigger] self.partials@[j]).id@ != tx_id@,
        {
            if self.partials[i].id == *tx_id {
                proof {
                    assert(self.partial_kvs()[i as int] == (tx_id@, (self.partials@[i as int].items@,
                        self.partials@[i as int].remaining)));
                    lemma_kv_index(self.partial_kvs(), i as int);
                }
                return Some(i);
            }
        }
        proof {
            lemma_kv_contains(self.partial_kvs(), tx_id@);
            if self.partials_map().contains_key(tx_id@) {
                let i = choose|i: int|
                    0 <= i < self.partial_kvs().len() && (#[trigger] self.partial_kvs()[i]).0
                        == tx_id@;
                assert(self.partials@[i].id@ == tx_id@);
            }
        }
        None
    }

    /// Index of the history row for a transaction id, if any.
    fn find_history(&self, tx_id: &String) -> (r: Option<usize>)
        requires
            self.wf(),
        ensures
            match r {
                Some(i) => {
                    &&& i < self.history@.len()
                    &&& self.history@[i as int].id@ == tx_id@
                    &&& self.history_map().contains_key(tx_id@)
                    &&& self.history_map()[tx_id@] == (self.history@[i as int].items@,
                        self.history@[i as int].cash_back)
                },
                None => !self.history_map().contains_key(tx_id@),
            },
    {
        let n = self.history.len();
        for i in 0..n
            invariant
                n == self.history@.len(),
                self.wf(),
                forall|j: int| 0 <= j < i ==> (#[trigger] self.history@[j]).id@ != tx_id@,
        {
            if self.history[i].id == *tx_id {
                proof {
                    assert(self.history_kvs()[i as int] == (tx_id@, (self.history@[i as int].items@,
                        self.history@[i as int].cash_back)));
                    lemma_kv_index(self.history_kvs(), i as int);
                }
                return Some(i);
            }
        }
        proof {
            lemma_kv_contains(self.history_kvs(), tx_id@);
            if self.history_map().contains_key(tx_id@) {
                let i = choose|i: int|
                    0 <= i < self.history_kvs().len() && (#[trigger] self.history_kvs()[i]).0
                        == tx_id@;
                assert(self.history@[i].id@ == tx_id@);
            }
        }
        None
    }

    /// The frozen remaining amount of an in-flight partial transaction,
    /// if one exists for this transaction id.
    pub fn check_partial_transaction(&self, tx_id: &String) -> (r: Option<u32>)
        requires
            self.wf(),
        ensures
            r == (if self.partials_map().contains_key(tx_id@) {
                Some(self.partials_map()[tx_id@].1)
            } else {
                None::<u32>
            }),
    {
        match self.find_partial(tx_id) {
            Some(i) => Some(self.partials[i].remaining),
            None => None,
        }
    }

    /// The cash returned by an already-finalized transaction, if this
    /// transaction id has a history row.
    pub fn logged_cash_back(&self, tx_id: &String) -> (r: Option<u32>)
        requires
            self.wf(),
        ensures
            r == (if self.history_map().contains_key(tx_id@) {
                Some(self.history_map()[tx_id@].1)
            } else {
                None::<u32>
            }),
    {
        match self.find_history(tx_id) {
            Some(i) => Some(self.history[i].cash_back),
            None => None,
        }
    }

    /// Creates or overwrites the partial transaction for `tx_id`,
    /// freezing `difference` as the amount still owed.
    pub fn create_partial_transaction(&mut self, tx_id: String, items: Vec<TxEntry>, difference: u32)
        requires
            old(self).wf(),
        ensures
            final(self).wf(),
            final(self).partials_map() == old(self).partials_map().insert(tx_id@, (items@,
                difference)),
            !old(self).partials_map().contains_key(tx_id@) ==> final(self).partials@ == old(
                self).partials@.push(PartialTransaction { id: tx_id, items: items, remaining: difference }),
            final(self).pricebook == old(self).pricebook,
            final(self).accounts == old(self).accounts,
            final(self).history == old(self).history,
    {
        let pt = PartialTransaction { id: tx_id, items: items, remaining: difference };
        let found = self.find_partial(&pt.id);
        let ghost pair = (pt.id@, (pt.items@, pt.remaining));
        match found {
            Some(i) => {
                proof {
                    assert(self.partial_kvs()[i as int].0 == pair.0);
                    lemma_kv_update(self.partial_kvs(), i as int, pair);
                    lemma_kv_unique_update(self.partial_kvs(), i as int, pair);
                }
                let ghost pre = *self;
                self.partials.set(i, pt);
                proof {
                    assert(self.partial_kvs() =~= pre.partial_kvs().update(i as int, pair));
                }
            },
            None => {
                proof {
                    lemma_kv_push(self.partial_kvs(), pair);
                    lemma_kv_unique_push(self.partial_kvs(), pair);
                }
                let ghost pre = *self;
                self.partials.push(pt);
                proof {
                    assert(self.partial_kvs() =~= pre.partial_kvs().push(pair));
                }
            },
        }
    }

    /// Deletes the partial transaction for `tx_id`; deleting an absent
    /// row is not an error.
    pub fn drop_partial_transaction(&mut self, tx_id: &String)
        requires
            old(self).wf(),
        ensures
            final(self).wf(),
            final(self).partials_map() == old(self).partials_map().remove(tx_id@),
            final(self).pricebook == old(self).pricebook,
            final(self).accounts == old(self).accounts,
            final(self).history == old(self).history,
    {
        match self.find_partial(tx_id) {
            Some(i) => {
                proof {
                    assert(self.partial_kvs()[i as int].0 == tx_id@);
                    lemma_kv_remove(self.partial_kvs(), i as int);
                    lemma_kv_unique_remove(self.partial_kvs(), i as int);
                }
                let ghost pre = *self;
                self.partials.remove(i);
                proof {
                    assert(self.partial_kvs() =~= pre.partial_kvs().remove(i as int));
                }
            },
            None => {
                proof {
                    assert(self.partials_map() =~= self.partials_map().remove(tx_id@));
                }
            },
        }
    }

    /// Appends a history row for a finalized transaction. The history
    /// is append-only and keyed by transaction id: a second row for the
    /// same id is refused and nothing changes.
    pub fn log_transaction(&mut self, tx_id: String, items: Vec<TxEntry>, cash_back: u32) -> (r:
        Result<(), DBError>)
        requires
            old(self).wf(),
        ensures
            final(self).wf(),
            final(self).pricebook == old(self).pricebook,
            final(self).accounts == old(self).accounts,
            final(self).partials == old(self).partials,
            if old(self).history_map().contains_key(tx_id@) {
                &&& r == Err::<(), DBError>(DBError::AlreadyLogged)
                &&& final(self).history == old(self).history
            } else {
                &&& r == Ok::<(), DBError>(())
                &&& final(self).history@ == old(self).history@.push(CompletedTransaction {
                    id: tx_id,
                    items: items,
                    cash_back: cash_back,
                })
                &&& final(self).history_map() == old(self).history_map().insert(tx_id@, (items@,
                    cash_back))
            },
    {
        let ct = CompletedTransaction { id: tx_id, items: items, cash_back: cash_back };
        match self.find_history(&ct.id) {
            Some(_) => Err(DBError::AlreadyLogged),
            None => {
                let ghost pair = (ct.id@, (ct.items@, ct.cash_back));
                proof {
                    lemma_kv_push(self.history_kvs(), pair);
                    lemma_kv_unique_push(self.history_kvs(), pair);
                }
                let ghost pre = *self;
                self.history.push(ct);
                proof {
                    assert(self.history_kvs() =~= pre.history_kvs().push(pair));
                }
                Ok(())
            },
        }
    }

    /// Debits `amount` from an account's balance in one atomic step.
    /// The debit is unconditional: the overdraft screen is the caller's.
    /// A missing account debits nothing and is not an error, matching
    /// an update statement that touches no row.
    pub fn deduct_balance(&mut self, account_id: u32, amount: u32) -> (r: Result<(), DBError>)
        requires
            old(self).wf(),
        ensures
            final(self).wf(),
            final(self).pricebook == old(self).pricebook,
            final(self).partials == old(self).partials,
            final(self).history == old(self).history,
            if old(self).accounts_map().contains_key(account_id) {
                let a = old(self).accounts_map()[account_id];
                if a.credit - amount >= i64::MIN {
                    &&& r == Ok::<(), DBError>(())
                    &&& final(self).accounts_map() == old(self).accounts_map().insert(account_id,
                        with_credit(a, (a.credit - amount) as i64))
                    &&& final(self).accounts@.len() == old(self).accounts@.len()
                } else {
                    &&& r == Err::<(), DBError>(DBError::BalanceOutOfRange)
                    &&& final(self).accounts == old(self).accounts
                }
            } else {
                &&& r == Ok::<(), DBError>(())
                &&& final(self).accounts == old(self).accounts
            },
    {
        match self.find_account(account_id) {
            Some(i) => {
                let a = &self.accounts[i];
                match a.credit.checked_sub_unsigned(amount as u64) {
                    Some(nc) => {
                        let upd = Account {
                            id: a.id,
                            name: a.name.clone(),
                            credit: nc,
                            overdraft: a.overdraft,
                            discount: a.discount,
                            bunk: a.bunk,
                        };
                        let ghost pair = (upd.id, upd);
                        proof {
                            assert(upd == with_credit(old(self).accounts_map()[account_id], nc));
                            assert(self.account_kvs()[i as int].0 == pair.0);
                            lemma_kv_update(self.account_kvs(), i as int, pair);
                            lemma_kv_unique_update(self.account_kvs(), i as int, pair);
                        }
                        let ghost pre = *self;
                        self.accounts.set(i, upd);
                        proof {
                            assert(self.account_kvs() =~= pre.account_kvs().update(i as int, pair));
                        }
                        Ok(())
                    },
                    None => Err(DBError::BalanceOutOfRange),
                }
            },
            None => Ok(()),
        }
    }

    /// Applies an administrative balance adjustment: adds or subtracts
    /// `amount` on the account's balance. A missing account changes
    /// nothing and is not an error.
    pub fn update_balance(&mut self, update: BalanceUpdate) -> (r: Result<(), DBError>)
        requires
            old(self).wf(),
        ensures
            final(self).wf(),
            final(self).pricebook == old(self).pricebook,
            final(self).partials == old(self).partials,
            final(self).history == old(self).history,
            if old(self).accounts_map().contains_key(update.id) {
                let a = old(self).accounts_map()[update.id];
                let target = if update.operation is Add {
                    a.credit + update.amount
                } else {
                    a.credit - update.amount
                };
                if i64::MIN <= target <= i64::MAX {
                    &&& r == Ok::<(), DBError>(())
                    &&& final(self).accounts_map() == old(self).accounts_map().insert(update.id,
                        with_credit(a, target as i64))
                    &&& final(self).accounts@.len() == old(self).accounts@.len()
                } else {
                    &&& r == Err::<(), DBError>(DBError::BalanceOutOfRange)
                    &&& final(self).accounts == old(self).accounts
                }
            } else {
                &&& r == Ok::<(), DBError>(())
                &&& final(self).accounts == old(self).accounts
            },
    {
        match self.find_account(update.id) {
            Some(i) => {
                let a = &self.accounts[i];
                let adjusted = match update.operation {
                    UpdateOperation::Add => a.credit.checked_add_unsigned(update.amount as u64),
                    UpdateOperation::Sub => a.credit.checked_sub_unsigned(update.amount as u64),
                };
                match adjusted {
                    Some(nc) => {
                        let upd = Account {
                            id: a.id,
                            name: a.name.clone(),
                            credit: nc,
                            overdraft: a.overdraft,
                            discount: a.discount,
                            bunk: a.bunk,
                        };
                        let ghost pair = (upd.id, upd);
                        proof {
                            assert(upd == with_credit(old(self).accounts_map()[update.id], nc));
                            assert(self.account_kvs()[i as int].0 == pair.0);
                            lemma_kv_update(self.account_kvs(), i as int, pair);
                            lemma_kv_unique_update(self.account_kvs(), i as int, pair);
                        }
                        let ghost pre = *self;
                        self.accounts.set(i, upd);
                        proof {
                            assert(self.account_kvs() =~= pre.account_kvs().update(i as int, pair));
                        }
                        Ok(())
                    },
                    None => Err(DBError::BalanceOutOfRange),
                }
            },
            None => Ok(()),
        }
    }

    /// Creates an account, or replaces the account that carries the
    /// same id. A discount above one hundred percent is refused.
    pub fn insert_account(&mut self, account: Account) -> (r: Result<(), DBError>)
        requires
            old(self).wf(),
        ensures
            final(self).wf(),
            final(self).pricebook == old(self).pricebook,
            final(self).partials == old(self).partials,
            final(self).history == old(self).history,
            if account.discount > 100 {
                &&& r == Err::<(), DBError>(DBError::InvalidDiscount)
                &&& final(self).accounts == old(self).accounts
            } else {
                &&& r == Ok::<(), DBError>(())
                &&& final(self).accounts_map() == old(self).accounts_map().insert(account.id,
                    account)
                &&& (!old(self).accounts_map().contains_key(account.id) ==> final(self).accounts@
                    == old(self).accounts@.push(account))
            },
    {
        if account.discount > 100 {
            return Err(DBError::InvalidDiscount);
        }
        let ghost pair = (account.id, account);
        match self.find_account(account.id) {
            Some(i) => {
                proof {
                    assert(self.account_kvs()[i as int].0 == pair.0);
                    lemma_kv_update(self.account_kvs(), i as int, pair);
                    lemma_kv_unique_update(self.account_kvs(), i as int, pair);
                }
                let ghost pre = *self;
                self.accounts.set(i, account);
                proof {
                    assert(self.account_kvs() =~= pre.account_kvs().update(i as int, pair));
                }
            },
            None => {
                proof {
                    lemma_kv_push(self.account_kvs(), pair);
                    lemma_kv_unique_push(self.account_kvs(), pair);
                }
                let ghost pre = *self;
                self.accounts.push(account);
                proof {
                    assert(self.account_kvs() =~= pre.account_kvs().push(pair));
                }
            },
        }
        Ok(())
    }

    /// Adds a catalog item; an item id already present is refused.
    pub fn create_item(&mut self, item: Item) -> (r: Result<(), DBError>)
        requires
            old(self).wf(),
        ensures
            final(self).wf(),
            final(self).accounts == old(self).accounts,
            final(self).partials == old(self).partials,
            final(self).history == old(self).history,
            if old(self).items_map().contains_key(item.id) {
                &&& r == Err::<(), DBError>(DBError::DuplicativeEntries)
                &&& final(self).pricebook == old(self).pricebook
            } else {
                &&& r == Ok::<(), DBError>(())
                &&& final(self).pricebook@ == old(self).pricebook@.push(item)
                &&& final(self).items_map() == old(self).items_map().insert(item.id, item)
            },
    {
        match self.find_item(item.id) {
            Some(_) => Err(DBError::DuplicativeEntries),
            None => {
                let ghost pair = (item.id, item);
                proof {
                    lemma_kv_push(self.item_kvs(), pair);
                    lemma_kv_unique_push(self.item_kvs(), pair);
                }
                let ghost pre = *self;
                self.pricebook.push(item);
                proof {
                    assert(self.item_kvs() =~= pre.item_kvs().push(pair));
                }
                Ok(())
            },
        }
    }

    /// Looks an account up by id.
    pub fn get_account(&self, account_id: u32) -> (r: Result<Account, DBError>)
        requires
            self.wf(),
        ensures
            r == (if self.accounts_map().contains_key(account_id) {
                Ok::<Account, DBError>(self.accounts_map()[account_id])
            } else {
                Err::<Account, DBError>(DBError::NoTransactionFound(account_id))
            }),
    {
        match self.find_account(account_id) {
            Some(i) => Ok(self.accounts[i].clone()),
            None => Err(DBError::NoTransactionFound(account_id)),
        }
    }

    /// All accounts, in table order.
    pub fn get_all_accounts(&self) -> (r: Vec<Account>)
        requires
            self.wf(),
        ensures
            r@ == self.accounts@,
    {
        let mut out: Vec<Account> = Vec::new();
        let n = self.accounts.len();
        for i in 0..n
            invariant
                n == self.accounts@.len(),
                out@ =~= self.accounts@.take(i as int),
        {
            out.push(self.accounts[i].clone());
        }
        proof {
            assert(self.accounts@.take(n as int) =~= self.accounts@);
        }
        out
    }

    /// The whole pricebook, in table order.
    pub fn get_all_items(&self) -> (r: Vec<Item>)
        requires
            self.wf(),
        ensures
            r@ == self.pricebook@,
    {
        let mut out: Vec<Item> = Vec::new();
        let n = self.pricebook.len();
        for i in 0..n
            invariant
                n == self.pricebook@.len(),
                out@ =~= self.pricebook@.take(i as int),
        {
            out.push(self.pricebook[i].clone());
        }
        proof {
            assert(self.pricebook@.take(n as int) =~= self.pricebook@);
        }
        out
    }

    /// The pricebook rows whose item id is listed in `ids`, in table
    /// order.
    pub fn get_items(&self, ids: &Vec<u32>) -> (r: Vec<Item>)
        requires
            self.wf(),
        ensures
            r@ == items_with_ids(self.pricebook@, ids@),
    {
        let mut out: Vec<Item> = Vec::new();
        let n = self.pricebook.len();
        proof {
            reveal(Seq::filter);
            assert(self.pricebook@.take(0).len() == 0);
        }
        for i in 0..n
            invariant
                n == self.pricebook@.len(),
                self.wf(),
                out@ == items_with_ids(self.pricebook@.take(i as int), ids@),
        {
            let ghost prefix = self.pricebook@.take(i as int);
            let ghost next = self.pricebook@.take(i as int + 1);
            proof {
                reveal(Seq::filter);
                assert(next.drop_last() =~= prefix);
                assert(next.last() == self.pricebook@[i as int]);
            }
            if id_listed(ids, self.pricebook[i].id) {
                out.push(self.pricebook[i].clone());
            }
            proof {
                reveal(Seq::filter);
                assert(out@ =~= items_with_ids(next, ids@));
            }
        }
        proof {
            assert(self.pricebook@.take(n as int) =~= self.pricebook@);
        }
        out
    }

    /// The unit price of an item; an id the pricebook does not list is
    /// priced at zero.
    pub fn get_price(&self, id: u32) -> (r: u32)
        requires
            self.wf(),
        ensures
            r == (if self.items_map().contains_key(id) {
                self.items_map()[id].price
            } else {
                0u32
            }),
    {
        match self.find_item(id) {
            Some(i) => self.pricebook[i].price,
            None => 0,
        }
    }

    /// The whole transaction history, in table order.
    pub fn get_all_transactions(&self) -> (r: Vec<CompletedTransaction>)
        requires
            self.wf(),
        ensures
            r@.len() == self.history@.len(),
            forall|j: int|
                0 <= j < r@.len() ==> {
                    &&& (#[trigger] r@[j]).id@ == self.history@[j].id@
                    &&& r@[j].items@ == self.history@[j].items@
                    &&& r@[j].cash_back == self.history@[j].cash_back
                },
    {
        let mut out: Vec<CompletedTransaction> = Vec::new();
        let n = self.history.len();
        for i in 0..n
            invariant
                n == self.history@.len(),
                out@.len() == i,
                forall|j: int|
                    0 <= j < i ==> {
                        &&& (#[trigger] out@[j]).id@ == self.history@[j].id@
                        &&& out@[j].items@ == self.history@[j].items@
                        &&& out@[j].cash_back == self.history@[j].cash_back
                    },
        {
            let row = &self.history[i];
            let copy = CompletedTransaction {
                id: row.id.clone(),
                items: clone_entries(&row.items),
                cash_back: row.cash_back,
            };
            out.push(copy);
        }
        out
    }

    /// Looks a finalized transaction up by its transaction id.
    pub fn get_transaction(&self, tx_id: &String) -> (r: Result<CompletedTransaction, DBError>)
        requires
            self.wf(),
        ensures
            if self.history_map().contains_key(tx_id@) {
                &&& r matches Ok(ct)
                &&& ct.id@ == tx_id@
                &&& (ct.items@, ct.cash_back) == self.history_map()[tx_id@]
            } else {
                r == Err::<CompletedTransaction, DBError>(DBError::RecordNotFound)
            },
    {
        match self.find_history(tx_id) {
            Some(i) => {
                let row = &self.history[i];
                Ok(CompletedTransaction {
                    id: row.id.clone(),
                    items: clone_entries(&row.items),
                    cash_back: row.cash_back,
                })
            },
            None => Err(DBError::RecordNotFound),
        }
    }

    /// The snapshot handed to clients that mirror the catalog and the
    /// accounts.
    pub fn sync_state(&self) -> (r: SyncState)
        requires
            self.wf(),
        ensures
            r.pricebook@ == self.pricebook@,
            r.accounts@ == self.accounts@,
    {
        SyncState { pricebook: self.get_all_items(), accounts: self.get_all_accounts() }
    }

    /// Rebuilds a store from raw table rows, screening them the way
    /// the schema would: unique keys everywhere and percentage
    /// discounts. Corrupt rows are refused rather than repaired.
    pub fn from_rows(
        pricebook: Vec<Item>,
        accounts: Vec<Account>,
        partials: Vec<PartialTransaction>,
        history: Vec<CompletedTransaction>,
    ) -> (r: Result<Store, DBError>)
        ensures
            match r {
                Ok(s) => {
                    &&& s.wf()
                    &&& s.pricebook@ == pricebook@
                    &&& s.accounts@ == accounts@
                    &&& s.partials@ == partials@
                    &&& s.history@ == history@
                },
                Err(e) => {
                    &&& !(Store { pricebook, accounts, partials, history }).wf()
                    &&& e == (if kv_unique(item_pairs(pricebook@)) && kv_unique(account_pairs(
                        accounts@)) && kv_unique(partial_pairs(partials@)) && kv_unique(
                        history_pairs(history@)) {
                        DBError::InvalidDiscount
                    } else {
                        DBError::DuplicativeEntries
                    })
                },
            },
    {
        if !items_unique(&pricebook) || !accounts_unique(&accounts) || !partials_unique(&partials)
            || !history_unique(&history) {
            return Err(DBError::DuplicativeEntries);
        }
        if !discounts_ok(&accounts) {
            return Err(DBError::InvalidDiscount);
        }
        Ok(Store { pricebook, accounts, partials, history })
    }
}

/// A well-formed store only holds percentage discounts, so the account
/// a lookup returns can be discounted safely.
pub proof fn lemma_account_discount(s: Store, id: u32)
    requires
        s.wf(),
        s.accounts_map().contains_key(id),
    ensures
        s.accounts_map()[id].discount <= 100,
{
    lemma_kv_contains(s.account_kvs(), id);
    let i = choose|i: int| 0 <= i < s.account_kvs().len() && (#[trigger] s.account_kvs()[i]).0
        == id;
    lemma_kv_index(s.account_kvs(), i);
    assert(s.account_kvs()[i].1 == s.accounts@[i]);
}

} // verus!
