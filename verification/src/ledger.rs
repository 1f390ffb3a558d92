//! The account ledger: one record per delegate, keyed by account id.
//!
//! The ledger behaves as a map from account id to [`Account`]: ids are
//! unique, an absent id reads as the zeroed record, and a record whose
//! balances are all zero is removed rather than stored.  The sum of the
//! shares over all rows is tracked so the pool can tie its issued-share
//! total to the ledger.

use vstd::prelude::*;

use crate::account::Account;

verus! {

/// One ledger row.
pub struct AccountEntry {
    pub account_id: String,
    pub account: Account,
}

/// The sum of the shares held by a sequence of ledger rows.
pub open spec fn shares_sum(rows: Seq<AccountEntry>) -> int
    decreases rows.len(),
{
    if rows.len() == 0 {
        0
    } else {
        shares_sum(rows.drop_last()) + rows.last().account.stake_shares
    }
}

proof fn lemma_shares_sum_push(rows: Seq<AccountEntry>, e: AccountEntry)
    ensures
        shares_sum(rows.push(e)) == shares_sum(rows) + e.account.stake_shares,
{
    assert(rows.push(e).drop_last() =~= rows);
}

proof fn lemma_shares_sum_remove(rows: Seq<AccountEntry>, i: int)
    requires
        0 <= i < rows.len(),
    ensures
        shares_sum(rows.remove(i)) == shares_sum(rows) - rows[i].account.stake_shares,
    decreases rows.len(),
{
    if i == rows.len() - 1 {
        assert(rows.remove(i) =~= rows.drop_last());
    } else {
        let shorter = rows.drop_last();
        lemma_shares_sum_remove(shorter, i);
        assert(rows.remove(i).drop_last() =~= shorter.remove(i));
        assert(rows.remove(i).last() == rows.last());
    }
}

proof fn lemma_shares_sum_nonneg(rows: Seq<AccountEntry>)
    ensures
        shares_sum(rows) >= 0,
    decreases rows.len(),
{
    if rows.len() > 0 {
        lemma_shares_sum_nonneg(rows.drop_last());
    }
}

/// Each row's shares are bounded by the sum over all rows.
pub proof fn lemma_shares_sum_entry_bound(rows: Seq<AccountEntry>, i: int)
    requires
        0 <= i < rows.len(),
    ensures
        rows[i].account.stake_shares <= shares_sum(rows),
    decreases rows.len(),
{
    if i == rows.len() - 1 {
        lemma_shares_sum_nonneg(rows.drop_last());
    } else {
        lemma_shares_sum_entry_bound(rows.drop_last(), i);
    }
}

/// The map-like collection of all delegate records.
pub struct AccountLedger {
    pub entries: Vec<AccountEntry>,
}

impl AccountLedger {
    /// Row `i` exists and carries `id`.
    pub open spec fn id_at(self, i: int, id: Seq<char>) -> bool {
        0 <= i < self.entries@.len() && self.entries@[i].account_id@ == id
    }

    /// Some row carries `id`.
    pub open spec fn contains_id(self, id: Seq<char>) -> bool {
        exists|i: int| self.id_at(i, id)
    }

    /// The row carrying `id`, meaningful when ids are unique and `id` is
    /// present.
    pub open spec fn index_of(self, id: Seq<char>) -> int {
        choose|i: int| self.id_at(i, id)
    }

    /// The record stored under `id`, or the zeroed record when absent.
    pub open spec fn spec_account(self, id: Seq<char>) -> Account {
        if self.contains_id(id) {
            self.entries@[self.index_of(id)].account
        } else {
            Account::zeroed()
        }
    }

    /// No two rows carry the same id.
    pub open spec fn keys_unique(self) -> bool {
        forall|i: int, j: int|
            0 <= i < j < self.entries@.len()
                ==> (#[trigger] self.entries@[i]).account_id@
                    != (#[trigger] self.entries@[j]).account_id@
    }

    /// No stored record is empty: empty records are removed instead.
    pub open spec fn no_empty_accounts(self) -> bool {
        forall|i: int|
            0 <= i < self.entries@.len() ==> !(#[trigger] self.entries@[i]).account.is_empty()
    }

    /// The ledger invariant.
    pub open spec fn wf(self) -> bool {
        self.keys_unique() && self.no_empty_accounts()
    }

    /// The sum of the shares over all rows.
    pub open spec fn sum_of_shares(self) -> int {
        shares_sum(self.entries@)
    }

    /// A fresh, empty ledger.
    pub fn new() -> (ledger: AccountLedger)
        ensures
            ledger.wf(),
            ledger.entries@.len() == 0,
            ledger.sum_of_shares() == 0,
            forall|k: Seq<char>| !ledger.contains_id(k),
    {
        AccountLedger { entries: Vec::new() }
    }

    fn find_index(&self, account_id: &String) -> (r: Option<usize>)
        ensures
            match r {
                Some(i) => self.id_at(i as int, account_id@),
                None => !self.contains_id(account_id@),
            },
    {
        let n: usize = self.entries.len();
        let mut i: usize = 0;
        while i < n
            invariant
                n == self.entries@.len(),
                i <= n,
                forall|j: int| 0 <= j < i ==> (#[trigger] self.entries@[j]).account_id@
                    != account_id@,
            decreases n - i,
        {
            if self.entries[i].account_id == *account_id {
                return Some(i);
            }
            i = i + 1;
        }
        None
    }

    /// Returns the record stored under `account_id`, or a zeroed record.
    /// Never fails.
    pub fn get_or_default(&self, account_id: &String) -> (account: Account)
        requires
            self.keys_unique(),
        ensures
            account == self.spec_account(account_id@),
    {
        match self.find_index(account_id) {
            Some(i) => {
                proof {
                    lemma_lookup_at(*self, i as int);
                }
                self.entries[i].account
            },
            None => (Account {
                unstaked: 0,
                stake_shares: 0,
                unstaked_available_epoch_height: 0,
                stake_principal: 0,
            }),
        }
    }

    /// Persists `account` under `account_id`, or removes the row when the
    /// record is empty, so no storage is wasted on drained accounts.
    pub fn save(&mut self, account_id: &String, account: Account)
        requires
            old(self).wf(),
        ensures
            final(self).wf(),
            final(self).contains_id(account_id@) == !account.is_empty(),
            final(self).spec_account(account_id@)
                == (if account.is_empty() { Account::zeroed() } else { account }),
            forall|k: Seq<char>| k != account_id@
                ==> final(self).contains_id(k) == old(self).contains_id(k),
            forall|k: Seq<char>| k != account_id@
                ==> final(self).spec_account(k) == old(self).spec_account(k),
            final(self).sum_of_shares() == old(self).sum_of_shares()
                - old(self).spec_account(account_id@).stake_shares + account.stake_shares,
    {
        let ghost pre = *self;
        let found = self.find_index(account_id);
        if let Some(i) = found {
            self.entries.remove(i);
            proof {
                lemma_lookup_at(pre, i as int);
                lemma_removed_row(pre, *self, i as int);
            }
        }
        let ghost mid = *self;
        assert(!mid.contains_id(account_id@));
        if account.unstaked > 0 || account.stake_shares > 0 {
            self.entries.push(AccountEntry { account_id: account_id.clone(), account });
            proof {
                lemma_pushed_row(mid, *self, self.entries@.last());
            }
        }
    }
}

/// Under unique keys, the row at `i` is exactly what a lookup of its id
/// finds.
proof fn lemma_lookup_at(l: AccountLedger, i: int)
    requires
        l.keys_unique(),
        0 <= i < l.entries@.len(),
    ensures
        l.contains_id(l.entries@[i].account_id@),
        l.index_of(l.entries@[i].account_id@) == i,
        l.spec_account(l.entries@[i].account_id@) == l.entries@[i].account,
{
    let id = l.entries@[i].account_id@;
    assert(l.id_at(i, id));
    let j = l.index_of(id);
    assert(l.id_at(j, id));
    if i != j {
        if i < j {
            assert(l.entries@[i].account_id@ != l.entries@[j].account_id@);
        } else {
            assert(l.entries@[j].account_id@ != l.entries@[i].account_id@);
        }
        assert(false);
    }
}

/// What removing row `i` does to the ledger as a map.
proof fn lemma_removed_row(pre: AccountLedger, mid: AccountLedger, i: int)
    requires
        pre.wf(),
        0 <= i < pre.entries@.len(),
        mid.entries@ == pre.entries@.remove(i),
    ensures
        mid.wf(),
        !mid.contains_id(pre.entries@[i].account_id@),
        forall|k: Seq<char>| k != pre.entries@[i].account_id@
            ==> mid.contains_id(k) == pre.contains_id(k),
        forall|k: Seq<char>| k != pre.entries@[i].account_id@
            ==> mid.spec_account(k) == pre.spec_account(k),
        shares_sum(mid.entries@)
            == shares_sum(pre.entries@) - pre.entries@[i].account.stake_shares,
{
    let id = pre.entries@[i].account_id@;
    lemma_shares_sum_remove(pre.entries@, i);
    assert(mid.entries@.len() == pre.entries@.len() - 1);
    assert(forall|a: int| 0 <= a < mid.entries@.len()
        ==> #[trigger] mid.entries@[a] == pre.entries@[if a < i { a } else { a + 1 }]);
    assert forall|a: int, b: int| 0 <= a < b < mid.entries@.len()
        implies (#[trigger] mid.entries@[a]).account_id@
            != (#[trigger] mid.entries@[b]).account_id@ by {
        let pa = if a < i { a } else { a + 1 };
        let pb = if b < i { b } else { b + 1 };
        assert(mid.entries@[a] == pre.entries@[pa]);
        assert(mid.entries@[b] == pre.entries@[pb]);
    }
    assert forall|a: int| 0 <= a < mid.entries@.len()
        implies !(#[trigger] mid.entries@[a]).account.is_empty() by {
        let pa = if a < i { a } else { a + 1 };
        assert(mid.entries@[a] == pre.entries@[pa]);
    }
    assert forall|a: int| 0 <= a < mid.entries@.len()
        implies (#[trigger] mid.entries@[a]).account_id@ != id by {
        let pa = if a < i { a } else { a + 1 };
        assert(mid.entries@[a] == pre.entries@[pa]);
        if pa != i {
            if pa < i {
                assert(pre.entries@[pa].account_id@ != pre.entries@[i].account_id@);
            } else {
                assert(pre.entries@[i].account_id@ != pre.entries@[pa].account_id@);
            }
        }
    }
    assert(!mid.contains_id(id));
    assert forall|k: Seq<char>| k != id
        implies mid.contains_id(k) == pre.contains_id(k) by {
        if mid.contains_id(k) {
            let a = choose|a: int| mid.id_at(a, k);
            let pa = if a < i { a } else { a + 1 };
            assert(pre.id_at(pa, k));
        }
        if pre.contains_id(k) {
            let a = choose|a: int| pre.id_at(a, k);
            assert(a != i);
            let ma = if a < i { a } else { a - 1 };
            assert(mid.entries@[ma] == pre.entries@[a]);
            assert(mid.id_at(ma, k));
        }
    }
    assert forall|k: Seq<char>| k != id
        implies mid.spec_account(k) == pre.spec_account(k) by {
        if mid.contains_id(k) {
            let ma = mid.index_of(k);
            assert(mid.id_at(ma, k));
            let pa = if ma < i { ma } else { ma + 1 };
            assert(pre.id_at(pa, k));
            lemma_lookup_at(pre, pa);
            assert(mid.keys_unique());
            lemma_lookup_at(mid, ma);
            assert(mid.entries@[ma] == pre.entries@[pa]);
        }
    }
}

/// What appending a row with a fresh id does to the ledger as a map.
proof fn lemma_pushed_row(mid: AccountLedger, post: AccountLedger, e: AccountEntry)
    requires
        mid.wf(),
        !mid.contains_id(e.account_id@),
        !e.account.is_empty(),
        post.entries@ == mid.entries@.push(e),
    ensures
        post.wf(),
        post.contains_id(e.account_id@),
        post.spec_account(e.account_id@) == e.account,
        forall|k: Seq<char>| k != e.account_id@
            ==> post.contains_id(k) == mid.contains_id(k),
        forall|k: Seq<char>| k != e.account_id@
            ==> post.spec_account(k) == mid.spec_account(k),
        shares_sum(post.entries@) == shares_sum(mid.entries@) + e.account.stake_shares,
{
    let id = e.account_id@;
    let n = mid.entries@.len() as int;
    lemma_shares_sum_push(mid.entries@, e);
    assert(post.entries@[n] == e);
    assert(forall|a: int| 0 <= a < n ==> #[trigger] post.entries@[a] == mid.entries@[a]);
    assert forall|a: int, b: int| 0 <= a < b < post.entries@.len()
        implies (#[trigger] post.entries@[a]).account_id@
            != (#[trigger] post.entries@[b]).account_id@ by {
        if b < n {
            assert(mid.entries@[a].account_id@ != mid.entries@[b].account_id@);
        } else {
            assert(post.entries@[b] == e);
            assert(post.entries@[a] == mid.entries@[a]);
            if post.entries@[a].account_id@ == id {
                assert(mid.id_at(a, id));
                assert(false);
            }
        }
    }
    assert forall|a: int| 0 <= a < post.entries@.len()
        implies !(#[trigger] post.entries@[a]).account.is_empty() by {
        if a < n {
            assert(post.entries@[a] == mid.entries@[a]);
        }
    }
    assert(post.id_at(n, id));
    lemma_lookup_at(post, n);
    assert forall|k: Seq<char>| k != id
        implies post.contains_id(k) == mid.contains_id(k) by {
        if post.contains_id(k) {
            let a = choose|a: int| post.id_at(a, k);
            assert(a != n);
            assert(mid.id_at(a, k));
        }
        if mid.contains_id(k) {
            let a = choose|a: int| mid.id_at(a, k);
            assert(post.id_at(a, k));
        }
    }
    assert forall|k: Seq<char>| k != id
        implies post.spec_account(k) == mid.spec_account(k) by {
        if post.contains_id(k) {
            let pa = post.index_of(k);
            assert(post.id_at(pa, k));
            assert(pa != n);
            assert(mid.id_at(pa, k));
            lemma_lookup_at(mid, pa);
            lemma_lookup_at(post, pa);
        }
    }
}

} // verus!
