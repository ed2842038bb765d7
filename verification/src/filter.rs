use vstd::prelude::*;
use crate::ledger::{
    account_by_id, account_exists, category_by_id, category_exists, reflects_transaction, Ledger,
};
use crate::model::{date_key, Account, Category, Date, Transaction, TxType};
use crate::order::{
    insert_desc, key_before, lemma_insert_desc_at, lemma_insert_desc_len, lemma_insert_desc_sorted,
    sort_desc, sorted_desc,
};
use crate::text::{contains_ci, str_contains_ci};

verus! {

/// The most rows a transaction listing hands back.
pub const MAX_LIST: usize = 500;

/// A structured transaction filter: the conditions are AND-combined, and
/// an absent condition matches everything. The filter is translated into
/// plain field comparisons, never into query text.
pub struct TransactionFilter {
    pub account_id: Option<i64>,
    pub category_id: Option<i64>,
    pub tx_type: Option<TxType>,
    pub date_from: Option<Date>,
    pub date_to: Option<Date>,
    /// Case-insensitive (over ASCII) free-text search in the notes, the
    /// category name and the account name.
    pub search: Option<String>,
}

impl TransactionFilter {
    /// The filter that matches every transaction.
    pub fn any() -> (r: TransactionFilter)
        ensures
            r.account_id is None,
            r.category_id is None,
            r.tx_type is None,
            r.date_from is None,
            r.date_to is None,
            r.search is None,
    {
        TransactionFilter {
            account_id: None,
            category_id: None,
            tx_type: None,
            date_from: None,
            date_to: None,
            search: None,
        }
    }
}

/// The free-text condition holds when the needle occurs in the notes, in
/// the referenced category's name, or in the owning account's name.
pub open spec fn search_hits(
    accounts: Seq<Account>,
    categories: Seq<Category>,
    t: Transaction,
    needle: Seq<char>,
) -> bool {
    ||| (t.notes matches Some(n) && contains_ci(n@, needle))
    ||| (t.category_id matches Some(c) && category_exists(categories, c) && contains_ci(
        category_by_id(categories, c).name@,
        needle,
    ))
    ||| (account_exists(accounts, t.account_id) && contains_ci(
        account_by_id(accounts, t.account_id).name@,
        needle,
    ))
}

/// All the filter's conditions hold of the transaction.
pub open spec fn tx_matches(
    accounts: Seq<Account>,
    categories: Seq<Category>,
    t: Transaction,
    f: TransactionFilter,
) -> bool {
    &&& (f.account_id matches Some(a) ==> t.account_id == a)
    &&& (f.category_id matches Some(c) ==> t.category_id == Some(c))
    &&& (f.tx_type matches Some(ty) ==> t.tx_type == ty)
    &&& (f.date_from matches Some(d) ==> date_key(t.date) >= date_key(d))
    &&& (f.date_to matches Some(d) ==> date_key(t.date) <= date_key(d))
    &&& (f.search matches Some(s) ==> search_hits(accounts, categories, t, s@))
}

pub open spec fn tx_match_fn(
    accounts: Seq<Account>,
    categories: Seq<Category>,
    f: TransactionFilter,
) -> spec_fn(Transaction) -> bool {
    |t: Transaction| tx_matches(accounts, categories, t, f)
}

/// The listing order: newest date first, then highest id first.
pub open spec fn tx_key_fn() -> spec_fn(Transaction) -> (i128, i128) {
    |t: Transaction| (date_key(t.date) as i128, t.id as i128)
}

/// What a listing hands back before any length cap: the matching
/// transactions, newest first.
pub open spec fn listed_transactions(
    accounts: Seq<Account>,
    categories: Seq<Category>,
    txs: Seq<Transaction>,
    f: TransactionFilter,
) -> Seq<Transaction> {
    sort_desc(txs.filter(tx_match_fn(accounts, categories, f)), tx_key_fn())
}

/// A condition that holds everywhere filters nothing out.
pub proof fn lemma_filter_true<A>(s: Seq<A>, p: spec_fn(A) -> bool)
    requires
        forall|k: int| 0 <= k < s.len() ==> p(#[trigger] s[k]),
    ensures
        s.filter(p) == s,
    decreases s.len(),
{
    reveal(Seq::filter);
    if s.len() == 0 {
    } else {
        assert(forall|k: int| 0 <= k < s.drop_last().len() ==> s.drop_last()[k] == s[k]);
        lemma_filter_true(s.drop_last(), p);
        assert(p(s[s.len() - 1]));
        assert(s.drop_last().push(s.last()) =~= s);
    }
}

/// The date key of any date value, computed without overflow.
fn dkey(d: &Date) -> (r: u64)
    ensures
        r == date_key(*d),
{
    d.year as u64 * 10000 + d.month as u64 * 100 + d.day as u64
}

/// The strict listing order on two transactions.
fn tx_comes_before(a: &Transaction, b: &Transaction) -> (r: bool)
    ensures
        r == key_before(tx_key_fn()(*a), tx_key_fn()(*b)),
{
    let ka = dkey(&a.date);
    let kb = dkey(&b.date);
    ka > kb || (ka == kb && a.id > b.id)
}

impl Ledger {
    /// Whether the stored transaction at index `k` passes the filter.
    fn matches_filter_at(&self, k: usize, f: &TransactionFilter) -> (r: bool)
        requires
            self.wf(),
            k < self.transactions@.len(),
        ensures
            r == tx_matches(self.accounts@, self.categories@, self.transactions@[k as int], *f),
    {
        let t = &self.transactions[k];
        match &f.account_id {
            Some(a) => {
                if t.account_id != *a {
                    return false;
                }
            },
            None => {},
        }
        match &f.category_id {
            Some(c) => {
                let hit = match &t.category_id {
                    Some(tc) => *tc == *c,
                    None => false,
                };
                if !hit {
                    return false;
                }
            },
            None => {},
        }
        match &f.tx_type {
            Some(ty) => {
                let same = match (t.tx_type, ty) {
                    (TxType::Income, TxType::Income) => true,
                    (TxType::Expense, TxType::Expense) => true,
                    _ => false,
                };
                if !same {
                    return false;
                }
            },
            None => {},
        }
        match &f.date_from {
            Some(d) => {
                if dkey(&t.date) < dkey(d) {
                    return false;
                }
            },
            None => {},
        }
        match &f.date_to {
            Some(d) => {
                if dkey(&t.date) > dkey(d) {
                    return false;
                }
            },
            None => {},
        }
        match &f.search {
            Some(s) => {
                let mut hit = match &t.notes {
                    Some(n) => str_contains_ci(n.as_str(), s.as_str()),
                    None => false,
                };
                if !hit {
                    hit = match t.category_id {
                        Some(c) => match self.find_category(c) {
                            Some(j) => {
                                proof {
                                    crate::ledger::lemma_category_by_id_index(
                                        self.categories@,
                                        j as int,
                                    );
                                }
                                str_contains_ci(self.categories[j].name.as_str(), s.as_str())
                            },
                            None => false,
                        },
                        None => false,
                    };
                }
                if !hit {
                    hit = match self.find_account(t.account_id) {
                        Some(j) => {
                            proof {
                                crate::ledger::lemma_account_by_id_index(self.accounts@, j as int);
                            }
                            str_contains_ci(self.accounts[j].name.as_str(), s.as_str())
                        },
                        None => false,
                    };
                }
                hit
            },
            None => true,
        }
    }

    /// The matching transactions, newest first (date, then id), capped at
    /// `cap` rows.
    #[verifier::loop_isolation(false)]
    pub fn list_limited(&self, f: &TransactionFilter, cap: usize) -> (r: Vec<Transaction>)
        requires
            self.wf(),
        ensures
            ({
                let full = listed_transactions(
                    self.accounts@,
                    self.categories@,
                    self.transactions@,
                    *f,
                );
                &&& r@.len() == if full.len() <= cap {
                    full.len() as int
                } else {
                    cap as int
                }
                &&& forall|k: int|
                    0 <= k < r@.len() ==> reflects_transaction(#[trigger] r@[k], full[k])
            }),
    {
        let ghost accs = self.accounts@;
        let ghost cats = self.categories@;
        let ghost txs = self.transactions@;
        let ghost pred = tx_match_fn(accs, cats, *f);
        let ghost key = tx_key_fn();
        let mut out: Vec<Transaction> = Vec::new();
        let ghost mut sout: Seq<Transaction> = Seq::<Transaction>::empty();
        proof {
            assert(txs.take(0).filter(pred) =~= Seq::<Transaction>::empty());
        }
        let mut i: usize = 0;
        while i < self.transactions.len()
            invariant
                0 <= i <= txs.len(),
                sout == sort_desc(txs.take(i as int).filter(pred), key),
                sorted_desc(sout, key),
                out@.len() == sout.len(),
                forall|k: int|
                    0 <= k < sout.len() ==> reflects_transaction(#[trigger] out@[k], sout[k]),
            decreases txs.len() - i,
        {
            let m = self.matches_filter_at(i, f);
            proof {
                assert(txs.take(i + 1) =~= txs.take(i as int).push(txs[i as int]));
                txs.take(i as int).lemma_filter_push(txs[i as int], pred);
                assert(pred(txs[i as int]) == m);
            }
            if m {
                let x = self.transaction_at(i);
                let ghost xs = txs[i as int];
                let mut j: usize = 0;
                while j < out.len() && !tx_comes_before(&x, &out[j])
                    invariant
                        0 <= j <= out@.len(),
                        forall|q: int|
                            0 <= q < j ==> !key_before(key(xs), key(#[trigger] sout[q])),
                    decreases out@.len() - j,
                {
                    proof {
                        assert(reflects_transaction(out@[j as int], sout[j as int]));
                        assert(key(out@[j as int]) == key(sout[j as int]));
                        assert(key(x) == key(xs));
                    }
                    j = j + 1;
                }
                proof {
                    assert(key(x) == key(xs));
                    if j < out@.len() {
                        assert(reflects_transaction(out@[j as int], sout[j as int]));
                        assert(key(out@[j as int]) == key(sout[j as int]));
                        assert(key_before(key(xs), key(sout[j as int])));
                    }
                    lemma_insert_desc_at(sout, xs, key, j as int);
                    lemma_insert_desc_sorted(sout, xs, key);
                    lemma_insert_desc_len(sout, xs, key);
                }
                let ghost old_out = out@;
                let ghost old_sout = sout;
                out.insert(j, x);
                proof {
                    sout = insert_desc(old_sout, xs, key);
                    let oldf = txs.take(i as int).filter(pred);
                    let newf = txs.take(i + 1).filter(pred);
                    assert(newf == oldf.push(xs));
                    assert(newf.drop_last() =~= oldf);
                    assert(newf.last() == xs);
                    assert(sort_desc(newf, key) == insert_desc(sort_desc(oldf, key), xs, key));
                    assert(sout =~= old_sout.take(j as int) + seq![xs] + old_sout.skip(j as int));
                    assert(out@ =~= old_out.take(j as int) + seq![x] + old_out.skip(j as int)) by {
                        assert(out@ == old_out.insert(j as int, x));
                        assert(old_out.insert(j as int, x) =~= old_out.take(j as int) + seq![x]
                            + old_out.skip(j as int));
                    }
                    assert forall|k: int|
                        0 <= k < sout.len() implies reflects_transaction(
                        #[trigger] out@[k],
                        sout[k],
                    ) by {
                        if k < j as int {
                            assert(out@[k] == old_out[k]);
                            assert(sout[k] == old_sout[k]);
                        } else if k == j as int {
                            assert(out@[k] == x);
                            assert(sout[k] == xs);
                        } else {
                            assert(out@[k] == old_out[k - 1]);
                            assert(sout[k] == old_sout[k - 1]);
                        }
                    }
                }
            }
            i = i + 1;
        }
        proof {
            assert(txs.take(txs.len() as int) =~= txs);
        }
        if out.len() > cap {
            out.truncate(cap);
        }
        out
    }

    /// Lists the transactions passing the filter, ordered by date
    /// descending then id descending, capped at [`MAX_LIST`] rows.
    pub fn list_transactions(&self, f: &TransactionFilter) -> (r: Vec<Transaction>)
        requires
            self.wf(),
        ensures
            ({
                let full = listed_transactions(
                    self.accounts@,
                    self.categories@,
                    self.transactions@,
                    *f,
                );
                &&& r@.len() == if full.len() <= MAX_LIST {
                    full.len() as int
                } else {
                    MAX_LIST as int
                }
                &&& forall|k: int|
                    0 <= k < r@.len() ==> reflects_transaction(#[trigger] r@[k], full[k])
            }),
    {
        self.list_limited(f, MAX_LIST)
    }
}

} // verus!
