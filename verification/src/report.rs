use vstd::prelude::*;
use crate::balance::{amounts_valid, sum_if};
use crate::model::MAX_AMOUNT;
use crate::ledger::Ledger;
use crate::model::{valid_transaction, Category, MonthSummary, Transaction, TxType};
use crate::order::{
    insert_desc, key_before, lemma_insert_desc_at, lemma_insert_desc_len, lemma_insert_desc_sorted,
    lemma_sort_desc_no_dup, lemma_sort_desc_sorted, sort_desc, sorted_desc,
};
use crate::text::{period_label, period_label_chars};

verus! {

// ---------------------------------------------------------------------------
// Calendar-month totals
// ---------------------------------------------------------------------------

/// Selects one calendar month's transactions of one type.
pub open spec fn in_month_fn(year: u32, month: u32, ty: TxType) -> spec_fn(Transaction) -> bool {
    |t: Transaction| t.date.year == year && t.date.month == month && t.tx_type == ty
}

/// The summed income amounts of one calendar month, over all accounts.
pub open spec fn month_income(txs: Seq<Transaction>, year: u32, month: u32) -> int {
    sum_if(txs, in_month_fn(year, month, TxType::Income))
}

/// The summed expense amounts of one calendar month, over all accounts.
pub open spec fn month_expense(txs: Seq<Transaction>, year: u32, month: u32) -> int {
    sum_if(txs, in_month_fn(year, month, TxType::Expense))
}

/// Computes one calendar month's income and expense totals.
pub fn month_sums(transactions: &Vec<Transaction>, year: u32, month: u32) -> (r: (i128, i128))
    requires
        amounts_valid(transactions@),
    ensures
        r.0 == month_income(transactions@, year, month),
        r.1 == month_expense(transactions@, year, month),
{
    let ghost txs = transactions@;
    let mut income: i128 = 0;
    let mut expense: i128 = 0;
    let mut i: usize = 0;
    proof {
        assert(txs.take(0) =~= Seq::<Transaction>::empty());
    }
    while i < transactions.len()
        invariant
            0 <= i <= txs.len(),
            txs == transactions@,
            amounts_valid(txs),
            income == sum_if(txs.take(i as int), in_month_fn(year, month, TxType::Income)),
            expense == sum_if(txs.take(i as int), in_month_fn(year, month, TxType::Expense)),
            0 <= income <= (i as int) * MAX_AMOUNT,
            0 <= expense <= (i as int) * MAX_AMOUNT,
        decreases txs.len() - i,
    {
        let t = &transactions[i];
        proof {
            assert(txs.take(i + 1) =~= txs.take(i as int).push(txs[i as int]));
            crate::balance::lemma_sum_if_push(
                txs.take(i as int),
                in_month_fn(year, month, TxType::Income),
                txs[i as int],
            );
            crate::balance::lemma_sum_if_push(
                txs.take(i as int),
                in_month_fn(year, month, TxType::Expense),
                txs[i as int],
            );
            assert(valid_transaction(txs[i as int]));
            assert((i as int) * MAX_AMOUNT + MAX_AMOUNT == (i + 1) * MAX_AMOUNT) by (nonlinear_arith);
            assert((i + 1) * MAX_AMOUNT <= (usize::MAX as int) * MAX_AMOUNT) by (nonlinear_arith)
                requires
                    0 <= i,
                    i + 1 <= usize::MAX,
            ;
        }
        if t.date.year == year && t.date.month == month {
            match t.tx_type {
                TxType::Income => {
                    income = income + t.amount as i128;
                },
                TxType::Expense => {
                    expense = expense + t.amount as i128;
                },
            }
        }
        i = i + 1;
    }
    proof {
        assert(txs.take(txs.len() as int) =~= txs);
    }
    (income, expense)
}

// ---------------------------------------------------------------------------
// Monthly trend
// ---------------------------------------------------------------------------

/// The period key of a transaction's date: year times one hundred plus
/// month.
pub open spec fn period_key32(t: Transaction) -> u32 {
    (t.date.year * 100 + t.date.month) as u32
}

/// The distinct period keys appearing in the ledger, in order of first
/// appearance.
pub open spec fn period_keys(txs: Seq<Transaction>) -> Seq<u32>
    decreases txs.len(),
{
    if txs.len() == 0 {
        Seq::<u32>::empty()
    } else {
        let prev = period_keys(txs.drop_last());
        if prev.contains(period_key32(txs.last())) {
            prev
        } else {
            prev.push(period_key32(txs.last()))
        }
    }
}

/// The descending order on period keys.
pub open spec fn trend_key_fn() -> spec_fn(u32) -> (i128, i128) {
    |k: u32| (k as i128, 0 as i128)
}

/// The number of periods a trend request covers, clamped to one through
/// twenty-four.
pub open spec fn trend_limit(months: i64) -> int {
    if months < 1 {
        1
    } else if months > 24 {
        24
    } else {
        months as int
    }
}

proof fn lemma_period_keys_no_dup(txs: Seq<Transaction>)
    ensures
        period_keys(txs).no_duplicates(),
    decreases txs.len(),
{
    if txs.len() == 0 {
    } else {
        lemma_period_keys_no_dup(txs.drop_last());
        let prev = period_keys(txs.drop_last());
        let k = period_key32(txs.last());
        if !prev.contains(k) {
            assert forall|i: int, j: int|
                0 <= i < j < prev.push(k).len() implies prev.push(k)[i] != prev.push(k)[j] by {
                if j < prev.len() {
                } else {
                    assert(prev.push(k)[i] == prev[i]);
                    assert(prev.contains(prev[i]));
                }
            }
        }
    }
}

/// Period keys record well-formed year-month pairs.
proof fn lemma_period_keys_shape(txs: Seq<Transaction>)
    requires
        amounts_valid(txs),
    ensures
        forall|n: int|
            0 <= n < period_keys(txs).len() ==> {
                &&& 1 <= #[trigger] period_keys(txs)[n] / 100 <= 9999
                &&& 1 <= period_keys(txs)[n] % 100 <= 12
            },
    decreases txs.len(),
{
    if txs.len() == 0 {
    } else {
        assert(forall|k: int| 0 <= k < txs.drop_last().len() ==> txs.drop_last()[k] == txs[k]);
        lemma_period_keys_shape(txs.drop_last());
        let prev = period_keys(txs.drop_last());
        let k = period_key32(txs.last());
        if !prev.contains(k) {
            assert(valid_transaction(txs[txs.len() - 1]));
            assert(1 <= k / 100 <= 9999 && 1 <= k % 100 <= 12);
            assert(forall|n: int|
                0 <= n < prev.push(k).len() ==> prev.push(k)[n] == if n < prev.len() {
                    prev[n]
                } else {
                    k
                });
        }
    }
}

fn vec_contains_u32(v: &Vec<u32>, x: u32) -> (r: bool)
    ensures
        r == v@.contains(x),
{
    let mut i: usize = 0;
    while i < v.len()
        invariant
            0 <= i <= v@.len(),
            forall|k: int| 0 <= k < i ==> v@[k] != x,
        decreases v@.len() - i,
    {
        if v[i] == x {
            return true;
        }
        i = i + 1;
    }
    false
}

// ---------------------------------------------------------------------------
// Spending by category
// ---------------------------------------------------------------------------

/// Selects one calendar month's expense transactions of one category
/// (`None` is the uncategorized bucket).
pub open spec fn spend_fn(year: u32, month: u32, cid: Option<i64>) -> spec_fn(Transaction) -> bool {
    |t: Transaction| t.tx_type == TxType::Expense && t.date.year == year && t.date.month == month
        && t.category_id == cid
}

/// One category's summed expenses inside one calendar month.
pub open spec fn cat_month_expense(
    txs: Seq<Transaction>,
    year: u32,
    month: u32,
    cid: Option<i64>,
) -> int {
    sum_if(txs, spend_fn(year, month, cid))
}

/// Whether a transaction belongs in the month's spending breakdown.
pub open spec fn is_month_expense(t: Transaction, year: u32, month: u32) -> bool {
    t.tx_type == TxType::Expense && t.date.year == year && t.date.month == month
}

/// The distinct category ids with expenses in the month, in order of first
/// appearance.
pub open spec fn spend_cids(txs: Seq<Transaction>, year: u32, month: u32) -> Seq<Option<i64>>
    decreases txs.len(),
{
    if txs.len() == 0 {
        Seq::<Option<i64>>::empty()
    } else {
        let prev = spend_cids(txs.drop_last(), year, month);
        if is_month_expense(txs.last(), year, month) && !prev.contains(txs.last().category_id) {
            prev.push(txs.last().category_id)
        } else {
            prev
        }
    }
}

/// One accumulated spending bucket: its category, its total so far, and
/// its first-appearance rank, which breaks ties between equal totals.
#[derive(Clone, Copy, Debug)]
pub struct SpendEntry {
    pub cid: Option<i64>,
    pub total: i128,
    pub rank: usize,
}

/// The buckets in first-appearance order, with their final totals.
pub open spec fn spend_base(txs: Seq<Transaction>, year: u32, month: u32) -> Seq<SpendEntry> {
    Seq::new(
        spend_cids(txs, year, month).len(),
        |i: int|
            SpendEntry {
                cid: spend_cids(txs, year, month)[i],
                total: cat_month_expense(txs, year, month, spend_cids(txs, year, month)[i]) as i128,
                rank: i as usize,
            },
    )
}

/// The breakdown order: largest total first, earlier bucket first on ties.
pub open spec fn spend_key_fn() -> spec_fn(SpendEntry) -> (i128, i128) {
    |e: SpendEntry| (e.total, (-(e.rank as int)) as i128)
}

/// What a month's spending breakdown hands back: the handed-out rows `r`
/// show the buckets of `sort_desc(spend_base(txs, year, month))` in order,
/// each with its category id, its exact summed amount, and the category's
/// name (or the uncategorized label).
pub open spec fn reflects_spending(
    r: Seq<crate::model::CategorySpend>,
    cats: Seq<Category>,
    txs: Seq<Transaction>,
    year: u32,
    month: u32,
) -> bool {
    let entries = sort_desc(spend_base(txs, year, month), spend_key_fn());
    &&& r.len() == entries.len()
    &&& forall|k: int|
        0 <= k < r.len() ==> {
            &&& (#[trigger] r[k]).category_id == entries[k].cid
            &&& r[k].amount == entries[k].total
            &&& r[k].amount == cat_month_expense(txs, year, month, r[k].category_id)
            &&& (r[k].category_id matches Some(c) ==> crate::ledger::category_exists(cats, c)
                && r[k].category_name@ == crate::ledger::category_by_id(cats, c).name@)
            &&& (r[k].category_id is None ==> r[k].category_name@ == "Uncategorized"@)
        }
    &&& forall|i: int, j: int|
        #![trigger r[i], r[j]]
        0 <= i < j < r.len() ==> r[i].amount >= r[j].amount
}

/// Every bucket's category id is carried by some stored transaction, so a
/// referenced category always exists.
proof fn lemma_spend_cids_exist(
    txs: Seq<Transaction>,
    year: u32,
    month: u32,
    cats: Seq<Category>,
)
    requires
        forall|k: int|
            0 <= k < txs.len() && (#[trigger] txs[k]).category_id is Some
                ==> crate::ledger::category_exists(cats, txs[k].category_id->Some_0),
    ensures
        forall|n: int|
            0 <= n < spend_cids(txs, year, month).len() && (#[trigger] spend_cids(
                txs,
                year,
                month,
            )[n]) is Some ==> crate::ledger::category_exists(
                cats,
                spend_cids(txs, year, month)[n]->Some_0,
            ),
    decreases txs.len(),
{
    if txs.len() == 0 {
    } else {
        assert(forall|k: int| 0 <= k < txs.drop_last().len() ==> txs.drop_last()[k] == txs[k]);
        lemma_spend_cids_exist(txs.drop_last(), year, month, cats);
        let prev = spend_cids(txs.drop_last(), year, month);
        let cur = spend_cids(txs, year, month);
        if cur != prev {
            assert(txs[txs.len() - 1] == txs.last());
            assert(forall|n: int|
                0 <= n < cur.len() ==> #[trigger] cur[n] == if n < prev.len() {
                    prev[n]
                } else {
                    txs.last().category_id
                });
        }
    }
}

/// Every expense transaction of the month has its category among the
/// buckets.
proof fn lemma_spend_cids_complete(txs: Seq<Transaction>, year: u32, month: u32)
    ensures
        forall|k: int|
            0 <= k < txs.len() && is_month_expense(#[trigger] txs[k], year, month) ==> spend_cids(
                txs,
                year,
                month,
            ).contains(txs[k].category_id),
    decreases txs.len(),
{
    if txs.len() == 0 {
    } else {
        lemma_spend_cids_complete(txs.drop_last(), year, month);
        let prev = spend_cids(txs.drop_last(), year, month);
        let cur = spend_cids(txs, year, month);
        assert forall|k: int|
            0 <= k < txs.len() && is_month_expense(#[trigger] txs[k], year, month) implies cur.contains(
            txs[k].category_id,
        ) by {
            if k < txs.len() - 1 {
                assert(txs.drop_last()[k] == txs[k]);
                assert(prev.contains(txs[k].category_id));
                let n = choose|n: int| 0 <= n < prev.len() && prev[n] == txs[k].category_id;
                if cur == prev {
                    assert(cur[n] == txs[k].category_id);
                } else {
                    assert(cur == prev.push(txs.last().category_id));
                    assert(cur[n] == txs[k].category_id);
                }
            } else {
                assert(txs[k] == txs.last());
                if prev.contains(txs.last().category_id) {
                    let n = choose|n: int|
                        0 <= n < prev.len() && prev[n] == txs.last().category_id;
                    assert(cur == prev);
                    assert(cur[n] == txs[k].category_id);
                } else {
                    assert(cur == prev.push(txs.last().category_id));
                    assert(cur[cur.len() - 1] == txs[k].category_id);
                }
            }
        }
    }
}

proof fn lemma_spend_cids_no_dup(txs: Seq<Transaction>, year: u32, month: u32)
    ensures
        spend_cids(txs, year, month).no_duplicates(),
    decreases txs.len(),
{
    if txs.len() == 0 {
    } else {
        lemma_spend_cids_no_dup(txs.drop_last(), year, month);
        let prev = spend_cids(txs.drop_last(), year, month);
        let cur = spend_cids(txs, year, month);
        if cur != prev {
            let c = txs.last().category_id;
            assert forall|i: int, j: int|
                0 <= i < j < prev.push(c).len() implies prev.push(c)[i] != prev.push(c)[j] by {
                if j < prev.len() {
                } else {
                    assert(prev.push(c)[i] == prev[i]);
                    assert(prev.contains(prev[i]));
                }
            }
        }
    }
}

fn opt_i64_eq(a: &Option<i64>, b: &Option<i64>) -> (r: bool)
    ensures
        r == (*a == *b),
{
    match (a, b) {
        (Some(x), Some(y)) => *x == *y,
        (None, None) => true,
        _ => false,
    }
}

impl Ledger {
    /// One calendar month's expenses grouped by category: per distinct
    /// category id (the uncategorized bucket under its own label) the
    /// summed amount, ordered by amount descending, ties in order of first
    /// appearance.
    #[verifier::loop_isolation(false)]
    pub fn spending_for_month(&self, year: u32, month: u32) -> (r: Vec<crate::model::CategorySpend>)
        requires
            self.wf(),
        ensures
            reflects_spending(r@, self.categories@, self.transactions@, year, month),
    {
        let ghost txs = self.transactions@;
        let ghost cats = self.categories@;
        let ghost skey = spend_key_fn();
        // accumulate per-category totals, in first-appearance order
        let mut buckets: Vec<SpendEntry> = Vec::new();
        let mut i: usize = 0;
        proof {
            assert(txs.take(0) =~= Seq::<Transaction>::empty());
        }
        while i < self.transactions.len()
            invariant
                0 <= i <= txs.len(),
                buckets@.len() == spend_cids(txs.take(i as int), year, month).len(),
                forall|k: int|
                    0 <= k < buckets@.len() ==> {
                        &&& (#[trigger] buckets@[k]).cid == spend_cids(
                            txs.take(i as int),
                            year,
                            month,
                        )[k]
                        &&& buckets@[k].total == cat_month_expense(
                            txs.take(i as int),
                            year,
                            month,
                            buckets@[k].cid,
                        )
                        &&& buckets@[k].rank == k
                        &&& 0 <= buckets@[k].total <= (i as int) * MAX_AMOUNT
                    },
            decreases txs.len() - i,
        {
            let t = &self.transactions[i];
            let ghost pre = txs.take(i as int);
            proof {
                assert(txs.take(i + 1) =~= pre.push(txs[i as int]));
                assert(txs.take(i + 1).drop_last() =~= pre);
                assert(valid_transaction(txs[i as int]));
                assert forall|k: int| 0 <= k < buckets@.len() implies cat_month_expense(
                    txs.take(i + 1),
                    year,
                    month,
                    (#[trigger] buckets@[k]).cid,
                ) == cat_month_expense(pre, year, month, buckets@[k].cid) + if spend_fn(
                    year,
                    month,
                    buckets@[k].cid,
                )(txs[i as int]) {
                    txs[i as int].amount as int
                } else {
                    0
                } by {
                    crate::balance::lemma_sum_if_push(
                        pre,
                        spend_fn(year, month, buckets@[k].cid),
                        txs[i as int],
                    );
                }
                assert((i as int) * MAX_AMOUNT + MAX_AMOUNT == (i + 1) * MAX_AMOUNT) by (nonlinear_arith);
                assert((i + 1) * MAX_AMOUNT <= (usize::MAX as int) * MAX_AMOUNT) by (nonlinear_arith)
                    requires
                        0 <= i,
                        i + 1 <= usize::MAX,
                ;
            }
            let relevant = matches!(t.tx_type, TxType::Expense) && t.date.year == year
                && t.date.month == month;
            proof {
                assert(relevant == is_month_expense(txs[i as int], year, month));
            }
            if relevant {
                // find this category's bucket
                let mut j: usize = 0;
                let mut found = false;
                while j < buckets.len() && !found
                    invariant
                        0 <= j <= buckets@.len(),
                        found ==> j < buckets@.len() && buckets@[j as int].cid == txs[i as int].category_id,
                        !found ==> forall|q: int|
                            0 <= q < j ==> (#[trigger] buckets@[q]).cid != txs[i as int].category_id,
                    decreases buckets@.len() - j + if found {
                        0int
                    } else {
                        1int
                    },
                {
                    if opt_i64_eq(&buckets[j].cid, &t.category_id) {
                        found = true;
                    } else {
                        j = j + 1;
                    }
                }
                if found {
                    proof {
                        let cid = txs[i as int].category_id;
                        assert(spend_cids(pre, year, month)[j as int] == cid);
                        assert(spend_cids(pre, year, month).contains(cid));
                        assert(spend_cids(txs.take(i + 1), year, month) == spend_cids(
                            pre,
                            year,
                            month,
                        ));
                        lemma_spend_cids_no_dup(pre, year, month);
                        assert forall|q: int|
                            0 <= q < buckets@.len() && q != j as int implies (#[trigger] buckets@[q]).cid
                            != cid by {
                            assert(spend_cids(pre, year, month)[q] == buckets@[q].cid);
                        }
                    }
                    let e = buckets[j];
                    buckets.set(j, SpendEntry { cid: e.cid, total: e.total + t.amount as i128, rank: e.rank });
                } else {
                    proof {
                        let cid = txs[i as int].category_id;
                        assert(forall|q: int|
                            0 <= q < buckets@.len() ==> (#[trigger] buckets@[q]).cid != cid);
                        assert(forall|q: int|
                            0 <= q < spend_cids(pre, year, month).len() ==> spend_cids(
                                pre,
                                year,
                                month,
                            )[q] == buckets@[q].cid);
                        assert(!spend_cids(pre, year, month).contains(cid)) by {
                            if spend_cids(pre, year, month).contains(cid) {
                                let q = choose|q: int|
                                    0 <= q < spend_cids(pre, year, month).len() && spend_cids(
                                        pre,
                                        year,
                                        month,
                                    )[q] == cid;
                                assert(buckets@[q].cid == cid);
                            }
                        }
                        assert(spend_cids(txs.take(i + 1), year, month) == spend_cids(
                            pre,
                            year,
                            month,
                        ).push(cid));
                        lemma_spend_cids_complete(pre, year, month);
                        assert forall|q: int|
                            0 <= q < pre.len() implies !(spend_fn(year, month, cid)(
                            #[trigger] pre[q],
                        )) by {
                            if spend_fn(year, month, cid)(pre[q]) {
                                assert(is_month_expense(pre[q], year, month));
                                assert(spend_cids(pre, year, month).contains(pre[q].category_id));
                            }
                        }
                        crate::balance::lemma_sum_if_zero(pre, spend_fn(year, month, cid));
                    }
                    let rank = buckets.len();
                    buckets.push(SpendEntry { cid: t.category_id, total: t.amount as i128, rank });
                }
            } else {
                proof {
                    assert(spend_cids(txs.take(i + 1), year, month) == spend_cids(
                        pre,
                        year,
                        month,
                    ));
                }
            }
            i = i + 1;
        }
        proof {
            assert(txs.take(txs.len() as int) =~= txs);
            assert(buckets@ =~= spend_base(txs, year, month));
            lemma_spend_cids_no_dup(txs, year, month);
            assert(spend_base(txs, year, month).no_duplicates()) by {
                let base = spend_base(txs, year, month);
                assert forall|a: int, b: int|
                    0 <= a < b < base.len() implies base[a] != base[b] by {
                    assert(base[a].rank == a && base[b].rank == b);
                }
            }
        }
        // order by amount, largest first
        let mut entries: Vec<SpendEntry> = Vec::new();
        let mut i2: usize = 0;
        proof {
            assert(buckets@.take(0) =~= Seq::<SpendEntry>::empty());
        }
        while i2 < buckets.len()
            invariant
                0 <= i2 <= buckets@.len(),
                entries@ == sort_desc(buckets@.take(i2 as int), skey),
                sorted_desc(entries@, skey),
            decreases buckets@.len() - i2,
        {
            let x = buckets[i2];
            let mut j: usize = 0;
            while j < entries.len() && !(x.total > entries[j].total || (x.total == entries[j].total
                && x.rank < entries[j].rank))
                invariant
                    0 <= j <= entries@.len(),
                    forall|q: int| 0 <= q < j ==> !key_before(skey(x), skey(#[trigger] entries@[q])),
                decreases entries@.len() - j,
            {
                j = j + 1;
            }
            proof {
                if j < entries@.len() {
                    assert(key_before(skey(x), skey(entries@[j as int])));
                }
                lemma_insert_desc_at(entries@, x, skey, j as int);
                lemma_insert_desc_sorted(entries@, x, skey);
                lemma_insert_desc_len(entries@, x, skey);
                assert(buckets@.take(i2 + 1) =~= buckets@.take(i2 as int).push(buckets@[i2 as int]));
                assert(buckets@.take(i2 + 1).drop_last() =~= buckets@.take(i2 as int));
            }
            let ghost old_entries = entries@;
            entries.insert(j, x);
            proof {
                assert(entries@ =~= old_entries.take(j as int) + seq![x] + old_entries.skip(
                    j as int,
                ));
                assert(entries@ == insert_desc(old_entries, x, skey));
            }
            i2 = i2 + 1;
        }
        proof {
            assert(buckets@.take(buckets@.len() as int) =~= buckets@);
        }
        let ghost sorted_entries = sort_desc(spend_base(txs, year, month), skey);
        proof {
            // each sorted bucket still pairs its category with its total
            broadcast use vstd::seq_lib::group_to_multiset_ensures;

            crate::order::lemma_sort_desc_multiset(spend_base(txs, year, month), skey);
            assert(forall|k: int|
                0 <= k < txs.len() && (#[trigger] txs[k]).category_id is Some
                    ==> crate::ledger::category_exists(cats, txs[k].category_id->Some_0));
            lemma_spend_cids_exist(txs, year, month, cats);
            assert forall|k: int|
                0 <= k < entries@.len() implies {
                &&& (#[trigger] entries@[k]).total == cat_month_expense(
                    txs,
                    year,
                    month,
                    entries@[k].cid,
                )
                &&& (entries@[k].cid matches Some(c) ==> crate::ledger::category_exists(cats, c))
            } by {
                let base = spend_base(txs, year, month);
                assert(entries@.contains(entries@[k]));
                assert(entries@.to_multiset().count(entries@[k]) > 0);
                assert(base.to_multiset().count(entries@[k]) > 0);
                assert(base.contains(entries@[k]));
                let n = choose|n: int| 0 <= n < base.len() && base[n] == entries@[k];
                assert(base[n].total == cat_month_expense(txs, year, month, base[n].cid));
                assert(base[n].cid == spend_cids(txs, year, month)[n]);
            }
        }
        // attach the display names
        let mut out: Vec<crate::model::CategorySpend> = Vec::new();
        let mut i3: usize = 0;
        while i3 < entries.len()
            invariant
                0 <= i3 <= entries@.len(),
                out@.len() == i3,
                forall|k: int|
                    0 <= k < i3 ==> {
                        &&& (#[trigger] out@[k]).category_id == entries@[k].cid
                        &&& out@[k].amount == entries@[k].total
                        &&& (out@[k].category_id matches Some(c)
                            ==> out@[k].category_name@ == crate::ledger::category_by_id(
                            cats,
                            c,
                        ).name@)
                        &&& (out@[k].category_id is None ==> out@[k].category_name@
                            == "Uncategorized"@)
                    },
            decreases entries@.len() - i3,
        {
            let e = entries[i3];
            let name: String = match e.cid {
                Some(c) => match self.find_category(c) {
                    Some(kc) => {
                        proof {
                            crate::ledger::lemma_category_by_id_index(cats, kc as int);
                        }
                        self.categories[kc].name.clone()
                    },
                    None => {
                        proof {
                            assert(crate::ledger::category_exists(cats, c));
                            assert(false);
                        }
                        String::new()
                    },
                },
                None => "Uncategorized".to_owned(),
            };
            out.push(
                crate::model::CategorySpend { category_id: e.cid, category_name: name, amount: e.total },
            );
            i3 = i3 + 1;
        }
        proof {
            assert forall|a: int, b: int|
                #![trigger out@[a], out@[b]]
                0 <= a < b < out@.len() implies out@[a].amount >= out@[b].amount by {
                assert(!key_before(skey(entries@[b]), skey(entries@[a])));
            }
        }
        out
    }

    /// The trend over the most recent periods that hold transactions: per
    /// period the total income, total expense and net, in strictly
    /// ascending period order with no duplicate, at most `min(months, 24)`
    /// rows (and at least one period when any transaction exists).
    #[verifier::loop_isolation(false)]
    pub fn get_monthly_trends(&self, months: i64) -> (r: Vec<MonthSummary>)
        requires
            self.wf(),
        ensures
            ({
                let keys = period_keys(self.transactions@);
                let limit = trend_limit(months);
                let n = if keys.len() <= limit {
                    keys.len() as int
                } else {
                    limit
                };
                let chosen = sort_desc(keys, trend_key_fn()).take(n);
                &&& r@.len() == n
                &&& r@.len() <= 24
                &&& (months >= 1 ==> r@.len() <= months)
                &&& forall|k: int|
                    0 <= k < r@.len() ==> {
                        &&& (#[trigger] r@[k]).year == chosen[n - 1 - k] / 100
                        &&& r@[k].month == chosen[n - 1 - k] % 100
                        &&& r@[k].income == month_income(self.transactions@, r@[k].year, r@[k].month)
                        &&& r@[k].expenses == month_expense(
                            self.transactions@,
                            r@[k].year,
                            r@[k].month,
                        )
                        &&& r@[k].net == r@[k].income - r@[k].expenses
                        &&& r@[k].label@ == period_label_chars(
                            r@[k].year as int,
                            r@[k].month as int,
                        )
                    }
                &&& forall|i: int, j: int|
                    #![trigger r@[i], r@[j]]
                    0 <= i < j < r@.len() ==> r@[i].year * 100 + r@[i].month < r@[j].year * 100
                        + r@[j].month
            }),
    {
        let limit: usize = if months < 1 {
            1
        } else if months > 24 {
            24
        } else {
            months as usize
        };
        let ghost txs = self.transactions@;
        let ghost tkey = trend_key_fn();
        // collect the distinct period keys, in order of first appearance
        let mut keys: Vec<u32> = Vec::new();
        let mut i: usize = 0;
        proof {
            assert(txs.take(0) =~= Seq::<Transaction>::empty());
        }
        while i < self.transactions.len()
            invariant
                0 <= i <= txs.len(),
                keys@ == period_keys(txs.take(i as int)),
            decreases txs.len() - i,
        {
            let t = &self.transactions[i];
            let k: u32 = t.date.year * 100 + t.date.month;
            proof {
                assert(valid_transaction(txs[i as int]));
                assert(txs.take(i + 1) =~= txs.take(i as int).push(txs[i as int]));
                assert(txs.take(i + 1).drop_last() =~= txs.take(i as int));
                assert(k == period_key32(txs[i as int]));
            }
            if !vec_contains_u32(&keys, k) {
                keys.push(k);
            }
            i = i + 1;
        }
        proof {
            assert(txs.take(txs.len() as int) =~= txs);
            lemma_period_keys_no_dup(txs);
            lemma_period_keys_shape(txs);
        }
        // sort the keys, largest (most recent) first
        let mut sorted: Vec<u32> = Vec::new();
        let mut i2: usize = 0;
        proof {
            assert(keys@.take(0) =~= Seq::<u32>::empty());
        }
        while i2 < keys.len()
            invariant
                0 <= i2 <= keys@.len(),
                sorted@ == sort_desc(keys@.take(i2 as int), tkey),
                sorted_desc(sorted@, tkey),
            decreases keys@.len() - i2,
        {
            let x = keys[i2];
            let mut j: usize = 0;
            while j < sorted.len() && x <= sorted[j]
                invariant
                    0 <= j <= sorted@.len(),
                    forall|q: int| 0 <= q < j ==> !key_before(tkey(x), tkey(#[trigger] sorted@[q])),
                decreases sorted@.len() - j,
            {
                j = j + 1;
            }
            proof {
                if j < sorted@.len() {
                    assert(key_before(tkey(x), tkey(sorted@[j as int])));
                }
                lemma_insert_desc_at(sorted@, x, tkey, j as int);
                lemma_insert_desc_sorted(sorted@, x, tkey);
                lemma_insert_desc_len(sorted@, x, tkey);
                assert(keys@.take(i2 + 1) =~= keys@.take(i2 as int).push(keys@[i2 as int]));
                assert(keys@.take(i2 + 1).drop_last() =~= keys@.take(i2 as int));
            }
            let ghost old_sorted = sorted@;
            sorted.insert(j, x);
            proof {
                assert(sorted@ =~= old_sorted.take(j as int) + seq![x] + old_sorted.skip(j as int));
                assert(sorted@ == insert_desc(old_sorted, x, tkey));
            }
            i2 = i2 + 1;
        }
        proof {
            assert(keys@.take(keys@.len() as int) =~= keys@);
            lemma_sort_desc_no_dup(keys@, tkey);
            lemma_sort_desc_sorted(keys@, tkey);
        }
        // keep the most recent periods only
        if sorted.len() > limit {
            let ghost pre = sorted@;
            sorted.truncate(limit);
            proof {
                assert(sorted@ == pre.take(limit as int));
            }
        } else {
            proof {
                assert(sorted@ =~= sort_desc(keys@, tkey).take(sorted@.len() as int));
            }
        }
        let ghost chosen = sorted@;
        proof {
            assert(chosen.no_duplicates()) by {
                let full = sort_desc(keys@, tkey);
                assert(forall|k: int| 0 <= k < chosen.len() ==> chosen[k] == full[k]);
            }
            assert(sorted_desc(chosen, tkey)) by {
                let full = sort_desc(keys@, tkey);
                assert(forall|k: int| 0 <= k < chosen.len() ==> chosen[k] == full[k]);
            }
            // every chosen key records a well-formed period
            broadcast use vstd::seq_lib::group_to_multiset_ensures;

            crate::order::lemma_sort_desc_multiset(keys@, tkey);
            assert forall|n: int|
                0 <= n < chosen.len() implies {
                &&& 1 <= #[trigger] chosen[n] / 100 <= 9999
                &&& 1 <= chosen[n] % 100 <= 12
            } by {
                let full = sort_desc(keys@, tkey);
                assert(chosen[n] == full[n]);
                assert(full.contains(full[n]));
                assert(full.to_multiset().count(full[n]) > 0);
                assert(keys@.to_multiset().count(full[n]) > 0);
                assert(keys@.contains(full[n]));
                let m = choose|m: int| 0 <= m < keys@.len() && keys@[m] == full[n];
            }
        }
        // oldest first, with totals and label
        let mut out: Vec<MonthSummary> = Vec::new();
        let mut left: usize = sorted.len();
        while left > 0
            invariant
                0 <= left <= chosen.len(),
                chosen == sorted@,
                out@.len() == chosen.len() - left,
                forall|k: int|
                    0 <= k < out@.len() ==> {
                        &&& (#[trigger] out@[k]).year == chosen[chosen.len() - 1 - k] / 100
                        &&& out@[k].month == chosen[chosen.len() - 1 - k] % 100
                        &&& out@[k].income == month_income(txs, out@[k].year, out@[k].month)
                        &&& out@[k].expenses == month_expense(txs, out@[k].year, out@[k].month)
                        &&& out@[k].net == out@[k].income - out@[k].expenses
                        &&& out@[k].label@ == period_label_chars(
                            out@[k].year as int,
                            out@[k].month as int,
                        )
                    },
            decreases left,
        {
            let key = sorted[left - 1];
            let year = key / 100;
            let month = key % 100;
            let (income, expense) = month_sums(&self.transactions, year, month);
            proof {
                crate::balance::lemma_sum_if_bounds(txs, in_month_fn(year, month, TxType::Income));
                crate::balance::lemma_sum_if_bounds(txs, in_month_fn(year, month, TxType::Expense));
                assert(txs.len() * MAX_AMOUNT <= (usize::MAX as int) * MAX_AMOUNT) by (nonlinear_arith)
                    requires
                        0 <= txs.len() <= usize::MAX as int,
                ;
            }
            let label = period_label(year, month);
            out.push(
                MonthSummary { year, month, label, income, expenses: expense, net: income - expense },
            );
            left = left - 1;
        }
        proof {
            assert forall|i3: int, j3: int|
                #![trigger out@[i3], out@[j3]]
                0 <= i3 < j3 < out@.len() implies out@[i3].year * 100 + out@[i3].month
                < out@[j3].year * 100 + out@[j3].month by {
                let n = chosen.len();
                let ki = chosen[n - 1 - i3];
                let kj = chosen[n - 1 - j3];
                assert(!key_before(tkey(ki), tkey(kj)));
                assert(ki != kj);
                assert(out@[i3].year * 100 + out@[i3].month == ki);
                assert(out@[j3].year * 100 + out@[j3].month == kj);
            }
        }
        out
    }

    /// One calendar month's totals: income, expense, and the per-category
    /// expense breakdown.
    pub fn get_spending_breakdown(&self, year: u32, month: u32) -> (r: crate::model::SpendingBreakdown)
        requires
            self.wf(),
        ensures
            r.year == year,
            r.month == month,
            r.total_income == month_income(self.transactions@, year, month),
            r.total_expenses == month_expense(self.transactions@, year, month),
            reflects_spending(r.categories@, self.categories@, self.transactions@, year, month),
    {
        let (total_income, total_expenses) = month_sums(&self.transactions, year, month);
        let categories = self.spending_for_month(year, month);
        crate::model::SpendingBreakdown { year, month, total_income, total_expenses, categories }
    }

    /// The dashboard, derived in one read for the given current month: net
    /// worth over active accounts, the month's income and expense totals,
    /// the active accounts ascending by name, each with its balance, the
    /// ten most recent transactions, and the month's spending by category.
    pub fn get_dashboard(&self, year: u32, month: u32) -> (r: crate::model::DashboardData)
        requires
            self.wf(),
        ensures
            r.net_worth == crate::balance::net_worth_of(self.accounts@, self.transactions@),
            r.monthly_income == month_income(self.transactions@, year, month),
            r.monthly_expenses == month_expense(self.transactions@, year, month),
            ({
                let actives = crate::order::sort_ord(
                    self.accounts@.filter(crate::ledger::active_account_fn()),
                    crate::ledger::account_order(),
                );
                &&& r.accounts@.len() == actives.len()
                &&& forall|k: int|
                    0 <= k < r.accounts@.len() ==> crate::ledger::reflects_account(
                        #[trigger] r.accounts@[k],
                        actives[k],
                        crate::balance::balance_of(actives[k], self.transactions@),
                    )
            }),
            ({
                let recent = sort_desc(self.transactions@, crate::filter::tx_key_fn());
                &&& r.recent_transactions@.len() == if recent.len() <= 10 {
                    recent.len() as int
                } else {
                    10int
                }
                &&& forall|k: int|
                    0 <= k < r.recent_transactions@.len() ==> crate::ledger::reflects_transaction(
                        #[trigger] r.recent_transactions@[k],
                        recent[k],
                    )
            }),
            reflects_spending(
                r.spending_by_category@,
                self.categories@,
                self.transactions@,
                year,
                month,
            ),
    {
        let net_worth = self.net_worth();
        let (monthly_income, monthly_expenses) = month_sums(&self.transactions, year, month);
        // the active accounts, ascending by name, each with its balance
        let accounts = self.accounts_with_balances(true);
        // ten most recent transactions
        let all = crate::filter::TransactionFilter::any();
        let recent_transactions = self.list_limited(&all, 10);
        proof {
            let pred = crate::filter::tx_match_fn(self.accounts@, self.categories@, all);
            assert forall|k: int| 0 <= k < self.transactions@.len() implies pred(
                #[trigger] self.transactions@[k],
            ) by {}
            crate::filter::lemma_filter_true(self.transactions@, pred);
        }
        let spending_by_category = self.spending_for_month(year, month);
        crate::model::DashboardData {
            net_worth,
            monthly_income,
            monthly_expenses,
            accounts,
            recent_transactions,
            spending_by_category,
        }
    }
}

} // verus!
