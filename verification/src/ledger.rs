use vstd::prelude::*;
use crate::error::LedgerError;
use crate::model::{
    Account, AccountType, AccountWithBalance, Category, Date, Direction, Frequency, Transaction,
    Transfer, TransferType, TxType, MAX_AMOUNT,
};
use crate::model::{valid_account, valid_date, valid_transaction, valid_transfer};
use crate::model::direction_rank;
use crate::order::{
    insert_ord, lemma_insert_ord_at, lemma_insert_ord_len, lemma_insert_ord_sorted,
    lemma_sort_ord_sorted, sort_ord, sorted_ord, strict_order,
};
use crate::text::{lemma_str_lt_irrefl, lemma_str_lt_trans, str_lt, str_lt_x};
use crate::balance::{
    accounts_valid, amounts_valid, balance_of, compute_balance, distinct_account_ids, net_worth,
    net_worth_of,
};

verus! {

// ---------------------------------------------------------------------------
// View helpers: stored values versus handed-out copies
// ---------------------------------------------------------------------------

/// Two optional strings hold the same text.
pub open spec fn same_opt_text(a: Option<String>, b: Option<String>) -> bool {
    match (a, b) {
        (Option::Some(x), Option::Some(y)) => x@ == y@,
        (Option::None, Option::None) => true,
        _ => false,
    }
}

/// The handed-out account copy `w` shows the stored account `a` together
/// with the balance `bal`.
pub open spec fn reflects_account(w: AccountWithBalance, a: Account, bal: int) -> bool {
    &&& w.id == a.id
    &&& w.name@ == a.name@
    &&& w.account_type == a.account_type
    &&& same_opt_text(w.subtype, a.subtype)
    &&& w.currency@ == a.currency@
    &&& w.opening_balance == a.opening_balance
    &&& w.credit_limit == a.credit_limit
    &&& w.billing_cycle_day == a.billing_cycle_day
    &&& w.payment_due_day == a.payment_due_day
    &&& w.is_active == a.is_active
    &&& w.created_at@ == a.created_at@
    &&& w.updated_at@ == a.updated_at@
    &&& w.balance == bal
}

/// The handed-out transaction copy `c` holds the same data as the stored
/// transaction `t`.
pub open spec fn reflects_transaction(c: Transaction, t: Transaction) -> bool {
    &&& c.id == t.id
    &&& c.account_id == t.account_id
    &&& c.category_id == t.category_id
    &&& c.transfer_id == t.transfer_id
    &&& c.tx_type == t.tx_type
    &&& c.amount == t.amount
    &&& c.date == t.date
    &&& same_opt_text(c.notes, t.notes)
    &&& c.is_recurring == t.is_recurring
    &&& c.recurrence_frequency == t.recurrence_frequency
    &&& c.next_due_date == t.next_due_date
    &&& c.created_at@ == t.created_at@
    &&& c.updated_at@ == t.updated_at@
}

/// The handed-out category copy `c` holds the same data as the stored
/// category `k`.
pub open spec fn reflects_category(c: Category, k: Category) -> bool {
    &&& c.id == k.id
    &&& c.name@ == k.name@
    &&& c.direction == k.direction
    &&& same_opt_text(c.icon, k.icon)
    &&& c.is_archived == k.is_archived
    &&& c.created_at@ == k.created_at@
}

/// The handed-out transfer copy `c` holds the same data as the stored
/// transfer `t`.
pub open spec fn reflects_transfer(c: Transfer, t: Transfer) -> bool {
    &&& c.id == t.id
    &&& c.from_account_id == t.from_account_id
    &&& c.to_account_id == t.to_account_id
    &&& c.amount == t.amount
    &&& c.date == t.date
    &&& same_opt_text(c.notes, t.notes)
    &&& c.transfer_type == t.transfer_type
    &&& c.created_at@ == t.created_at@
}

// ---------------------------------------------------------------------------
// Existence and distinctness
// ---------------------------------------------------------------------------

pub open spec fn account_exists(accounts: Seq<Account>, id: i64) -> bool {
    exists|k: int| 0 <= k < accounts.len() && #[trigger] accounts[k].id == id
}

pub open spec fn category_exists(categories: Seq<Category>, id: i64) -> bool {
    exists|k: int| 0 <= k < categories.len() && #[trigger] categories[k].id == id
}

pub open spec fn transfer_exists(transfers: Seq<Transfer>, id: i64) -> bool {
    exists|k: int| 0 <= k < transfers.len() && #[trigger] transfers[k].id == id
}

pub open spec fn transaction_exists(txs: Seq<Transaction>, id: i64) -> bool {
    exists|k: int| 0 <= k < txs.len() && #[trigger] txs[k].id == id
}

/// The first account carrying the id (meaningful when one exists).
pub open spec fn account_by_id(accounts: Seq<Account>, id: i64) -> Account
    decreases accounts.len(),
{
    if accounts.len() == 0 {
        arbitrary()
    } else if accounts[0].id == id {
        accounts[0]
    } else {
        account_by_id(accounts.drop_first(), id)
    }
}

/// The first category carrying the id (meaningful when one exists).
pub open spec fn category_by_id(categories: Seq<Category>, id: i64) -> Category
    decreases categories.len(),
{
    if categories.len() == 0 {
        arbitrary()
    } else if categories[0].id == id {
        categories[0]
    } else {
        category_by_id(categories.drop_first(), id)
    }
}

/// The first transaction carrying the id (meaningful when one exists).
pub open spec fn transaction_by_id(txs: Seq<Transaction>, id: i64) -> Transaction
    decreases txs.len(),
{
    if txs.len() == 0 {
        arbitrary()
    } else if txs[0].id == id {
        txs[0]
    } else {
        transaction_by_id(txs.drop_first(), id)
    }
}

pub proof fn lemma_transaction_by_id_index(txs: Seq<Transaction>, k: int)
    requires
        distinct_tx_ids(txs),
        0 <= k < txs.len(),
    ensures
        transaction_by_id(txs, txs[k].id) == txs[k],
    decreases txs.len(),
{
    if k == 0 {
    } else {
        assert(txs[0].id != txs[k].id);
        let df = txs.drop_first();
        assert(distinct_tx_ids(df)) by {
            assert(forall|m: int| 0 <= m < df.len() ==> df[m] == txs[m + 1]);
        }
        assert(df[k - 1] == txs[k]);
        lemma_transaction_by_id_index(df, k - 1);
    }
}

pub proof fn lemma_account_by_id_index(accounts: Seq<Account>, k: int)
    requires
        distinct_account_ids(accounts),
        0 <= k < accounts.len(),
    ensures
        account_by_id(accounts, accounts[k].id) == accounts[k],
    decreases accounts.len(),
{
    if k == 0 {
    } else {
        assert(accounts[0].id != accounts[k].id);
        let df = accounts.drop_first();
        assert(distinct_account_ids(df)) by {
            assert(forall|m: int| 0 <= m < df.len() ==> df[m] == accounts[m + 1]);
        }
        assert(df[k - 1] == accounts[k]);
        lemma_account_by_id_index(df, k - 1);
    }
}

pub proof fn lemma_category_by_id_index(categories: Seq<Category>, k: int)
    requires
        distinct_category_ids(categories),
        0 <= k < categories.len(),
    ensures
        category_by_id(categories, categories[k].id) == categories[k],
    decreases categories.len(),
{
    if k == 0 {
    } else {
        assert(categories[0].id != categories[k].id);
        let df = categories.drop_first();
        assert(distinct_category_ids(df)) by {
            assert(forall|m: int| 0 <= m < df.len() ==> df[m] == categories[m + 1]);
        }
        assert(df[k - 1] == categories[k]);
        lemma_category_by_id_index(df, k - 1);
    }
}

pub open spec fn distinct_category_ids(categories: Seq<Category>) -> bool {
    forall|i: int, j: int|
        #![trigger categories[i], categories[j]]
        0 <= i < j < categories.len() ==> categories[i].id != categories[j].id
}

pub open spec fn distinct_tx_ids(txs: Seq<Transaction>) -> bool {
    forall|i: int, j: int|
        #![trigger txs[i], txs[j]]
        0 <= i < j < txs.len() ==> txs[i].id != txs[j].id
}

pub open spec fn distinct_transfer_ids(transfers: Seq<Transfer>) -> bool {
    forall|i: int, j: int|
        #![trigger transfers[i], transfers[j]]
        0 <= i < j < transfers.len() ==> transfers[i].id != transfers[j].id
}

// ---------------------------------------------------------------------------
// Listing orders
// ---------------------------------------------------------------------------

/// The account listing order: ascending by name; accounts with the same
/// name keep their stored order.
pub open spec fn account_order() -> spec_fn(Account, Account) -> bool {
    |a: Account, b: Account| str_lt(a.name@, b.name@)
}

/// The category listing order: by direction (`both`, `expense`, `income`),
/// then ascending by name; ties keep their stored order.
pub open spec fn category_order() -> spec_fn(Category, Category) -> bool {
    |a: Category, b: Category|
        direction_rank(a.direction) < direction_rank(b.direction) || (direction_rank(a.direction)
            == direction_rank(b.direction) && str_lt(a.name@, b.name@))
}

/// Selects the accounts the dashboard shows: the active ones.
pub open spec fn active_account_fn() -> spec_fn(Account) -> bool {
    |a: Account| a.is_active
}

/// What an account listing covers: every account, or the active ones only.
pub open spec fn shown_accounts(accounts: Seq<Account>, only_active: bool) -> Seq<Account> {
    if only_active {
        accounts.filter(active_account_fn())
    } else {
        accounts
    }
}

pub proof fn lemma_account_order_strict()
    ensures
        strict_order(account_order()),
{
    let before = account_order();
    assert forall|a: Account| !#[trigger] before(a, a) by {
        lemma_str_lt_irrefl(a.name@);
    }
    assert forall|a: Account, b: Account, c: Account|
        #![trigger before(a, b), before(b, c)]
        before(a, b) && before(b, c) implies before(a, c) by {
        lemma_str_lt_trans(a.name@, b.name@, c.name@);
    }
}

pub proof fn lemma_category_order_strict()
    ensures
        strict_order(category_order()),
{
    let before = category_order();
    assert forall|a: Category| !#[trigger] before(a, a) by {
        lemma_str_lt_irrefl(a.name@);
    }
    assert forall|a: Category, b: Category, c: Category|
        #![trigger before(a, b), before(b, c)]
        before(a, b) && before(b, c) implies before(a, c) by {
        if str_lt(a.name@, b.name@) && str_lt(b.name@, c.name@) {
            lemma_str_lt_trans(a.name@, b.name@, c.name@);
        }
    }
}

fn direction_rank_x(d: Direction) -> (r: u8)
    ensures
        r == direction_rank(d),
{
    match d {
        Direction::Both => 0,
        Direction::Expense => 1,
        Direction::Income => 2,
    }
}

/// The strict category listing order on two category rows.
fn category_comes_before(a: &Category, b: &Category) -> (r: bool)
    ensures
        r == category_order()(*a, *b),
{
    let ra = direction_rank_x(a.direction);
    let rb = direction_rank_x(b.direction);
    ra < rb || (ra == rb && str_lt_x(a.name.as_str(), b.name.as_str()))
}

// ---------------------------------------------------------------------------
// Transfer legs
// ---------------------------------------------------------------------------

/// Selects the legs of the transfer with id `tid`.
pub open spec fn leg_of(tid: i64) -> spec_fn(Transaction) -> bool {
    |t: Transaction| t.transfer_id == Some(tid)
}

/// The expense leg a transfer owns on its source account: same amount, no
/// category.
pub open spec fn is_expense_leg(t: Transaction, tr: Transfer) -> bool {
    &&& t.transfer_id == Some(tr.id)
    &&& t.tx_type == TxType::Expense
    &&& t.account_id == tr.from_account_id
    &&& t.amount == tr.amount
    &&& t.category_id is None
}

/// The income leg a transfer owns on its destination account: same amount,
/// no category.
pub open spec fn is_income_leg(t: Transaction, tr: Transfer) -> bool {
    &&& t.transfer_id == Some(tr.id)
    &&& t.tx_type == TxType::Income
    &&& t.account_id == tr.to_account_id
    &&& t.amount == tr.amount
    &&& t.category_id is None
}

pub open spec fn expense_leg_of(tr: Transfer) -> spec_fn(Transaction) -> bool {
    |t: Transaction| is_expense_leg(t, tr)
}

pub open spec fn income_leg_of(tr: Transfer) -> spec_fn(Transaction) -> bool {
    |t: Transaction| is_income_leg(t, tr)
}

/// Selects the transactions that are not legs of the transfer with id
/// `tid`: what deleting that transfer keeps.
pub open spec fn non_leg_of(tid: i64) -> spec_fn(Transaction) -> bool {
    |t: Transaction| t.transfer_id != Some(tid)
}

/// The transfer `tr` owns exactly one expense leg and exactly one income
/// leg, and nothing else references it.
pub open spec fn transfer_paired(txs: Seq<Transaction>, tr: Transfer) -> bool {
    &&& txs.filter(expense_leg_of(tr)).len() == 1
    &&& txs.filter(income_leg_of(tr)).len() == 1
    &&& forall|k: int|
        0 <= k < txs.len() && (#[trigger] txs[k]).transfer_id == Some(tr.id) ==> is_expense_leg(
            txs[k],
            tr,
        ) || is_income_leg(txs[k], tr)
}

// ---------------------------------------------------------------------------
// Filter helpers
// ---------------------------------------------------------------------------

proof fn lemma_filter_update_nonmatching<A>(s: Seq<A>, k: int, x: A, p: spec_fn(A) -> bool)
    requires
        0 <= k < s.len(),
        !p(s[k]),
        !p(x),
    ensures
        s.update(k, x).filter(p) == s.filter(p),
    decreases s.len(),
{
    reveal(Seq::filter);
    let t = s.update(k, x);
    assert(t.len() == s.len());
    if k == s.len() - 1 {
        assert(t.drop_last() =~= s.drop_last());
        assert(t.last() == x);
        assert(t.filter(p) == t.drop_last().filter(p));
        assert(s.filter(p) == s.drop_last().filter(p));
    } else {
        assert(t.drop_last() =~= s.drop_last().update(k, x));
        assert(t.last() == s.last());
        lemma_filter_update_nonmatching(s.drop_last(), k, x, p);
        assert(t.filter(p) == if p(t.last()) {
            t.drop_last().filter(p).push(t.last())
        } else {
            t.drop_last().filter(p)
        });
        assert(s.filter(p) == if p(s.last()) {
            s.drop_last().filter(p).push(s.last())
        } else {
            s.drop_last().filter(p)
        });
    }
}

proof fn lemma_filter_remove_nonmatching<A>(s: Seq<A>, k: int, p: spec_fn(A) -> bool)
    requires
        0 <= k < s.len(),
        !p(s[k]),
    ensures
        s.remove(k).filter(p) == s.filter(p),
    decreases s.len(),
{
    reveal(Seq::filter);
    let t = s.remove(k);
    if k == s.len() - 1 {
        assert(t =~= s.drop_last());
    } else {
        assert(t.drop_last() =~= s.drop_last().remove(k));
        assert(t.last() == s.last());
        lemma_filter_remove_nonmatching(s.drop_last(), k, p);
    }
}

/// Every element of a filtered sequence is an element of the original one.
proof fn lemma_filter_is_subset<A>(s: Seq<A>, q: spec_fn(A) -> bool)
    ensures
        forall|k: int| 0 <= k < s.filter(q).len() ==> #[trigger] s.contains(s.filter(q)[k]),
    decreases s.len(),
{
    reveal(Seq::filter);
    if s.len() == 0 {
    } else {
        let dl = s.drop_last();
        lemma_filter_is_subset(dl, q);
        assert forall|k: int| 0 <= k < s.filter(q).len() implies #[trigger] s.contains(
            s.filter(q)[k],
        ) by {
            let f = s.filter(q);
            if q(s.last()) {
                assert(f == dl.filter(q).push(s.last()));
                if k < f.len() - 1 {
                    assert(f[k] == dl.filter(q)[k]);
                    assert(dl.contains(dl.filter(q)[k]));
                    let j = choose|j: int| 0 <= j < dl.len() && dl[j] == f[k];
                    assert(s[j] == f[k]);
                } else {
                    assert(f[k] == s.last());
                    assert(s[s.len() - 1] == s.last());
                }
            } else {
                assert(f == dl.filter(q));
                assert(dl.contains(dl.filter(q)[k]));
                let j = choose|j: int| 0 <= j < dl.len() && dl[j] == f[k];
                assert(s[j] == f[k]);
            }
        }
    }
}

/// Filtering by a condition at least as strong as an earlier filter skips
/// the earlier filter.
proof fn lemma_filter_subset_commute<A>(s: Seq<A>, q: spec_fn(A) -> bool, p: spec_fn(A) -> bool)
    requires
        forall|t: A| #[trigger] p(t) ==> q(t),
    ensures
        s.filter(q).filter(p) == s.filter(p),
    decreases s.len(),
{
    reveal(Seq::filter);
    if s.len() == 0 {
    } else {
        let dl = s.drop_last();
        lemma_filter_subset_commute(dl, q, p);
        if q(s.last()) {
            dl.filter(q).lemma_filter_push(s.last(), p);
        }
    }
}

proof fn lemma_filter_preserves_tx_exists(s: Seq<Transaction>, q: spec_fn(Transaction) -> bool, id: i64)
    requires
        transaction_exists(s.filter(q), id),
    ensures
        transaction_exists(s, id),
{
    lemma_filter_is_subset(s, q);
    let k = choose|k: int| 0 <= k < s.filter(q).len() && #[trigger] s.filter(q)[k].id == id;
    assert(s.contains(s.filter(q)[k]));
    let j = choose|j: int| 0 <= j < s.len() && s[j] == s.filter(q)[k];
    assert(s[j].id == id);
}

proof fn lemma_filter_distinct_tx_ids(s: Seq<Transaction>, q: spec_fn(Transaction) -> bool)
    requires
        distinct_tx_ids(s),
    ensures
        distinct_tx_ids(s.filter(q)),
    decreases s.len(),
{
    reveal(Seq::filter);
    if s.len() == 0 {
    } else {
        let dl = s.drop_last();
        assert(distinct_tx_ids(dl)) by {
            assert(forall|k: int| 0 <= k < dl.len() ==> dl[k] == s[k]);
        }
        lemma_filter_distinct_tx_ids(dl, q);
        if q(s.last()) {
            let f = dl.filter(q);
            assert forall|i: int, j: int|
                #![trigger f.push(s.last())[i], f.push(s.last())[j]]
                0 <= i < j < f.push(s.last()).len() implies f.push(s.last())[i].id != f.push(
                s.last(),
            )[j].id by {
                if j < f.len() {
                } else {
                    // the appended element's id is fresh with respect to dl
                    if f.push(s.last())[i].id == s.last().id {
                        lemma_filter_preserves_tx_exists(dl, q, s.last().id);
                        let m = choose|m: int| 0 <= m < dl.len() && #[trigger] dl[m].id == s.last().id;
                        assert(s[m].id == s[s.len() - 1].id);
                        assert(false);
                    }
                }
            }
        }
    }
}

/// What the legs of a paired transfer contribute to one account's
/// conditional sum: the transfer amount on the matching side, nothing
/// elsewhere.
proof fn lemma_leg_sum(txs: Seq<Transaction>, tr: Transfer, aid: i64, ty: TxType)
    requires
        transfer_paired(txs, tr),
        tr.from_account_id != tr.to_account_id,
    ensures
        crate::balance::sum_if(
            txs,
            crate::balance::conj(leg_of(tr.id), crate::balance::for_account(aid, ty)),
        ) == if (ty == TxType::Expense && aid == tr.from_account_id) || (ty == TxType::Income
            && aid == tr.to_account_id) {
            tr.amount as int
        } else {
            0
        },
{
    let c = crate::balance::conj(leg_of(tr.id), crate::balance::for_account(aid, ty));
    if ty == TxType::Expense && aid == tr.from_account_id {
        assert(forall|k: int|
            0 <= k < txs.len() ==> c(#[trigger] txs[k]) == expense_leg_of(tr)(txs[k]));
        crate::balance::lemma_sum_if_equiv_on(txs, c, expense_leg_of(tr));
        crate::balance::lemma_sum_if_filter(txs, expense_leg_of(tr), crate::balance::any_tx());
        assert(forall|k: int|
            0 <= k < txs.len() ==> crate::balance::conj(expense_leg_of(tr), crate::balance::any_tx())(
                #[trigger] txs[k],
            ) == expense_leg_of(tr)(txs[k]));
        crate::balance::lemma_sum_if_equiv_on(
            txs,
            crate::balance::conj(expense_leg_of(tr), crate::balance::any_tx()),
            expense_leg_of(tr),
        );
        let f = txs.filter(expense_leg_of(tr));
        assert(f.len() == 1);
        assert(f.drop_last().len() == 0);
        assert(crate::balance::sum_if(f.drop_last(), crate::balance::any_tx()) == 0);
        assert(crate::balance::any_tx()(f.last()));
        assert(crate::balance::sum_if(f, crate::balance::any_tx()) == f.last().amount as int);
        txs.lemma_filter_pred(expense_leg_of(tr), 0);
        assert(txs.filter(expense_leg_of(tr))[0].amount == tr.amount);
    } else if ty == TxType::Income && aid == tr.to_account_id {
        assert(forall|k: int|
            0 <= k < txs.len() ==> c(#[trigger] txs[k]) == income_leg_of(tr)(txs[k]));
        crate::balance::lemma_sum_if_equiv_on(txs, c, income_leg_of(tr));
        crate::balance::lemma_sum_if_filter(txs, income_leg_of(tr), crate::balance::any_tx());
        assert(forall|k: int|
            0 <= k < txs.len() ==> crate::balance::conj(income_leg_of(tr), crate::balance::any_tx())(
                #[trigger] txs[k],
            ) == income_leg_of(tr)(txs[k]));
        crate::balance::lemma_sum_if_equiv_on(
            txs,
            crate::balance::conj(income_leg_of(tr), crate::balance::any_tx()),
            income_leg_of(tr),
        );
        let f = txs.filter(income_leg_of(tr));
        assert(f.len() == 1);
        assert(f.drop_last().len() == 0);
        assert(crate::balance::sum_if(f.drop_last(), crate::balance::any_tx()) == 0);
        assert(crate::balance::any_tx()(f.last()));
        assert(crate::balance::sum_if(f, crate::balance::any_tx()) == f.last().amount as int);
        txs.lemma_filter_pred(income_leg_of(tr), 0);
        assert(txs.filter(income_leg_of(tr))[0].amount == tr.amount);
    } else {
        assert forall|k: int| 0 <= k < txs.len() implies !c(#[trigger] txs[k]) by {
            if c(txs[k]) {
                assert(txs[k].transfer_id == Some(tr.id));
                assert(is_expense_leg(txs[k], tr) || is_income_leg(txs[k], tr));
            }
        }
        crate::balance::lemma_sum_if_zero(txs, c);
    }
}

/// Deleting a paired transfer's legs reverses exactly the balance shifts
/// its creation made.
proof fn lemma_remove_legs_balance(txs: Seq<Transaction>, tr: Transfer, a: Account)
    requires
        transfer_paired(txs, tr),
        tr.from_account_id != tr.to_account_id,
    ensures
        balance_of(a, txs.filter(non_leg_of(tr.id))) == balance_of(a, txs)
            - crate::balance::balance_contribution(
            a,
            tr.from_account_id,
            TxType::Expense,
            tr.amount as int,
        ) - crate::balance::balance_contribution(
            a,
            tr.to_account_id,
            TxType::Income,
            tr.amount as int,
        ),
{
    let nl = non_leg_of(tr.id);
    let l = leg_of(tr.id);
    assert(forall|t: Transaction| #[trigger] nl(t) == !l(t));
    let pi = crate::balance::for_account(a.id, TxType::Income);
    let pe = crate::balance::for_account(a.id, TxType::Expense);
    crate::balance::lemma_sum_if_filter(txs, nl, pi);
    crate::balance::lemma_sum_if_filter(txs, nl, pe);
    crate::balance::lemma_sum_if_split(txs, pi, l, nl);
    crate::balance::lemma_sum_if_split(txs, pe, l, nl);
    lemma_leg_sum(txs, tr, a.id, TxType::Income);
    lemma_leg_sum(txs, tr, a.id, TxType::Expense);
}

proof fn lemma_push_preserves_transfer_exists(trs: Seq<Transfer>, t: Transfer, x: i64)
    requires
        transfer_exists(trs, x),
    ensures
        transfer_exists(trs.push(t), x),
{
    let k = choose|k: int| 0 <= k < trs.len() && #[trigger] trs[k].id == x;
    assert(trs.push(t)[k] == trs[k]);
}

proof fn lemma_remove_preserves_transfer_exists(trs: Seq<Transfer>, j: int, x: i64)
    requires
        transfer_exists(trs, x),
        0 <= j < trs.len(),
        trs[j].id != x,
    ensures
        transfer_exists(trs.remove(j), x),
{
    let k = choose|k: int| 0 <= k < trs.len() && #[trigger] trs[k].id == x;
    if k < j {
        assert(trs.remove(j)[k] == trs[k]);
    } else {
        assert(trs.remove(j)[k - 1] == trs[k]);
    }
}

// ---------------------------------------------------------------------------
// Field validation
// ---------------------------------------------------------------------------

/// The text of an optional label argument.
pub open spec fn opt_label(o: Option<&str>) -> Option<Seq<char>> {
    match o {
        Option::Some(s) => Option::Some(s@),
        Option::None => Option::None,
    }
}

/// The constraints on caller-supplied transaction fields: a known type
/// label, a non-negative amount within range, valid dates, and a known
/// frequency label when one is given.
pub open spec fn transaction_input_ok(
    tx_type: Seq<char>,
    amount: i64,
    date: Date,
    recurrence_frequency: Option<Seq<char>>,
    next_due_date: Option<Date>,
) -> bool {
    &&& crate::model::is_tx_type_label(tx_type)
    &&& 0 <= amount <= MAX_AMOUNT
    &&& valid_date(date)
    &&& (recurrence_frequency matches Some(f) ==> crate::model::is_frequency_label(f))
    &&& (next_due_date matches Some(d) ==> valid_date(d))
}

/// The parsed frequency of an optional label argument (meaningful only on
/// valid labels).
pub open spec fn parsed_frequency(o: Option<Seq<char>>) -> Option<Frequency> {
    match o {
        Option::Some(f) => Option::Some(crate::model::frequency_of_label(f)),
        Option::None => Option::None,
    }
}

/// The constraints on caller-supplied transfer fields: a positive amount
/// within range, a valid date, two different accounts, and a known transfer
/// type label when one is given.
pub open spec fn transfer_input_ok(
    from_account_id: i64,
    to_account_id: i64,
    amount: i64,
    date: Date,
    transfer_type: Option<Seq<char>>,
) -> bool {
    &&& 0 < amount <= MAX_AMOUNT
    &&& valid_date(date)
    &&& from_account_id != to_account_id
    &&& (transfer_type matches Some(s) ==> crate::model::is_transfer_type_label(s))
}

/// The parsed transfer type of an optional label argument, `Regular` when
/// none is given (meaningful only on valid labels).
pub open spec fn parsed_transfer_type(o: Option<Seq<char>>) -> TransferType {
    match o {
        Option::Some(s) => crate::model::transfer_type_of_label(s),
        Option::None => TransferType::Regular,
    }
}

/// The constraints on caller-supplied account fields, given the account
/// type: amounts within range, day-of-month fields plausible, and the
/// credit-only fields absent on other account types.
pub open spec fn account_fields_ok(
    t: AccountType,
    opening_balance: i64,
    credit_limit: Option<i64>,
    billing_cycle_day: Option<i64>,
    payment_due_day: Option<i64>,
) -> bool {
    &&& -MAX_AMOUNT <= opening_balance <= MAX_AMOUNT
    &&& (credit_limit matches Some(l) ==> 0 <= l <= MAX_AMOUNT && t == AccountType::Credit)
    &&& (billing_cycle_day matches Some(d) ==> 1 <= d <= 31 && t == AccountType::Credit)
    &&& (payment_due_day matches Some(d) ==> 1 <= d <= 31 && t == AccountType::Credit)
}

/// A whole valid account-creation input: a known account-type label and
/// fields that fit it.
pub open spec fn account_input_ok(
    label: Seq<char>,
    opening_balance: i64,
    credit_limit: Option<i64>,
    billing_cycle_day: Option<i64>,
    payment_due_day: Option<i64>,
) -> bool {
    &&& crate::model::is_account_type_label(label)
    &&& account_fields_ok(
        crate::model::account_type_of_label(label),
        opening_balance,
        credit_limit,
        billing_cycle_day,
        payment_due_day,
    )
}

fn check_account_fields(
    t: AccountType,
    opening_balance: i64,
    credit_limit: &Option<i64>,
    billing_cycle_day: &Option<i64>,
    payment_due_day: &Option<i64>,
) -> (r: bool)
    ensures
        r == account_fields_ok(
            t,
            opening_balance,
            *credit_limit,
            *billing_cycle_day,
            *payment_due_day,
        ),
{
    let mut ok = -MAX_AMOUNT <= opening_balance && opening_balance <= MAX_AMOUNT;
    match credit_limit {
        Some(l) => {
            ok = ok && 0 <= *l && *l <= MAX_AMOUNT && matches!(t, AccountType::Credit);
        },
        None => {},
    }
    match billing_cycle_day {
        Some(d) => {
            ok = ok && 1 <= *d && *d <= 31 && matches!(t, AccountType::Credit);
        },
        None => {},
    }
    match payment_due_day {
        Some(d) => {
            ok = ok && 1 <= *d && *d <= 31 && matches!(t, AccountType::Credit);
        },
        None => {},
    }
    ok
}

// ---------------------------------------------------------------------------
// Existence lemmas
// ---------------------------------------------------------------------------

proof fn lemma_push_preserves_category_exists(cats: Seq<Category>, c: Category, x: i64)
    requires
        category_exists(cats, x),
    ensures
        category_exists(cats.push(c), x),
{
    let k = choose|k: int| 0 <= k < cats.len() && #[trigger] cats[k].id == x;
    assert(cats.push(c)[k] == cats[k]);
}

proof fn lemma_same_ids_preserve_category_exists(old_c: Seq<Category>, new_c: Seq<Category>, x: i64)
    requires
        category_exists(old_c, x),
        new_c.len() == old_c.len(),
        forall|j: int| 0 <= j < new_c.len() ==> (#[trigger] new_c[j]).id == old_c[j].id,
    ensures
        category_exists(new_c, x),
{
    let k = choose|k: int| 0 <= k < old_c.len() && #[trigger] old_c[k].id == x;
    assert(new_c[k].id == x);
}

proof fn lemma_push_preserves_account_exists(accs: Seq<Account>, a: Account, x: i64)
    requires
        account_exists(accs, x),
    ensures
        account_exists(accs.push(a), x),
{
    let k = choose|k: int| 0 <= k < accs.len() && #[trigger] accs[k].id == x;
    assert(accs.push(a)[k] == accs[k]);
}

proof fn lemma_same_ids_preserve_account_exists(old_a: Seq<Account>, new_a: Seq<Account>, x: i64)
    requires
        account_exists(old_a, x),
        new_a.len() == old_a.len(),
        forall|j: int| 0 <= j < new_a.len() ==> (#[trigger] new_a[j]).id == old_a[j].id,
    ensures
        account_exists(new_a, x),
{
    let k = choose|k: int| 0 <= k < old_a.len() && #[trigger] old_a[k].id == x;
    assert(new_a[k].id == x);
}

// ---------------------------------------------------------------------------
// Default categories
// ---------------------------------------------------------------------------

/// One stored category holds the given data.
pub open spec fn cat_is(
    c: Category,
    id: int,
    name: Seq<char>,
    direction: Direction,
    icon: Seq<char>,
    now: Seq<char>,
) -> bool {
    &&& c.id == id
    &&& c.name@ == name
    &&& c.direction == direction
    &&& (c.icon matches Some(s) && s@ == icon)
    &&& !c.is_archived
    &&& c.created_at@ == now
}

/// The fixed first-run category set: four income categories followed by
/// nine expense categories, with consecutive ids starting at `first_id`.
pub open spec fn seeded_categories(cats: Seq<Category>, first_id: int, now: Seq<char>) -> bool {
    &&& cats.len() == 13
    &&& cat_is(cats[0], first_id + 0, "Salary"@, Direction::Income, "\u{1F4BC}"@, now)
    &&& cat_is(cats[1], first_id + 1, "Freelance"@, Direction::Income, "\u{1F4BB}"@, now)
    &&& cat_is(cats[2], first_id + 2, "Investments"@, Direction::Income, "\u{1F4C8}"@, now)
    &&& cat_is(cats[3], first_id + 3, "Other Income"@, Direction::Income, "\u{1F4B0}"@, now)
    &&& cat_is(cats[4], first_id + 4, "Food & Dining"@, Direction::Expense, "\u{1F37D}\u{FE0F}"@, now)
    &&& cat_is(cats[5], first_id + 5, "Transportation"@, Direction::Expense, "\u{1F697}"@, now)
    &&& cat_is(cats[6], first_id + 6, "Shopping"@, Direction::Expense, "\u{1F6CD}\u{FE0F}"@, now)
    &&& cat_is(cats[7], first_id + 7, "Utilities"@, Direction::Expense, "\u{1F4A1}"@, now)
    &&& cat_is(cats[8], first_id + 8, "Entertainment"@, Direction::Expense, "\u{1F3AC}"@, now)
    &&& cat_is(cats[9], first_id + 9, "Health"@, Direction::Expense, "\u{1F3E5}"@, now)
    &&& cat_is(cats[10], first_id + 10, "Education"@, Direction::Expense, "\u{1F4DA}"@, now)
    &&& cat_is(cats[11], first_id + 11, "Housing"@, Direction::Expense, "\u{1F3E0}"@, now)
    &&& cat_is(cats[12], first_id + 12, "Other Expense"@, Direction::Expense, "\u{1F4B8}"@, now)
}

fn push_category_row(
    v: &mut Vec<Category>,
    id: i64,
    name: &str,
    direction: Direction,
    icon: &str,
    now: &str,
)
    ensures
        final(v)@.len() == old(v)@.len() + 1,
        final(v)@.drop_last() == old(v)@,
        cat_is(final(v)@.last(), id as int, name@, direction, icon@, now@),
{
    v.push(
        Category {
            id,
            name: name.to_owned(),
            direction,
            icon: Some(icon.to_owned()),
            is_archived: false,
            created_at: now.to_owned(),
        },
    );
    proof {
        assert(v@.drop_last() =~= old(v)@);
    }
}

// ---------------------------------------------------------------------------
// The ledger
// ---------------------------------------------------------------------------

/// The in-memory ledger state: the four entity tables and their id
/// counters. Every operation requires and preserves [`Ledger::wf`].
pub struct Ledger {
    pub accounts: Vec<Account>,
    pub categories: Vec<Category>,
    pub transactions: Vec<Transaction>,
    pub transfers: Vec<Transfer>,
    pub next_account_id: i64,
    pub next_category_id: i64,
    pub next_transaction_id: i64,
    pub next_transfer_id: i64,
}

impl Ledger {
    /// Well-formedness: field constraints on every row, unique ids below
    /// the counters, referential integrity, and every transfer paired with
    /// exactly its two legs.
    pub open spec fn wf(self) -> bool {
        &&& 1 <= self.next_account_id
        &&& 1 <= self.next_category_id
        &&& 1 <= self.next_transaction_id
        &&& 1 <= self.next_transfer_id
        &&& forall|k: int|
            0 <= k < self.accounts@.len() ==> {
                &&& valid_account(#[trigger] self.accounts@[k])
                &&& 1 <= self.accounts@[k].id < self.next_account_id
            }
        &&& distinct_account_ids(self.accounts@)
        &&& forall|k: int|
            0 <= k < self.categories@.len() ==> 1 <= (#[trigger] self.categories@[k]).id
                < self.next_category_id
        &&& distinct_category_ids(self.categories@)
        &&& forall|k: int|
            0 <= k < self.transfers@.len() ==> {
                &&& valid_transfer(#[trigger] self.transfers@[k])
                &&& 1 <= self.transfers@[k].id < self.next_transfer_id
                &&& account_exists(self.accounts@, self.transfers@[k].from_account_id)
                &&& account_exists(self.accounts@, self.transfers@[k].to_account_id)
            }
        &&& distinct_transfer_ids(self.transfers@)
        &&& forall|k: int|
            0 <= k < self.transactions@.len() ==> {
                &&& valid_transaction(#[trigger] self.transactions@[k])
                &&& 1 <= self.transactions@[k].id < self.next_transaction_id
                &&& account_exists(self.accounts@, self.transactions@[k].account_id)
                &&& (self.transactions@[k].category_id matches Some(c) ==> category_exists(
                    self.categories@,
                    c,
                ))
                &&& (self.transactions@[k].transfer_id matches Some(t) ==> transfer_exists(
                    self.transfers@,
                    t,
                ))
            }
        &&& distinct_tx_ids(self.transactions@)
        &&& forall|j: int|
            0 <= j < self.transfers@.len() ==> transfer_paired(
                self.transactions@,
                #[trigger] self.transfers@[j],
            )
    }

    /// A fresh, empty ledger.
    pub fn new() -> (r: Ledger)
        ensures
            r.wf(),
            r.accounts@ == Seq::<Account>::empty(),
            r.categories@ == Seq::<Category>::empty(),
            r.transactions@ == Seq::<Transaction>::empty(),
            r.transfers@ == Seq::<Transfer>::empty(),
            r.next_account_id == 1 && r.next_category_id == 1 && r.next_transaction_id == 1
                && r.next_transfer_id == 1,
    {
        let r = Ledger {
            accounts: Vec::new(),
            categories: Vec::new(),
            transactions: Vec::new(),
            transfers: Vec::new(),
            next_account_id: 1,
            next_category_id: 1,
            next_transaction_id: 1,
            next_transfer_id: 1,
        };
        proof {
            assert(r.accounts@ =~= Seq::<Account>::empty());
            assert(r.categories@ =~= Seq::<Category>::empty());
            assert(r.transactions@ =~= Seq::<Transaction>::empty());
            assert(r.transfers@ =~= Seq::<Transfer>::empty());
        }
        r
    }

    /// The index of the account with the given id.
    pub(crate) fn find_account(&self, id: i64) -> (r: Option<usize>)
        ensures
            match r {
                Some(k) => k < self.accounts@.len() && self.accounts@[k as int].id == id,
                None => !account_exists(self.accounts@, id),
            },
    {
        let mut i: usize = 0;
        while i < self.accounts.len()
            invariant
                0 <= i <= self.accounts@.len(),
                forall|k: int| 0 <= k < i ==> (#[trigger] self.accounts@[k]).id != id,
            decreases self.accounts@.len() - i,
        {
            if self.accounts[i].id == id {
                return Some(i);
            }
            i = i + 1;
        }
        None
    }

    /// The index of the category with the given id.
    pub(crate) fn find_category(&self, id: i64) -> (r: Option<usize>)
        ensures
            match r {
                Some(k) => k < self.categories@.len() && self.categories@[k as int].id == id,
                None => !category_exists(self.categories@, id),
            },
    {
        let mut i: usize = 0;
        while i < self.categories.len()
            invariant
                0 <= i <= self.categories@.len(),
                forall|k: int| 0 <= k < i ==> (#[trigger] self.categories@[k]).id != id,
            decreases self.categories@.len() - i,
        {
            if self.categories[i].id == id {
                return Some(i);
            }
            i = i + 1;
        }
        None
    }

    /// The index of the transfer with the given id.
    pub(crate) fn find_transfer(&self, id: i64) -> (r: Option<usize>)
        ensures
            match r {
                Some(k) => k < self.transfers@.len() && self.transfers@[k as int].id == id,
                None => !transfer_exists(self.transfers@, id),
            },
    {
        let mut i: usize = 0;
        while i < self.transfers.len()
            invariant
                0 <= i <= self.transfers@.len(),
                forall|k: int| 0 <= k < i ==> (#[trigger] self.transfers@[k]).id != id,
            decreases self.transfers@.len() - i,
        {
            if self.transfers[i].id == id {
                return Some(i);
            }
            i = i + 1;
        }
        None
    }

    /// The index of the transaction with the given id.
    pub(crate) fn find_transaction(&self, id: i64) -> (r: Option<usize>)
        ensures
            match r {
                Some(k) => k < self.transactions@.len() && self.transactions@[k as int].id == id,
                None => !transaction_exists(self.transactions@, id),
            },
    {
        let mut i: usize = 0;
        while i < self.transactions.len()
            invariant
                0 <= i <= self.transactions@.len(),
                forall|k: int| 0 <= k < i ==> (#[trigger] self.transactions@[k]).id != id,
            decreases self.transactions@.len() - i,
        {
            if self.transactions[i].id == id {
                return Some(i);
            }
            i = i + 1;
        }
        None
    }

    /// Builds the handed-out copy of one stored account, with its balance.
    pub(crate) fn account_with_balance_at(&self, k: usize) -> (r: AccountWithBalance)
        requires
            self.wf(),
            k < self.accounts@.len(),
        ensures
            reflects_account(
                r,
                self.accounts@[k as int],
                balance_of(self.accounts@[k as int], self.transactions@),
            ),
    {
        let a = &self.accounts[k];
        let balance = compute_balance(a, &self.transactions);
        AccountWithBalance {
            id: a.id,
            name: a.name.clone(),
            account_type: a.account_type,
            subtype: a.subtype.clone(),
            currency: a.currency.clone(),
            opening_balance: a.opening_balance,
            credit_limit: a.credit_limit,
            billing_cycle_day: a.billing_cycle_day,
            payment_due_day: a.payment_due_day,
            is_active: a.is_active,
            created_at: a.created_at.clone(),
            updated_at: a.updated_at.clone(),
            balance,
        }
    }

    /// Builds the listed accounts, ascending by name, each with its
    /// derived balance; covers every account, or the active ones only.
    #[verifier::loop_isolation(false)]
    pub(crate) fn accounts_with_balances(&self, only_active: bool) -> (r: Vec<AccountWithBalance>)
        requires
            self.wf(),
        ensures
            ({
                let sorted = sort_ord(
                    shown_accounts(self.accounts@, only_active),
                    account_order(),
                );
                &&& r@.len() == sorted.len()
                &&& forall|k: int|
                    0 <= k < r@.len() ==> reflects_account(
                        #[trigger] r@[k],
                        sorted[k],
                        balance_of(sorted[k], self.transactions@),
                    )
            }),
    {
        let ghost accs = self.accounts@;
        let ghost order = account_order();
        let mut out: Vec<AccountWithBalance> = Vec::new();
        let ghost mut sout: Seq<Account> = Seq::<Account>::empty();
        proof {
            lemma_account_order_strict();
            assert(shown_accounts(accs.take(0), only_active) =~= Seq::<Account>::empty());
        }
        let mut i: usize = 0;
        while i < self.accounts.len()
            invariant
                0 <= i <= accs.len(),
                sout == sort_ord(shown_accounts(accs.take(i as int), only_active), order),
                sorted_ord(sout, order),
                out@.len() == sout.len(),
                forall|k: int|
                    0 <= k < sout.len() ==> reflects_account(
                        #[trigger] out@[k],
                        sout[k],
                        balance_of(sout[k], self.transactions@),
                    ),
            decreases accs.len() - i,
        {
            proof {
                assert(accs.take(i + 1) =~= accs.take(i as int).push(accs[i as int]));
                if only_active {
                    accs.take(i as int).lemma_filter_push(accs[i as int], active_account_fn());
                } else {
                    assert(shown_accounts(accs.take(i + 1), only_active) == accs.take(i + 1));
                }
            }
            if !only_active || self.accounts[i].is_active {
                let w = self.account_with_balance_at(i);
                let ghost xs = accs[i as int];
                let mut j: usize = 0;
                while j < out.len() && !str_lt_x(w.name.as_str(), out[j].name.as_str())
                    invariant
                        0 <= j <= out@.len(),
                        forall|q: int| 0 <= q < j ==> !order(xs, #[trigger] sout[q]),
                    decreases out@.len() - j,
                {
                    proof {
                        assert(reflects_account(
                            out@[j as int],
                            sout[j as int],
                            balance_of(sout[j as int], self.transactions@),
                        ));
                        assert(out@[j as int].name@ == sout[j as int].name@);
                        assert(w.name@ == xs.name@);
                    }
                    j = j + 1;
                }
                proof {
                    assert(w.name@ == xs.name@);
                    if j < out@.len() {
                        assert(reflects_account(
                            out@[j as int],
                            sout[j as int],
                            balance_of(sout[j as int], self.transactions@),
                        ));
                        assert(out@[j as int].name@ == sout[j as int].name@);
                        assert(order(xs, sout[j as int]));
                    }
                    lemma_insert_ord_at(sout, xs, order, j as int);
                    lemma_insert_ord_sorted(sout, xs, order);
                    lemma_insert_ord_len(sout, xs, order);
                }
                let ghost old_out = out@;
                let ghost old_sout = sout;
                out.insert(j, w);
                proof {
                    sout = insert_ord(old_sout, xs, order);
                    let shown_next = shown_accounts(accs.take(i + 1), only_active);
                    let shown_prev = shown_accounts(accs.take(i as int), only_active);
                    assert(shown_next == shown_prev.push(xs));
                    assert(shown_next.drop_last() =~= shown_prev);
                    assert(shown_next.last() == xs);
                    assert(sort_ord(shown_next, order) == insert_ord(
                        sort_ord(shown_prev, order),
                        xs,
                        order,
                    ));
                    assert(sout =~= old_sout.take(j as int) + seq![xs] + old_sout.skip(j as int));
                    assert(out@ =~= old_out.take(j as int) + seq![w] + old_out.skip(j as int)) by {
                        assert(out@ == old_out.insert(j as int, w));
                        assert(old_out.insert(j as int, w) =~= old_out.take(j as int) + seq![w]
                            + old_out.skip(j as int));
                    }
                    assert forall|k: int|
                        0 <= k < sout.len() implies reflects_account(
                        #[trigger] out@[k],
                        sout[k],
                        balance_of(sout[k], self.transactions@),
                    ) by {
                        if k < j as int {
                            assert(out@[k] == old_out[k]);
                            assert(sout[k] == old_sout[k]);
                        } else if k == j as int {
                            assert(out@[k] == w);
                            assert(sout[k] == xs);
                        } else {
                            assert(out@[k] == old_out[k - 1]);
                            assert(sout[k] == old_sout[k - 1]);
                        }
                    }
                }
            }
            i = i + 1;
        }
        proof {
            assert(accs.take(accs.len() as int) =~= accs);
        }
        out
    }

    /// Lists every account, archived ones included, ascending by name,
    /// each with its derived balance.
    pub fn list_accounts(&self) -> (r: Vec<AccountWithBalance>)
        requires
            self.wf(),
        ensures
            r@.len() == self.accounts@.len(),
            ({
                let sorted = sort_ord(self.accounts@, account_order());
                forall|k: int|
                    0 <= k < r@.len() ==> reflects_account(
                        #[trigger] r@[k],
                        sorted[k],
                        balance_of(sorted[k], self.transactions@),
                    )
            }),
            forall|i: int, j: int|
                #![trigger r@[i], r@[j]]
                0 <= i < j < r@.len() ==> !str_lt(r@[j].name@, r@[i].name@),
    {
        let r = self.accounts_with_balances(false);
        proof {
            lemma_account_order_strict();
            lemma_sort_ord_sorted(self.accounts@, account_order());
            let sorted = sort_ord(self.accounts@, account_order());
            assert forall|i: int, j: int|
                #![trigger r@[i], r@[j]]
                0 <= i < j < r@.len() implies !str_lt(r@[j].name@, r@[i].name@) by {
                assert(reflects_account(r@[i], sorted[i], balance_of(sorted[i], self.transactions@)));
                assert(reflects_account(r@[j], sorted[j], balance_of(sorted[j], self.transactions@)));
                assert(!(account_order()(sorted[j], sorted[i])));
            }
        }
        r
    }

    /// Fetches one account with its derived balance; `NotFound` exactly when
    /// no account carries the id.
    pub fn get_account(&self, id: i64) -> (r: Result<AccountWithBalance, LedgerError>)
        requires
            self.wf(),
        ensures
            r is Ok <==> account_exists(self.accounts@, id),
            r matches Ok(w) ==> exists|k: int|
                0 <= k < self.accounts@.len() && (#[trigger] self.accounts@[k]).id == id
                    && reflects_account(
                    w,
                    self.accounts@[k],
                    balance_of(self.accounts@[k], self.transactions@),
                ),
            r matches Err(e) ==> e == LedgerError::NotFound,
    {
        match self.find_account(id) {
            Some(k) => Ok(self.account_with_balance_at(k)),
            None => Err(LedgerError::NotFound),
        }
    }

    /// Net worth over the stored accounts: active accounts only, asset
    /// balances added, credit balances subtracted.
    pub fn net_worth(&self) -> (r: i128)
        requires
            self.wf(),
        ensures
            r == net_worth_of(self.accounts@, self.transactions@),
    {
        net_worth(&self.accounts, &self.transactions)
    }

    /// Creates an account. The account type must be a known label and the
    /// fields must fit it; the new account starts active, with the default
    /// currency, and its balance is derived as usual (so it equals the
    /// opening balance, or zero for a credit account).
    pub fn create_account(
        &mut self,
        name: String,
        account_type: &str,
        subtype: Option<String>,
        opening_balance: i64,
        credit_limit: Option<i64>,
        billing_cycle_day: Option<i64>,
        payment_due_day: Option<i64>,
        now: String,
    ) -> (r: Result<AccountWithBalance, LedgerError>)
        requires
            old(self).wf(),
        ensures
            final(self).wf(),
            r is Ok <==> account_input_ok(
                account_type@,
                opening_balance,
                credit_limit,
                billing_cycle_day,
                payment_due_day,
            ) && old(self).next_account_id < i64::MAX,
            r matches Err(e) ==> *final(self) == *old(self) && ((e == LedgerError::Validation
                && !account_input_ok(
                account_type@,
                opening_balance,
                credit_limit,
                billing_cycle_day,
                payment_due_day,
            )) || (e == LedgerError::Storage && account_input_ok(
                account_type@,
                opening_balance,
                credit_limit,
                billing_cycle_day,
                payment_due_day,
            ) && old(self).next_account_id == i64::MAX)),
            r is Ok ==> final(self).accounts@ == old(self).accounts@.push(
                (Account {
                    id: old(self).next_account_id,
                    name: name,
                    account_type: crate::model::account_type_of_label(account_type@),
                    subtype: subtype,
                    currency: final(self).accounts@.last().currency,
                    opening_balance: opening_balance,
                    credit_limit: credit_limit,
                    billing_cycle_day: billing_cycle_day,
                    payment_due_day: payment_due_day,
                    is_active: true,
                    created_at: now,
                    updated_at: final(self).accounts@.last().updated_at,
                }),
            ) && final(self).accounts@.last().currency@ == "PHP"@
                && final(self).accounts@.last().updated_at@ == now@,
            r is Ok ==> final(self).next_account_id == old(self).next_account_id + 1 && final(self).categories@ == old(self).categories@ && final(self).transactions@ == old(self).transactions@ && final(self).transfers@ == old(self).transfers@ && final(self).next_category_id == old(self).next_category_id && final(self).next_transaction_id
                == old(self).next_transaction_id && final(self).next_transfer_id == old(self).next_transfer_id,
            r matches Ok(w) ==> reflects_account(
                w,
                final(self).accounts@.last(),
                if crate::model::account_type_of_label(account_type@) == AccountType::Credit {
                    0int
                } else {
                    opening_balance as int
                },
            ) && balance_of(final(self).accounts@.last(), final(self).transactions@) == w.balance,
    {
        let parsed = AccountType::parse(account_type);
        let t = match parsed {
            Ok(t) => t,
            Err(e) => {
                return Err(e);
            },
        };
        if !check_account_fields(t, opening_balance, &credit_limit, &billing_cycle_day, &payment_due_day) {
            return Err(LedgerError::Validation);
        }
        if self.next_account_id == i64::MAX {
            return Err(LedgerError::Storage);
        }
        let id = self.next_account_id;
        let a = Account {
            id,
            name,
            account_type: t,
            subtype,
            currency: "PHP".to_owned(),
            opening_balance,
            credit_limit,
            billing_cycle_day,
            payment_due_day,
            is_active: true,
            created_at: now.clone(),
            updated_at: now,
        };
        proof {
            // no transaction can reference the fresh id, so both sums are zero
            assert forall|k: int|
                0 <= k < self.transactions@.len() implies (#[trigger] self.transactions@[k]).account_id
                != id by {
                let j = choose|j: int|
                    0 <= j < self.accounts@.len() && #[trigger] self.accounts@[j].id
                        == self.transactions@[k].account_id;
                assert(self.accounts@[j].id < self.next_account_id);
            }
            assert forall|k: int|
                0 <= k < self.transactions@.len() implies !(crate::balance::for_account(
                id,
                TxType::Income,
            )(#[trigger] self.transactions@[k])) by {}
            assert forall|k: int|
                0 <= k < self.transactions@.len() implies !(crate::balance::for_account(
                id,
                TxType::Expense,
            )(#[trigger] self.transactions@[k])) by {}
            crate::balance::lemma_sum_if_zero(
                self.transactions@,
                crate::balance::for_account(id, TxType::Income),
            );
            crate::balance::lemma_sum_if_zero(
                self.transactions@,
                crate::balance::for_account(id, TxType::Expense),
            );
        }
        let w = AccountWithBalance {
            id: a.id,
            name: a.name.clone(),
            account_type: a.account_type,
            subtype: a.subtype.clone(),
            currency: a.currency.clone(),
            opening_balance: a.opening_balance,
            credit_limit: a.credit_limit,
            billing_cycle_day: a.billing_cycle_day,
            payment_due_day: a.payment_due_day,
            is_active: a.is_active,
            created_at: a.created_at.clone(),
            updated_at: a.updated_at.clone(),
            balance: if matches!(t, AccountType::Credit) {
                0
            } else {
                opening_balance as i128
            },
        };
        let ghost old_accounts = self.accounts@;
        self.accounts.push(a);
        self.next_account_id = id + 1;
        proof {
            assert(self.accounts@.drop_last() =~= old_accounts);
            assert forall|j: int|
                0 <= j < self.transfers@.len() implies account_exists(
                self.accounts@,
                (#[trigger] self.transfers@[j]).from_account_id,
            ) && account_exists(self.accounts@, self.transfers@[j].to_account_id) by {
                lemma_push_preserves_account_exists(
                    old_accounts,
                    self.accounts@.last(),
                    self.transfers@[j].from_account_id,
                );
                lemma_push_preserves_account_exists(
                    old_accounts,
                    self.accounts@.last(),
                    self.transfers@[j].to_account_id,
                );
            }
            assert forall|k: int|
                0 <= k < self.transactions@.len() implies account_exists(
                self.accounts@,
                (#[trigger] self.transactions@[k]).account_id,
            ) by {
                lemma_push_preserves_account_exists(
                    old_accounts,
                    self.accounts@.last(),
                    self.transactions@[k].account_id,
                );
            }
        }
        Ok(w)
    }

    /// Updates an account's caller-editable fields. The account type is
    /// fixed at creation: supplying a different type label is a validation
    /// error. Everything else about the stored account, including its
    /// activity flag and creation time, is unchanged.
    pub fn update_account(
        &mut self,
        id: i64,
        name: String,
        account_type: &str,
        subtype: Option<String>,
        opening_balance: i64,
        credit_limit: Option<i64>,
        billing_cycle_day: Option<i64>,
        payment_due_day: Option<i64>,
        now: String,
    ) -> (r: Result<AccountWithBalance, LedgerError>)
        requires
            old(self).wf(),
        ensures
            final(self).wf(),
            r is Ok <==> account_exists(old(self).accounts@, id)
                && crate::model::is_account_type_label(account_type@)
                && crate::model::account_type_of_label(account_type@) == account_by_id(
                old(self).accounts@,
                id,
            ).account_type && account_fields_ok(
                account_by_id(old(self).accounts@, id).account_type,
                opening_balance,
                credit_limit,
                billing_cycle_day,
                payment_due_day,
            ),
            !account_exists(old(self).accounts@, id) ==> r == Err::<
                AccountWithBalance,
                LedgerError,
            >(LedgerError::NotFound) && *final(self) == *old(self),
            r matches Err(e) ==> *final(self) == *old(self) && (e == LedgerError::NotFound
                || e == LedgerError::Validation),
            r matches Err(e) && e == LedgerError::NotFound ==> !account_exists(
                old(self).accounts@,
                id,
            ),
            r matches Err(e) && e == LedgerError::Validation ==> account_exists(
                old(self).accounts@,
                id,
            ),
            r is Ok ==> exists|k: int|
                {
                    &&& 0 <= k < old(self).accounts@.len()
                    &&& (#[trigger] old(self).accounts@[k]).id == id
                    &&& crate::model::is_account_type_label(account_type@)
                    &&& crate::model::account_type_of_label(account_type@) == old(self).accounts@[k].account_type
                    &&& account_fields_ok(
                        old(self).accounts@[k].account_type,
                        opening_balance,
                        credit_limit,
                        billing_cycle_day,
                        payment_due_day,
                    )
                    &&& final(self).accounts@ == old(self).accounts@.update(
                        k,
                        (Account {
                            id: id,
                            name: name,
                            account_type: old(self).accounts@[k].account_type,
                            subtype: subtype,
                            currency: old(self).accounts@[k].currency,
                            opening_balance: opening_balance,
                            credit_limit: credit_limit,
                            billing_cycle_day: billing_cycle_day,
                            payment_due_day: payment_due_day,
                            is_active: old(self).accounts@[k].is_active,
                            created_at: old(self).accounts@[k].created_at,
                            updated_at: now,
                        }),
                    )
                },
            r is Ok ==> account_exists(old(self).accounts@, id) && final(self).categories@ == old(self).categories@ && final(self).transactions@ == old(self).transactions@ && final(self).transfers@ == old(self).transfers@ && final(self).next_account_id == old(self).next_account_id && final(self).next_category_id == old(self).next_category_id
                && final(self).next_transaction_id == old(self).next_transaction_id && final(self).next_transfer_id == old(self).next_transfer_id,
            r matches Ok(w) ==> exists|k: int|
                0 <= k < final(self).accounts@.len() && (#[trigger] final(self).accounts@[k]).id
                    == id && reflects_account(
                    w,
                    final(self).accounts@[k],
                    balance_of(final(self).accounts@[k], final(self).transactions@),
                ),
    {
        let k = match self.find_account(id) {
            Some(k) => k,
            None => {
                return Err(LedgerError::NotFound);
            },
        };
        proof {
            lemma_account_by_id_index(self.accounts@, k as int);
        }
        let t = match AccountType::parse(account_type) {
            Ok(t) => t,
            Err(e) => {
                return Err(e);
            },
        };
        if !matches!((t, self.accounts[k].account_type),
            (AccountType::Cash, AccountType::Cash)
            | (AccountType::Debit, AccountType::Debit)
            | (AccountType::Credit, AccountType::Credit)
            | (AccountType::Savings, AccountType::Savings)
            | (AccountType::Investment, AccountType::Investment)) {
            return Err(LedgerError::Validation);
        }
        if !check_account_fields(t, opening_balance, &credit_limit, &billing_cycle_day, &payment_due_day) {
            return Err(LedgerError::Validation);
        }
        let ghost old_accounts = self.accounts@;
        let mut a = self.accounts.remove(k);
        a.name = name;
        a.subtype = subtype;
        a.opening_balance = opening_balance;
        a.credit_limit = credit_limit;
        a.billing_cycle_day = billing_cycle_day;
        a.payment_due_day = payment_due_day;
        a.updated_at = now;
        self.accounts.insert(k, a);
        proof {
            assert(self.accounts@ =~= old_accounts.update(
                k as int,
                self.accounts@[k as int],
            ));
            assert(forall|j: int|
                0 <= j < self.accounts@.len() ==> (#[trigger] self.accounts@[j]).id
                    == old_accounts[j].id);
            assert forall|j: int|
                0 <= j < self.transfers@.len() implies account_exists(
                self.accounts@,
                (#[trigger] self.transfers@[j]).from_account_id,
            ) && account_exists(self.accounts@, self.transfers@[j].to_account_id) by {
                lemma_same_ids_preserve_account_exists(
                    old_accounts,
                    self.accounts@,
                    self.transfers@[j].from_account_id,
                );
                lemma_same_ids_preserve_account_exists(
                    old_accounts,
                    self.accounts@,
                    self.transfers@[j].to_account_id,
                );
            }
            assert forall|kk: int|
                0 <= kk < self.transactions@.len() implies account_exists(
                self.accounts@,
                (#[trigger] self.transactions@[kk]).account_id,
            ) by {
                lemma_same_ids_preserve_account_exists(
                    old_accounts,
                    self.accounts@,
                    self.transactions@[kk].account_id,
                );
            }
        }
        Ok(self.account_with_balance_at(k))
    }

    /// Archives an account: a soft delete. Only the activity flag and the
    /// update time change; every transaction referencing the account is
    /// untouched.
    pub fn archive_account(&mut self, id: i64, now: String) -> (r: Result<(), LedgerError>)
        requires
            old(self).wf(),
        ensures
            final(self).wf(),
            r is Ok <==> account_exists(old(self).accounts@, id),
            r matches Err(e) ==> e == LedgerError::NotFound && *final(self) == *old(self),
            r is Ok ==> exists|k: int|
                {
                    &&& 0 <= k < old(self).accounts@.len()
                    &&& (#[trigger] old(self).accounts@[k]).id == id
                    &&& final(self).accounts@ == old(self).accounts@.update(
                        k,
                        (Account {
                            is_active: false,
                            updated_at: now,
                            ..old(self).accounts@[k]
                        }),
                    )
                },
            r is Ok ==> final(self).categories@ == old(self).categories@ && final(self).transactions@ == old(self).transactions@ && final(self).transfers@ == old(self).transfers@ && final(self).next_account_id == old(self).next_account_id && final(self).next_category_id == old(self).next_category_id && final(self).next_transaction_id
                == old(self).next_transaction_id && final(self).next_transfer_id == old(self).next_transfer_id,
    {
        self.set_account_active(id, false, now)
    }

    /// Restores an archived account: the reverse of [`Self::archive_account`].
    pub fn restore_account(&mut self, id: i64, now: String) -> (r: Result<(), LedgerError>)
        requires
            old(self).wf(),
        ensures
            final(self).wf(),
            r is Ok <==> account_exists(old(self).accounts@, id),
            r matches Err(e) ==> e == LedgerError::NotFound && *final(self) == *old(self),
            r is Ok ==> exists|k: int|
                {
                    &&& 0 <= k < old(self).accounts@.len()
                    &&& (#[trigger] old(self).accounts@[k]).id == id
                    &&& final(self).accounts@ == old(self).accounts@.update(
                        k,
                        (Account {
                            is_active: true,
                            updated_at: now,
                            ..old(self).accounts@[k]
                        }),
                    )
                },
            r is Ok ==> final(self).categories@ == old(self).categories@ && final(self).transactions@ == old(self).transactions@ && final(self).transfers@ == old(self).transfers@ && final(self).next_account_id == old(self).next_account_id && final(self).next_category_id == old(self).next_category_id && final(self).next_transaction_id
                == old(self).next_transaction_id && final(self).next_transfer_id == old(self).next_transfer_id,
    {
        self.set_account_active(id, true, now)
    }

    fn set_account_active(&mut self, id: i64, active: bool, now: String) -> (r: Result<
        (),
        LedgerError,
    >)
        requires
            old(self).wf(),
        ensures
            final(self).wf(),
            r is Ok <==> account_exists(old(self).accounts@, id),
            r matches Err(e) ==> e == LedgerError::NotFound && *final(self) == *old(self),
            r is Ok ==> exists|k: int|
                {
                    &&& 0 <= k < old(self).accounts@.len()
                    &&& (#[trigger] old(self).accounts@[k]).id == id
                    &&& final(self).accounts@ == old(self).accounts@.update(
                        k,
                        (Account {
                            is_active: active,
                            updated_at: now,
                            ..old(self).accounts@[k]
                        }),
                    )
                },
            r is Ok ==> final(self).categories@ == old(self).categories@ && final(self).transactions@ == old(self).transactions@ && final(self).transfers@ == old(self).transfers@ && final(self).next_account_id == old(self).next_account_id && final(self).next_category_id == old(self).next_category_id && final(self).next_transaction_id
                == old(self).next_transaction_id && final(self).next_transfer_id == old(self).next_transfer_id,
    {
        let k = match self.find_account(id) {
            Some(k) => k,
            None => {
                return Err(LedgerError::NotFound);
            },
        };
        let ghost old_accounts = self.accounts@;
        let mut a = self.accounts.remove(k);
        a.is_active = active;
        a.updated_at = now;
        self.accounts.insert(k, a);
        proof {
            assert(self.accounts@ =~= old_accounts.update(
                k as int,
                self.accounts@[k as int],
            ));
            assert(forall|j: int|
                0 <= j < self.accounts@.len() ==> (#[trigger] self.accounts@[j]).id
                    == old_accounts[j].id);
            assert forall|j: int|
                0 <= j < self.transfers@.len() implies account_exists(
                self.accounts@,
                (#[trigger] self.transfers@[j]).from_account_id,
            ) && account_exists(self.accounts@, self.transfers@[j].to_account_id) by {
                lemma_same_ids_preserve_account_exists(
                    old_accounts,
                    self.accounts@,
                    self.transfers@[j].from_account_id,
                );
                lemma_same_ids_preserve_account_exists(
                    old_accounts,
                    self.accounts@,
                    self.transfers@[j].to_account_id,
                );
            }
            assert forall|kk: int|
                0 <= kk < self.transactions@.len() implies account_exists(
                self.accounts@,
                (#[trigger] self.transactions@[kk]).account_id,
            ) by {
                lemma_same_ids_preserve_account_exists(
                    old_accounts,
                    self.accounts@,
                    self.transactions@[kk].account_id,
                );
            }
        }
        Ok(())
    }

    /// Builds the handed-out copy of one stored category.
    fn category_at(&self, k: usize) -> (r: Category)
        requires
            k < self.categories@.len(),
        ensures
            reflects_category(r, self.categories@[k as int]),
    {
        let c = &self.categories[k];
        Category {
            id: c.id,
            name: c.name.clone(),
            direction: c.direction,
            icon: c.icon.clone(),
            is_archived: c.is_archived,
            created_at: c.created_at.clone(),
        }
    }

    /// Lists every category, archived ones included, by direction
    /// (`both`, `expense`, `income`), then ascending by name.
    #[verifier::loop_isolation(false)]
    pub fn list_categories(&self) -> (r: Vec<Category>)
        ensures
            r@.len() == self.categories@.len(),
            ({
                let sorted = sort_ord(self.categories@, category_order());
                forall|k: int|
                    0 <= k < r@.len() ==> reflects_category(#[trigger] r@[k], sorted[k])
            }),
            forall|i: int, j: int|
                #![trigger r@[i], r@[j]]
                0 <= i < j < r@.len() ==> !(category_order()(r@[j], r@[i])),
    {
        let ghost cats = self.categories@;
        let ghost order = category_order();
        let mut out: Vec<Category> = Vec::new();
        let ghost mut sout: Seq<Category> = Seq::<Category>::empty();
        proof {
            lemma_category_order_strict();
            assert(cats.take(0) =~= Seq::<Category>::empty());
        }
        let mut i: usize = 0;
        while i < self.categories.len()
            invariant
                0 <= i <= cats.len(),
                sout == sort_ord(cats.take(i as int), order),
                sorted_ord(sout, order),
                out@.len() == sout.len(),
                forall|k: int|
                    0 <= k < sout.len() ==> reflects_category(#[trigger] out@[k], sout[k]),
            decreases cats.len() - i,
        {
            let c = self.category_at(i);
            let ghost xs = cats[i as int];
            let mut j: usize = 0;
            while j < out.len() && !category_comes_before(&c, &out[j])
                invariant
                    0 <= j <= out@.len(),
                    forall|q: int| 0 <= q < j ==> !order(xs, #[trigger] sout[q]),
                decreases out@.len() - j,
            {
                proof {
                    assert(reflects_category(out@[j as int], sout[j as int]));
                    assert(out@[j as int].name@ == sout[j as int].name@);
                    assert(c.name@ == xs.name@);
                }
                j = j + 1;
            }
            proof {
                assert(c.name@ == xs.name@);
                if j < out@.len() {
                    assert(reflects_category(out@[j as int], sout[j as int]));
                    assert(out@[j as int].name@ == sout[j as int].name@);
                    assert(order(xs, sout[j as int]));
                }
                lemma_insert_ord_at(sout, xs, order, j as int);
                lemma_insert_ord_sorted(sout, xs, order);
                lemma_insert_ord_len(sout, xs, order);
            }
            let ghost old_out = out@;
            let ghost old_sout = sout;
            out.insert(j, c);
            proof {
                sout = insert_ord(old_sout, xs, order);
                assert(cats.take(i + 1) =~= cats.take(i as int).push(xs));
                assert(cats.take(i + 1).drop_last() =~= cats.take(i as int));
                assert(cats.take(i + 1).last() == xs);
                assert(sort_ord(cats.take(i + 1), order) == insert_ord(
                    sort_ord(cats.take(i as int), order),
                    xs,
                    order,
                ));
                assert(sout =~= old_sout.take(j as int) + seq![xs] + old_sout.skip(j as int));
                assert(out@ =~= old_out.take(j as int) + seq![out@[j as int]] + old_out.skip(
                    j as int,
                )) by {
                    assert(old_out.insert(j as int, out@[j as int]) =~= old_out.take(j as int)
                        + seq![out@[j as int]] + old_out.skip(j as int));
                }
                assert forall|k: int|
                    0 <= k < sout.len() implies reflects_category(#[trigger] out@[k], sout[k]) by {
                    if k < j as int {
                        assert(out@[k] == old_out[k]);
                        assert(sout[k] == old_sout[k]);
                    } else if k == j as int {
                        assert(sout[k] == xs);
                    } else {
                        assert(out@[k] == old_out[k - 1]);
                        assert(sout[k] == old_sout[k - 1]);
                    }
                }
            }
            i = i + 1;
        }
        proof {
            assert(cats.take(cats.len() as int) =~= cats);
            lemma_sort_ord_sorted(cats, order);
            let sorted = sort_ord(cats, order);
            assert forall|i2: int, j2: int|
                #![trigger out@[i2], out@[j2]]
                0 <= i2 < j2 < out@.len() implies !(order(out@[j2], out@[i2])) by {
                assert(reflects_category(out@[i2], sorted[i2]));
                assert(reflects_category(out@[j2], sorted[j2]));
                assert(!order(sorted[j2], sorted[i2]));
            }
        }
        out
    }

    /// Creates a category. The direction must be a known label.
    pub fn create_category(
        &mut self,
        name: String,
        direction: &str,
        icon: Option<String>,
        now: String,
    ) -> (r: Result<Category, LedgerError>)
        requires
            old(self).wf(),
        ensures
            final(self).wf(),
            r is Ok <==> crate::model::is_direction_label(direction@) && old(self).next_category_id
                < i64::MAX,
            r matches Err(e) ==> *final(self) == *old(self) && ((e == LedgerError::Validation
                && !crate::model::is_direction_label(direction@)) || (e == LedgerError::Storage
                && crate::model::is_direction_label(direction@) && old(self).next_category_id
                == i64::MAX)),
            r is Ok ==> final(self).categories@ == old(self).categories@.push(
                (Category {
                    id: old(self).next_category_id,
                    name: name,
                    direction: crate::model::direction_of_label(direction@),
                    icon: icon,
                    is_archived: false,
                    created_at: now,
                }),
            ),
            r is Ok ==> final(self).next_category_id == old(self).next_category_id + 1 && final(self).accounts@
                == old(self).accounts@ && final(self).transactions@ == old(self).transactions@
                && final(self).transfers@ == old(self).transfers@ && final(self).next_account_id
                == old(self).next_account_id && final(self).next_transaction_id == old(self).next_transaction_id
                && final(self).next_transfer_id == old(self).next_transfer_id,
            r matches Ok(c) ==> reflects_category(c, final(self).categories@.last()),
    {
        let d = match Direction::parse(direction) {
            Ok(d) => d,
            Err(e) => {
                return Err(e);
            },
        };
        if self.next_category_id == i64::MAX {
            return Err(LedgerError::Storage);
        }
        let id = self.next_category_id;
        let c = Category { id, name, direction: d, icon, is_archived: false, created_at: now };
        let ghost old_categories = self.categories@;
        self.categories.push(c);
        self.next_category_id = id + 1;
        proof {
            assert(self.categories@.drop_last() =~= old_categories);
            assert forall|kk: int|
                0 <= kk < self.transactions@.len() && (#[trigger] self.transactions@[kk]).category_id
                    is Some implies category_exists(
                self.categories@,
                self.transactions@[kk].category_id->Some_0,
            ) by {
                lemma_push_preserves_category_exists(
                    old_categories,
                    self.categories@.last(),
                    self.transactions@[kk].category_id->Some_0,
                );
            }
        }
        let k = self.categories.len() - 1;
        Ok(self.category_at(k))
    }

    /// Updates a category's name, direction and icon. The archive flag and
    /// creation time are unchanged.
    pub fn update_category(
        &mut self,
        id: i64,
        name: String,
        direction: &str,
        icon: Option<String>,
    ) -> (r: Result<Category, LedgerError>)
        requires
            old(self).wf(),
        ensures
            final(self).wf(),
            r is Ok <==> category_exists(old(self).categories@, id)
                && crate::model::is_direction_label(direction@),
            r matches Err(e) ==> *final(self) == *old(self) && ((e == LedgerError::NotFound
                && !category_exists(old(self).categories@, id)) || (e == LedgerError::Validation
                && category_exists(old(self).categories@, id)
                && !crate::model::is_direction_label(direction@))),
            r is Ok ==> exists|k: int|
                {
                    &&& 0 <= k < old(self).categories@.len()
                    &&& (#[trigger] old(self).categories@[k]).id == id
                    &&& final(self).categories@ == old(self).categories@.update(
                        k,
                        (Category {
                            id: id,
                            name: name,
                            direction: crate::model::direction_of_label(direction@),
                            icon: icon,
                            is_archived: old(self).categories@[k].is_archived,
                            created_at: old(self).categories@[k].created_at,
                        }),
                    )
                },
            r is Ok ==> final(self).accounts@ == old(self).accounts@ && final(self).transactions@
                == old(self).transactions@ && final(self).transfers@ == old(self).transfers@
                && final(self).next_account_id == old(self).next_account_id && final(self).next_category_id
                == old(self).next_category_id && final(self).next_transaction_id == old(self).next_transaction_id
                && final(self).next_transfer_id == old(self).next_transfer_id,
            r matches Ok(c) ==> exists|k: int|
                0 <= k < final(self).categories@.len() && (#[trigger] final(self).categories@[k]).id
                    == id && reflects_category(c, final(self).categories@[k]),
    {
        let k = match self.find_category(id) {
            Some(k) => k,
            None => {
                return Err(LedgerError::NotFound);
            },
        };
        let d = match Direction::parse(direction) {
            Ok(d) => d,
            Err(e) => {
                return Err(e);
            },
        };
        let ghost old_categories = self.categories@;
        let mut c = self.categories.remove(k);
        c.name = name;
        c.direction = d;
        c.icon = icon;
        self.categories.insert(k, c);
        proof {
            assert(self.categories@ =~= old_categories.update(k as int, self.categories@[k as int]));
            assert(forall|j: int|
                0 <= j < self.categories@.len() ==> (#[trigger] self.categories@[j]).id
                    == old_categories[j].id);
            assert forall|kk: int|
                0 <= kk < self.transactions@.len() && (#[trigger] self.transactions@[kk]).category_id
                    is Some implies category_exists(
                self.categories@,
                self.transactions@[kk].category_id->Some_0,
            ) by {
                lemma_same_ids_preserve_category_exists(
                    old_categories,
                    self.categories@,
                    self.transactions@[kk].category_id->Some_0,
                );
            }
        }
        Ok(self.category_at(k))
    }

    /// Archives a category: a soft delete. Historical transactions keep
    /// referencing it; only the archive flag changes.
    pub fn archive_category(&mut self, id: i64) -> (r: Result<(), LedgerError>)
        requires
            old(self).wf(),
        ensures
            final(self).wf(),
            r is Ok <==> category_exists(old(self).categories@, id),
            r matches Err(e) ==> e == LedgerError::NotFound && *final(self) == *old(self),
            r is Ok ==> exists|k: int|
                {
                    &&& 0 <= k < old(self).categories@.len()
                    &&& (#[trigger] old(self).categories@[k]).id == id
                    &&& final(self).categories@ == old(self).categories@.update(
                        k,
                        (Category { is_archived: true, ..old(self).categories@[k] }),
                    )
                },
            r is Ok ==> final(self).accounts@ == old(self).accounts@ && final(self).transactions@
                == old(self).transactions@ && final(self).transfers@ == old(self).transfers@
                && final(self).next_account_id == old(self).next_account_id && final(self).next_category_id
                == old(self).next_category_id && final(self).next_transaction_id == old(self).next_transaction_id
                && final(self).next_transfer_id == old(self).next_transfer_id,
    {
        self.set_category_archived(id, true)
    }

    /// Restores an archived category: the reverse of
    /// [`Self::archive_category`].
    pub fn restore_category(&mut self, id: i64) -> (r: Result<(), LedgerError>)
        requires
            old(self).wf(),
        ensures
            final(self).wf(),
            r is Ok <==> category_exists(old(self).categories@, id),
            r matches Err(e) ==> e == LedgerError::NotFound && *final(self) == *old(self),
            r is Ok ==> exists|k: int|
                {
                    &&& 0 <= k < old(self).categories@.len()
                    &&& (#[trigger] old(self).categories@[k]).id == id
                    &&& final(self).categories@ == old(self).categories@.update(
                        k,
                        (Category { is_archived: false, ..old(self).categories@[k] }),
                    )
                },
            r is Ok ==> final(self).accounts@ == old(self).accounts@ && final(self).transactions@
                == old(self).transactions@ && final(self).transfers@ == old(self).transfers@
                && final(self).next_account_id == old(self).next_account_id && final(self).next_category_id
                == old(self).next_category_id && final(self).next_transaction_id == old(self).next_transaction_id
                && final(self).next_transfer_id == old(self).next_transfer_id,
    {
        self.set_category_archived(id, false)
    }

    fn set_category_archived(&mut self, id: i64, archived: bool) -> (r: Result<(), LedgerError>)
        requires
            old(self).wf(),
        ensures
            final(self).wf(),
            r is Ok <==> category_exists(old(self).categories@, id),
            r matches Err(e) ==> e == LedgerError::NotFound && *final(self) == *old(self),
            r is Ok ==> exists|k: int|
                {
                    &&& 0 <= k < old(self).categories@.len()
                    &&& (#[trigger] old(self).categories@[k]).id == id
                    &&& final(self).categories@ == old(self).categories@.update(
                        k,
                        (Category { is_archived: archived, ..old(self).categories@[k] }),
                    )
                },
            r is Ok ==> final(self).accounts@ == old(self).accounts@ && final(self).transactions@
                == old(self).transactions@ && final(self).transfers@ == old(self).transfers@
                && final(self).next_account_id == old(self).next_account_id && final(self).next_category_id
                == old(self).next_category_id && final(self).next_transaction_id == old(self).next_transaction_id
                && final(self).next_transfer_id == old(self).next_transfer_id,
    {
        let k = match self.find_category(id) {
            Some(k) => k,
            None => {
                return Err(LedgerError::NotFound);
            },
        };
        let ghost old_categories = self.categories@;
        let mut c = self.categories.remove(k);
        c.is_archived = archived;
        self.categories.insert(k, c);
        proof {
            assert(self.categories@ =~= old_categories.update(k as int, self.categories@[k as int]));
            assert(forall|j: int|
                0 <= j < self.categories@.len() ==> (#[trigger] self.categories@[j]).id
                    == old_categories[j].id);
            assert forall|kk: int|
                0 <= kk < self.transactions@.len() && (#[trigger] self.transactions@[kk]).category_id
                    is Some implies category_exists(
                self.categories@,
                self.transactions@[kk].category_id->Some_0,
            ) by {
                lemma_same_ids_preserve_category_exists(
                    old_categories,
                    self.categories@,
                    self.transactions@[kk].category_id->Some_0,
                );
            }
        }
        Ok(())
    }

    /// First-run seeding: when no category exists yet, installs the fixed
    /// default set of thirteen categories. A ledger that already has
    /// categories is left untouched.
    pub fn seed_categories(&mut self, now: &str) -> (r: Result<(), LedgerError>)
        requires
            old(self).wf(),
        ensures
            final(self).wf(),
            old(self).categories@.len() > 0 ==> r is Ok && *final(self) == *old(self),
            old(self).categories@.len() == 0 && old(self).next_category_id > i64::MAX - 13 ==> r
                == Err::<(), LedgerError>(LedgerError::Storage) && *final(self) == *old(self),
            old(self).categories@.len() == 0 && old(self).next_category_id <= i64::MAX - 13 ==> r
                is Ok && seeded_categories(
                final(self).categories@,
                old(self).next_category_id as int,
                now@,
            ) && final(self).next_category_id == old(self).next_category_id + 13,
            final(self).accounts@ == old(self).accounts@ && final(self).transactions@ == old(self).transactions@
                && final(self).transfers@ == old(self).transfers@ && final(self).next_account_id
                == old(self).next_account_id && final(self).next_transaction_id == old(self).next_transaction_id
                && final(self).next_transfer_id == old(self).next_transfer_id,
    {
        if self.categories.len() > 0 {
            return Ok(());
        }
        if self.next_category_id > i64::MAX - 13 {
            return Err(LedgerError::Storage);
        }
        let first = self.next_category_id;
        let mut v: Vec<Category> = Vec::new();
        push_category_row(&mut v, first, "Salary", Direction::Income, "\u{1F4BC}", now);
        push_category_row(&mut v, first + 1, "Freelance", Direction::Income, "\u{1F4BB}", now);
        push_category_row(&mut v, first + 2, "Investments", Direction::Income, "\u{1F4C8}", now);
        push_category_row(&mut v, first + 3, "Other Income", Direction::Income, "\u{1F4B0}", now);
        push_category_row(&mut v, first + 4, "Food & Dining", Direction::Expense, "\u{1F37D}\u{FE0F}", now);
        push_category_row(&mut v, first + 5, "Transportation", Direction::Expense, "\u{1F697}", now);
        push_category_row(&mut v, first + 6, "Shopping", Direction::Expense, "\u{1F6CD}\u{FE0F}", now);
        push_category_row(&mut v, first + 7, "Utilities", Direction::Expense, "\u{1F4A1}", now);
        push_category_row(&mut v, first + 8, "Entertainment", Direction::Expense, "\u{1F3AC}", now);
        push_category_row(&mut v, first + 9, "Health", Direction::Expense, "\u{1F3E5}", now);
        push_category_row(&mut v, first + 10, "Education", Direction::Expense, "\u{1F4DA}", now);
        push_category_row(&mut v, first + 11, "Housing", Direction::Expense, "\u{1F3E0}", now);
        push_category_row(&mut v, first + 12, "Other Expense", Direction::Expense, "\u{1F4B8}", now);
        self.categories = v;
        self.next_category_id = first + 13;
        proof {
            assert(forall|kk: int|
                0 <= kk < self.transactions@.len() ==> !((#[trigger] self.transactions@[kk]).category_id
                    is Some));
        }
        Ok(())
    }

    /// Clears every table and counter and installs the default category
    /// set: the ledger afterwards looks exactly like a fresh, seeded one.
    pub fn reset_all_data(&mut self, now: &str) -> (r: Result<(), LedgerError>)
        requires
            old(self).wf(),
        ensures
            final(self).wf(),
            r is Ok,
            final(self).accounts@ == Seq::<Account>::empty(),
            final(self).transactions@ == Seq::<Transaction>::empty(),
            final(self).transfers@ == Seq::<Transfer>::empty(),
            seeded_categories(final(self).categories@, 1, now@),
            final(self).next_account_id == 1 && final(self).next_category_id == 14 && final(self).next_transaction_id
                == 1 && final(self).next_transfer_id == 1,
    {
        self.accounts.clear();
        self.categories.clear();
        self.transactions.clear();
        self.transfers.clear();
        self.next_account_id = 1;
        self.next_category_id = 1;
        self.next_transaction_id = 1;
        self.next_transfer_id = 1;
        proof {
            assert(self.accounts@ =~= Seq::<Account>::empty());
            assert(self.categories@ =~= Seq::<Category>::empty());
            assert(self.transactions@ =~= Seq::<Transaction>::empty());
            assert(self.transfers@ =~= Seq::<Transfer>::empty());
        }
        self.seed_categories(now)
    }

    /// Builds the handed-out copy of one stored transaction.
    pub fn transaction_at(&self, k: usize) -> (r: Transaction)
        requires
            k < self.transactions@.len(),
        ensures
            reflects_transaction(r, self.transactions@[k as int]),
    {
        let t = &self.transactions[k];
        Transaction {
            id: t.id,
            account_id: t.account_id,
            category_id: t.category_id,
            transfer_id: t.transfer_id,
            tx_type: t.tx_type,
            amount: t.amount,
            date: t.date,
            notes: t.notes.clone(),
            is_recurring: t.is_recurring,
            recurrence_frequency: t.recurrence_frequency,
            next_due_date: t.next_due_date,
            created_at: t.created_at.clone(),
            updated_at: t.updated_at.clone(),
        }
    }

    /// Creates an ordinary transaction (never a transfer leg: the stored
    /// row carries no transfer id). Shifts the owning account's balance by
    /// the transaction's contribution.
    pub fn create_transaction(
        &mut self,
        account_id: i64,
        category_id: Option<i64>,
        tx_type: &str,
        amount: i64,
        date: Date,
        notes: Option<String>,
        is_recurring: bool,
        recurrence_frequency: Option<&str>,
        next_due_date: Option<Date>,
        now: String,
    ) -> (r: Result<Transaction, LedgerError>)
        requires
            old(self).wf(),
        ensures
            final(self).wf(),
            r is Ok <==> transaction_input_ok(
                tx_type@,
                amount,
                date,
                opt_label(recurrence_frequency),
                next_due_date,
            ) && account_exists(old(self).accounts@, account_id) && (category_id matches Some(c)
                ==> category_exists(old(self).categories@, c)) && old(self).next_transaction_id
                < i64::MAX,
            r matches Err(e) ==> *final(self) == *old(self) && (e == LedgerError::Validation
                || e == LedgerError::NotFound || e == LedgerError::Storage),
            r matches Err(e) && e == LedgerError::Validation ==> !transaction_input_ok(
                tx_type@,
                amount,
                date,
                opt_label(recurrence_frequency),
                next_due_date,
            ),
            r matches Err(e) && e == LedgerError::NotFound ==> !account_exists(
                old(self).accounts@,
                account_id,
            ) || (category_id matches Some(c) && !category_exists(old(self).categories@, c)),
            r matches Err(e) && e == LedgerError::Storage ==> old(self).next_transaction_id
                == i64::MAX,
            r is Ok ==> final(self).transactions@ == old(self).transactions@.push(
                (Transaction {
                    id: old(self).next_transaction_id,
                    account_id: account_id,
                    category_id: category_id,
                    transfer_id: None,
                    tx_type: crate::model::tx_type_of_label(tx_type@),
                    amount: amount,
                    date: date,
                    notes: notes,
                    is_recurring: is_recurring,
                    recurrence_frequency: parsed_frequency(opt_label(recurrence_frequency)),
                    next_due_date: next_due_date,
                    created_at: now,
                    updated_at: final(self).transactions@.last().updated_at,
                }),
            ) && final(self).transactions@.last().updated_at@ == now@,
            r is Ok ==> final(self).next_transaction_id == old(self).next_transaction_id + 1
                && final(self).accounts@ == old(self).accounts@ && final(self).categories@ == old(self).categories@ && final(self).transfers@ == old(self).transfers@ && final(self).next_account_id
                == old(self).next_account_id && final(self).next_category_id == old(self).next_category_id
                && final(self).next_transfer_id == old(self).next_transfer_id,
            r is Ok ==> forall|a: Account|
                #[trigger] balance_of(a, final(self).transactions@) == balance_of(
                    a,
                    old(self).transactions@,
                ) + crate::balance::balance_contribution(
                    a,
                    account_id,
                    crate::model::tx_type_of_label(tx_type@),
                    amount as int,
                ),
            r matches Ok(t) ==> reflects_transaction(t, final(self).transactions@.last()),
    {
        let ty = match TxType::parse(tx_type) {
            Ok(t) => t,
            Err(e) => {
                return Err(e);
            },
        };
        if !(0 <= amount && amount <= MAX_AMOUNT) || !date.is_valid() {
            return Err(LedgerError::Validation);
        }
        let freq: Option<Frequency> = match recurrence_frequency {
            Some(f) => match Frequency::parse(f) {
                Ok(f) => Some(f),
                Err(e) => {
                    return Err(e);
                },
            },
            None => None,
        };
        match next_due_date {
            Some(d) => {
                if !d.is_valid() {
                    return Err(LedgerError::Validation);
                }
            },
            None => {},
        }
        if self.find_account(account_id).is_none() {
            return Err(LedgerError::NotFound);
        }
        match category_id {
            Some(c) => {
                if self.find_category(c).is_none() {
                    return Err(LedgerError::NotFound);
                }
            },
            None => {},
        }
        if self.next_transaction_id == i64::MAX {
            return Err(LedgerError::Storage);
        }
        let id = self.next_transaction_id;
        let t = Transaction {
            id,
            account_id,
            category_id,
            transfer_id: None,
            tx_type: ty,
            amount,
            date,
            notes,
            is_recurring,
            recurrence_frequency: freq,
            next_due_date,
            created_at: now.clone(),
            updated_at: now,
        };
        let ghost old_txs = self.transactions@;
        self.transactions.push(t);
        self.next_transaction_id = id + 1;
        proof {
            assert(self.transactions@.drop_last() =~= old_txs);
            let new_txs = self.transactions@;
            let x = new_txs.last();
            assert forall|j: int|
                0 <= j < self.transfers@.len() implies transfer_paired(
                new_txs,
                #[trigger] self.transfers@[j],
            ) by {
                let tr = self.transfers@[j];
                old_txs.lemma_filter_push(x, expense_leg_of(tr));
                old_txs.lemma_filter_push(x, income_leg_of(tr));
                assert(new_txs =~= old_txs.push(x));
            }
            assert forall|a: Account|
                #[trigger] balance_of(a, new_txs) == balance_of(a, old_txs)
                    + crate::balance::balance_contribution(
                    a,
                    account_id,
                    crate::model::tx_type_of_label(tx_type@),
                    amount as int,
                ) by {
                assert(new_txs =~= old_txs.push(x));
                crate::balance::lemma_balance_push(a, old_txs, x);
            }
        }
        let k = self.transactions.len() - 1;
        Ok(self.transaction_at(k))
    }

    /// Updates an ordinary transaction. A transfer leg cannot be edited:
    /// altering one side would unbalance the pair, so the attempt is a
    /// validation error. The stored row keeps its id, its empty transfer
    /// reference and its creation time.
    pub fn update_transaction(
        &mut self,
        id: i64,
        account_id: i64,
        category_id: Option<i64>,
        tx_type: &str,
        amount: i64,
        date: Date,
        notes: Option<String>,
        is_recurring: bool,
        recurrence_frequency: Option<&str>,
        next_due_date: Option<Date>,
        now: String,
    ) -> (r: Result<Transaction, LedgerError>)
        requires
            old(self).wf(),
        ensures
            final(self).wf(),
            r is Ok <==> transaction_exists(old(self).transactions@, id) && transaction_by_id(
                old(self).transactions@,
                id,
            ).transfer_id is None && transaction_input_ok(
                tx_type@,
                amount,
                date,
                opt_label(recurrence_frequency),
                next_due_date,
            ) && account_exists(old(self).accounts@, account_id) && (category_id matches Some(c)
                ==> category_exists(old(self).categories@, c)),
            r matches Err(e) ==> *final(self) == *old(self) && (e == LedgerError::Validation
                || e == LedgerError::NotFound),
            !transaction_exists(old(self).transactions@, id) ==> r == Err::<
                Transaction,
                LedgerError,
            >(LedgerError::NotFound),
            r matches Err(e) && e == LedgerError::NotFound ==> !transaction_exists(
                old(self).transactions@,
                id,
            ) || !account_exists(old(self).accounts@, account_id) || (category_id matches Some(c)
                && !category_exists(old(self).categories@, c)),
            r matches Err(e) && e == LedgerError::Validation ==> transaction_exists(
                old(self).transactions@,
                id,
            ) && (transaction_by_id(old(self).transactions@, id).transfer_id is Some
                || !transaction_input_ok(
                tx_type@,
                amount,
                date,
                opt_label(recurrence_frequency),
                next_due_date,
            )),
            r is Ok ==> exists|k: int|
                {
                    &&& 0 <= k < old(self).transactions@.len()
                    &&& (#[trigger] old(self).transactions@[k]).id == id
                    &&& old(self).transactions@[k].transfer_id is None
                    &&& transaction_input_ok(
                        tx_type@,
                        amount,
                        date,
                        opt_label(recurrence_frequency),
                        next_due_date,
                    )
                    &&& account_exists(old(self).accounts@, account_id)
                    &&& (category_id matches Some(c) ==> category_exists(
                        old(self).categories@,
                        c,
                    ))
                    &&& final(self).transactions@ == old(self).transactions@.update(
                        k,
                        (Transaction {
                            id: id,
                            account_id: account_id,
                            category_id: category_id,
                            transfer_id: None,
                            tx_type: crate::model::tx_type_of_label(tx_type@),
                            amount: amount,
                            date: date,
                            notes: notes,
                            is_recurring: is_recurring,
                            recurrence_frequency: parsed_frequency(
                                opt_label(recurrence_frequency),
                            ),
                            next_due_date: next_due_date,
                            created_at: old(self).transactions@[k].created_at,
                            updated_at: now,
                        }),
                    )
                    &&& forall|a: Account|
                        #[trigger] balance_of(a, final(self).transactions@) == balance_of(
                            a,
                            old(self).transactions@,
                        ) - crate::balance::balance_contribution(
                            a,
                            old(self).transactions@[k].account_id,
                            old(self).transactions@[k].tx_type,
                            old(self).transactions@[k].amount as int,
                        ) + crate::balance::balance_contribution(
                            a,
                            account_id,
                            crate::model::tx_type_of_label(tx_type@),
                            amount as int,
                        )
                },
            r is Ok ==> final(self).accounts@ == old(self).accounts@ && final(self).categories@
                == old(self).categories@ && final(self).transfers@ == old(self).transfers@
                && final(self).next_account_id == old(self).next_account_id && final(self).next_category_id
                == old(self).next_category_id && final(self).next_transaction_id == old(self).next_transaction_id
                && final(self).next_transfer_id == old(self).next_transfer_id,
            r matches Ok(t) ==> exists|k: int|
                0 <= k < final(self).transactions@.len() && (#[trigger] final(self).transactions@[k]).id == id && reflects_transaction(
                    t,
                    final(self).transactions@[k],
                ),
    {
        let k = match self.find_transaction(id) {
            Some(k) => k,
            None => {
                return Err(LedgerError::NotFound);
            },
        };
        proof {
            lemma_transaction_by_id_index(self.transactions@, k as int);
        }
        if self.transactions[k].transfer_id.is_some() {
            return Err(LedgerError::Validation);
        }
        let ty = match TxType::parse(tx_type) {
            Ok(t) => t,
            Err(e) => {
                return Err(e);
            },
        };
        if !(0 <= amount && amount <= MAX_AMOUNT) || !date.is_valid() {
            return Err(LedgerError::Validation);
        }
        let freq: Option<Frequency> = match recurrence_frequency {
            Some(f) => match Frequency::parse(f) {
                Ok(f) => Some(f),
                Err(e) => {
                    return Err(e);
                },
            },
            None => None,
        };
        match next_due_date {
            Some(d) => {
                if !d.is_valid() {
                    return Err(LedgerError::Validation);
                }
            },
            None => {},
        }
        if self.find_account(account_id).is_none() {
            return Err(LedgerError::NotFound);
        }
        match category_id {
            Some(c) => {
                if self.find_category(c).is_none() {
                    return Err(LedgerError::NotFound);
                }
            },
            None => {},
        }
        let ghost old_txs = self.transactions@;
        let mut t = self.transactions.remove(k);
        let ghost old_row = old_txs[k as int];
        t.account_id = account_id;
        t.category_id = category_id;
        t.tx_type = ty;
        t.amount = amount;
        t.date = date;
        t.notes = notes;
        t.is_recurring = is_recurring;
        t.recurrence_frequency = freq;
        t.next_due_date = next_due_date;
        t.updated_at = now;
        self.transactions.insert(k, t);
        proof {
            let new_txs = self.transactions@;
            let x = new_txs[k as int];
            assert(new_txs =~= old_txs.update(k as int, x));
            assert(distinct_tx_ids(new_txs)) by {
                assert(forall|j: int|
                    0 <= j < new_txs.len() ==> (#[trigger] new_txs[j]).id == old_txs[j].id);
            }
            assert forall|j: int|
                0 <= j < self.transfers@.len() implies transfer_paired(
                new_txs,
                #[trigger] self.transfers@[j],
            ) by {
                let tr = self.transfers@[j];
                lemma_filter_update_nonmatching(old_txs, k as int, x, expense_leg_of(tr));
                lemma_filter_update_nonmatching(old_txs, k as int, x, income_leg_of(tr));
            }
            assert forall|a: Account|
                #[trigger] balance_of(a, new_txs) == balance_of(a, old_txs)
                    - crate::balance::balance_contribution(
                    a,
                    old_row.account_id,
                    old_row.tx_type,
                    old_row.amount as int,
                ) + crate::balance::balance_contribution(
                    a,
                    account_id,
                    crate::model::tx_type_of_label(tx_type@),
                    amount as int,
                ) by {
                crate::balance::lemma_balance_update(a, old_txs, k as int, x);
            }
        }
        Ok(self.transaction_at(k))
    }

    /// Builds the handed-out copy of one stored transfer.
    fn transfer_at(&self, k: usize) -> (r: Transfer)
        requires
            k < self.transfers@.len(),
        ensures
            reflects_transfer(r, self.transfers@[k as int]),
    {
        let t = &self.transfers[k];
        Transfer {
            id: t.id,
            from_account_id: t.from_account_id,
            to_account_id: t.to_account_id,
            amount: t.amount,
            date: t.date,
            notes: t.notes.clone(),
            transfer_type: t.transfer_type,
            created_at: t.created_at.clone(),
        }
    }

    /// Creates a transfer: atomically inserts the transfer row, an expense
    /// leg on the source account and an income leg on the destination
    /// account, all three with the same amount and the legs with no
    /// category. A transfer from an account to itself is rejected. The
    /// source balance falls by the amount and the destination balance rises
    /// by it (the other way round on credit accounts).
    pub fn create_transfer(
        &mut self,
        from_account_id: i64,
        to_account_id: i64,
        amount: i64,
        date: Date,
        notes: Option<String>,
        transfer_type: Option<&str>,
        now: String,
    ) -> (r: Result<Transfer, LedgerError>)
        requires
            old(self).wf(),
        ensures
            final(self).wf(),
            r is Ok <==> transfer_input_ok(
                from_account_id,
                to_account_id,
                amount,
                date,
                opt_label(transfer_type),
            ) && account_exists(old(self).accounts@, from_account_id) && account_exists(
                old(self).accounts@,
                to_account_id,
            ) && old(self).next_transfer_id < i64::MAX && old(self).next_transaction_id <= i64::MAX
                - 2,
            r matches Err(e) ==> *final(self) == *old(self) && (e == LedgerError::Validation
                || e == LedgerError::NotFound || e == LedgerError::Storage),
            r matches Err(e) && e == LedgerError::Validation ==> !transfer_input_ok(
                from_account_id,
                to_account_id,
                amount,
                date,
                opt_label(transfer_type),
            ),
            r matches Err(e) && e == LedgerError::NotFound ==> !account_exists(
                old(self).accounts@,
                from_account_id,
            ) || !account_exists(old(self).accounts@, to_account_id),
            r matches Err(e) && e == LedgerError::Storage ==> old(self).next_transfer_id
                == i64::MAX || old(self).next_transaction_id > i64::MAX - 2,
            r is Ok ==> final(self).transfers@ == old(self).transfers@.push(
                (Transfer {
                    id: old(self).next_transfer_id,
                    from_account_id: from_account_id,
                    to_account_id: to_account_id,
                    amount: amount,
                    date: date,
                    notes: notes,
                    transfer_type: parsed_transfer_type(opt_label(transfer_type)),
                    created_at: final(self).transfers@.last().created_at,
                }),
            ) && final(self).transfers@.last().created_at@ == now@,
            r is Ok ==> final(self).transactions@.len() == old(self).transactions@.len() + 2
                && final(self).transactions@.take(old(self).transactions@.len() as int) == old(self).transactions@,
            r is Ok ==> is_expense_leg(
                final(self).transactions@[final(self).transactions@.len() - 2],
                final(self).transfers@.last(),
            ) && is_income_leg(
                final(self).transactions@[final(self).transactions@.len() - 1],
                final(self).transfers@.last(),
            ) && transfer_paired(final(self).transactions@, final(self).transfers@.last()),
            r is Ok ==> final(self).transactions@[final(self).transactions@.len() - 2].id == old(self).next_transaction_id && final(self).transactions@[final(self).transactions@.len()
                - 1].id == old(self).next_transaction_id + 1 && forall|m: int|
                final(self).transactions@.len() - 2 <= m < final(self).transactions@.len() ==> {
                    &&& (#[trigger] final(self).transactions@[m]).date == date
                    &&& same_opt_text(final(self).transactions@[m].notes, notes)
                    &&& !final(self).transactions@[m].is_recurring
                    &&& final(self).transactions@[m].recurrence_frequency is None
                    &&& final(self).transactions@[m].next_due_date is None
                    &&& final(self).transactions@[m].created_at@ == now@
                    &&& final(self).transactions@[m].updated_at@ == now@
                },
            r is Ok ==> final(self).next_transfer_id == old(self).next_transfer_id + 1 && final(self).next_transaction_id == old(self).next_transaction_id + 2 && final(self).accounts@
                == old(self).accounts@ && final(self).categories@ == old(self).categories@
                && final(self).next_account_id == old(self).next_account_id && final(self).next_category_id
                == old(self).next_category_id,
            r is Ok ==> forall|a: Account|
                #[trigger] balance_of(a, final(self).transactions@) == balance_of(
                    a,
                    old(self).transactions@,
                ) + crate::balance::balance_contribution(
                    a,
                    from_account_id,
                    TxType::Expense,
                    amount as int,
                ) + crate::balance::balance_contribution(
                    a,
                    to_account_id,
                    TxType::Income,
                    amount as int,
                ),
            r matches Ok(w) ==> reflects_transfer(w, final(self).transfers@.last()),
    {
        if !(0 < amount && amount <= MAX_AMOUNT) || !date.is_valid() || from_account_id
            == to_account_id {
            return Err(LedgerError::Validation);
        }
        let ttype = match transfer_type {
            Some(s) => match TransferType::parse(s) {
                Ok(t) => t,
                Err(e) => {
                    return Err(e);
                },
            },
            None => TransferType::Regular,
        };
        if self.find_account(from_account_id).is_none() || self.find_account(to_account_id).is_none() {
            return Err(LedgerError::NotFound);
        }
        if self.next_transfer_id == i64::MAX || self.next_transaction_id > i64::MAX - 2 {
            return Err(LedgerError::Storage);
        }
        let tid = self.next_transfer_id;
        let txid = self.next_transaction_id;
        let tr = Transfer {
            id: tid,
            from_account_id,
            to_account_id,
            amount,
            date,
            notes,
            transfer_type: ttype,
            created_at: now.clone(),
        };
        let expense_leg = Transaction {
            id: txid,
            account_id: from_account_id,
            category_id: None,
            transfer_id: Some(tid),
            tx_type: TxType::Expense,
            amount,
            date,
            notes: tr.notes.clone(),
            is_recurring: false,
            recurrence_frequency: None,
            next_due_date: None,
            created_at: now.clone(),
            updated_at: now.clone(),
        };
        let income_leg = Transaction {
            id: txid + 1,
            account_id: to_account_id,
            category_id: None,
            transfer_id: Some(tid),
            tx_type: TxType::Income,
            amount,
            date,
            notes: tr.notes.clone(),
            is_recurring: false,
            recurrence_frequency: None,
            next_due_date: None,
            created_at: now.clone(),
            updated_at: now,
        };
        let ghost old_txs = self.transactions@;
        let ghost old_trs = self.transfers@;
        let ghost e = expense_leg;
        let ghost i_leg = income_leg;
        let ghost trg = tr;
        self.transfers.push(tr);
        self.transactions.push(expense_leg);
        self.transactions.push(income_leg);
        self.next_transfer_id = tid + 1;
        self.next_transaction_id = txid + 2;
        proof {
            let new_txs = self.transactions@;
            let new_trs = self.transfers@;
            assert(new_trs.drop_last() =~= old_trs);
            assert(new_txs =~= old_txs.push(e).push(i_leg));
            assert(new_txs.take(old_txs.len() as int) =~= old_txs);
            // no old transaction references the fresh transfer id
            assert forall|k: int|
                0 <= k < old_txs.len() implies (#[trigger] old_txs[k]).transfer_id != Some(tid) by {
                if old_txs[k].transfer_id is Some {
                    let t_ref = old_txs[k].transfer_id->Some_0;
                    assert(transfer_exists(old_trs, t_ref));
                    let j = choose|j: int| 0 <= j < old_trs.len() && #[trigger] old_trs[j].id == t_ref;
                    assert(old_trs[j].id < tid);
                }
            }
            // the fresh transfer is paired with exactly its two legs
            assert(transfer_paired(new_txs, trg)) by {
                assert(forall|k: int|
                    0 <= k < old_txs.len() ==> !(expense_leg_of(trg)(#[trigger] old_txs[k])));
                assert(forall|k: int|
                    0 <= k < old_txs.len() ==> !(income_leg_of(trg)(#[trigger] old_txs[k])));
                old_txs.lemma_all_neg_filter_empty(expense_leg_of(trg));
                old_txs.lemma_all_neg_filter_empty(income_leg_of(trg));
                old_txs.lemma_filter_push(e, expense_leg_of(trg));
                old_txs.push(e).lemma_filter_push(i_leg, expense_leg_of(trg));
                old_txs.lemma_filter_push(e, income_leg_of(trg));
                old_txs.push(e).lemma_filter_push(i_leg, income_leg_of(trg));
                assert(is_expense_leg(e, trg));
                assert(is_income_leg(i_leg, trg));
                assert(new_txs.filter(expense_leg_of(trg)) =~= old_txs.filter(
                    expense_leg_of(trg),
                ).push(e));
                assert(new_txs.filter(income_leg_of(trg)) =~= old_txs.filter(
                    income_leg_of(trg),
                ).push(i_leg));
            }
            // old transfers stay paired: the two new legs reference the fresh id
            assert forall|j: int|
                0 <= j < new_trs.len() implies transfer_paired(new_txs, #[trigger] new_trs[j]) by {
                if j < old_trs.len() {
                    let trj = old_trs[j];
                    assert(trj.id < tid);
                    old_txs.lemma_filter_push(e, expense_leg_of(trj));
                    old_txs.push(e).lemma_filter_push(i_leg, expense_leg_of(trj));
                    old_txs.lemma_filter_push(e, income_leg_of(trj));
                    old_txs.push(e).lemma_filter_push(i_leg, income_leg_of(trj));
                    assert(transfer_paired(old_txs, trj));
                    assert(new_txs.filter(expense_leg_of(trj)) == old_txs.filter(
                        expense_leg_of(trj),
                    ));
                    assert(new_txs.filter(income_leg_of(trj)) == old_txs.filter(
                        income_leg_of(trj),
                    ));
                } else {
                    assert(new_trs[j] == trg);
                }
            }
            // referential integrity of the two new legs
            assert(account_exists(self.accounts@, from_account_id));
            assert(account_exists(self.accounts@, to_account_id));
            assert(transfer_exists(new_trs, tid)) by {
                assert(new_trs[new_trs.len() - 1].id == tid);
            }
            assert forall|k: int|
                0 <= k < new_txs.len() && (#[trigger] new_txs[k]).transfer_id is Some
                    implies transfer_exists(new_trs, new_txs[k].transfer_id->Some_0) by {
                if k < old_txs.len() {
                    lemma_push_preserves_transfer_exists(
                        old_trs,
                        trg,
                        new_txs[k].transfer_id->Some_0,
                    );
                }
            }
            // balances shift by exactly the two leg contributions
            assert forall|a: Account|
                #[trigger] balance_of(a, new_txs) == balance_of(a, old_txs)
                    + crate::balance::balance_contribution(
                    a,
                    from_account_id,
                    TxType::Expense,
                    amount as int,
                ) + crate::balance::balance_contribution(
                    a,
                    to_account_id,
                    TxType::Income,
                    amount as int,
                ) by {
                crate::balance::lemma_balance_push(a, old_txs, e);
                crate::balance::lemma_balance_push(a, old_txs.push(e), i_leg);
            }
        }
        let k = self.transfers.len() - 1;
        Ok(self.transfer_at(k))
    }

    /// Removes the transfer stored at index `j` together with both of its
    /// legs: the whole pairing goes at once, so no orphan leg and no
    /// dangling transfer reference remains, and both accounts' balances
    /// return to what they were before the transfer was created.
    fn remove_transfer_at(&mut self, j: usize)
        requires
            old(self).wf(),
            j < old(self).transfers@.len(),
        ensures
            final(self).wf(),
            final(self).transfers@ == old(self).transfers@.remove(j as int),
            final(self).transactions@ == old(self).transactions@.filter(
                non_leg_of(old(self).transfers@[j as int].id),
            ),
            forall|k: int|
                0 <= k < final(self).transactions@.len() ==> (#[trigger] final(self).transactions@[k]).transfer_id != Some(old(self).transfers@[j as int].id),
            forall|a: Account|
                #[trigger] balance_of(a, final(self).transactions@) == balance_of(
                    a,
                    old(self).transactions@,
                ) - crate::balance::balance_contribution(
                    a,
                    old(self).transfers@[j as int].from_account_id,
                    TxType::Expense,
                    old(self).transfers@[j as int].amount as int,
                ) - crate::balance::balance_contribution(
                    a,
                    old(self).transfers@[j as int].to_account_id,
                    TxType::Income,
                    old(self).transfers@[j as int].amount as int,
                ),
            final(self).accounts@ == old(self).accounts@ && final(self).categories@ == old(self).categories@ && final(self).next_account_id == old(self).next_account_id && final(self).next_category_id == old(self).next_category_id && final(self).next_transaction_id
                == old(self).next_transaction_id && final(self).next_transfer_id == old(self).next_transfer_id,
    {
        let tid = self.transfers[j].id;
        let ghost tr = self.transfers@[j as int];
        let ghost old_txs = self.transactions@;
        let ghost old_trs = self.transfers@;
        let n0 = self.transactions.len();
        let nl = Ghost(non_leg_of(tid));
        let mut i: usize = 0;
        let mut p: usize = 0;
        proof {
            assert(old_txs.take(0).filter(nl@) =~= Seq::<Transaction>::empty());
            assert(old_txs.skip(0) =~= old_txs);
            assert(self.transactions@ =~= old_txs.take(0).filter(nl@) + old_txs.skip(0));
        }
        while i < self.transactions.len()
            invariant
                0 <= p <= old_txs.len(),
                old_txs.len() == n0,
                self.transactions@ == old_txs.take(p as int).filter(nl@) + old_txs.skip(p as int),
                i == old_txs.take(p as int).filter(nl@).len(),
                nl@ == non_leg_of(tid),
                self.accounts@ == old(self).accounts@,
                self.categories@ == old(self).categories@,
                self.transfers@ == old_trs,
                self.next_account_id == old(self).next_account_id,
                self.next_category_id == old(self).next_category_id,
                self.next_transaction_id == old(self).next_transaction_id,
                self.next_transfer_id == old(self).next_transfer_id,
            decreases self.transactions@.len() - i,
        {
            proof {
                old_txs.take(p as int).lemma_filter_len(nl@);
                assert(self.transactions@.len() == i + old_txs.len() - p);
                assert(p < old_txs.len());
                assert(self.transactions@[i as int] == old_txs.skip(p as int)[0]);
                assert(old_txs.skip(p as int)[0] == old_txs[p as int]);
                assert(old_txs.take(p + 1) =~= old_txs.take(p as int).push(old_txs[p as int]));
                old_txs.take(p as int).lemma_filter_push(old_txs[p as int], nl@);
            }
            let is_leg = match self.transactions[i].transfer_id {
                Some(t) => t == tid,
                None => false,
            };
            if is_leg {
                let ghost pre = self.transactions@;
                let _removed = self.transactions.remove(i);
                proof {
                    assert(self.transactions@ =~= old_txs.take(p + 1).filter(nl@) + old_txs.skip(
                        p + 1,
                    ));
                }
            } else {
                proof {
                    assert(nl@(old_txs[p as int]));
                    assert(self.transactions@ =~= old_txs.take(p + 1).filter(nl@) + old_txs.skip(
                        p + 1,
                    ));
                }
                i = i + 1;
            }
            p = p + 1;
        }
        proof {
            old_txs.take(p as int).lemma_filter_len(nl@);
            assert(self.transactions@.len() == i + old_txs.len() - p);
            assert(p == old_txs.len());
            assert(old_txs.take(p as int) =~= old_txs);
            assert(old_txs.skip(p as int) =~= Seq::<Transaction>::empty());
            assert(self.transactions@ =~= old_txs.filter(nl@));
        }
        self.transfers.remove(j);
        proof {
            let new_txs = self.transactions@;
            let new_trs = self.transfers@;
            // every kept transaction is one of the old ones
            lemma_filter_is_subset(old_txs, nl@);
            assert forall|k: int|
                0 <= k < new_txs.len() implies {
                &&& valid_transaction(#[trigger] new_txs[k])
                &&& 1 <= new_txs[k].id < self.next_transaction_id
                &&& account_exists(self.accounts@, new_txs[k].account_id)
                &&& (new_txs[k].category_id matches Some(c) ==> category_exists(
                    self.categories@,
                    c,
                ))
                &&& (new_txs[k].transfer_id matches Some(t) ==> transfer_exists(new_trs, t))
            } by {
                assert(old_txs.contains(new_txs[k]));
                let m = choose|m: int| 0 <= m < old_txs.len() && old_txs[m] == new_txs[k];
                assert(valid_transaction(old_txs[m]));
                old_txs.lemma_filter_pred(nl@, k);
                if new_txs[k].transfer_id is Some {
                    let t_ref = new_txs[k].transfer_id->Some_0;
                    assert(t_ref != tid);
                    assert(transfer_exists(old_trs, t_ref));
                    lemma_remove_preserves_transfer_exists(old_trs, j as int, t_ref);
                }
            }
            lemma_filter_distinct_tx_ids(old_txs, nl@);
            // remaining transfers keep their rows and stay paired
            assert forall|m: int|
                0 <= m < new_trs.len() implies {
                &&& valid_transfer(#[trigger] new_trs[m])
                &&& 1 <= new_trs[m].id < self.next_transfer_id
                &&& account_exists(self.accounts@, new_trs[m].from_account_id)
                &&& account_exists(self.accounts@, new_trs[m].to_account_id)
                &&& transfer_paired(new_txs, new_trs[m])
            } by {
                let m0 = if m < j { m } else { m + 1 };
                assert(new_trs[m] == old_trs[m0]);
                let trm = old_trs[m0];
                assert(trm.id != tid);
                assert(forall|t: Transaction|
                    #[trigger] expense_leg_of(trm)(t) ==> nl@(t));
                assert(forall|t: Transaction|
                    #[trigger] income_leg_of(trm)(t) ==> nl@(t));
                lemma_filter_subset_commute(old_txs, nl@, expense_leg_of(trm));
                lemma_filter_subset_commute(old_txs, nl@, income_leg_of(trm));
                assert(transfer_paired(old_txs, trm));
                assert forall|k: int|
                    0 <= k < new_txs.len() && (#[trigger] new_txs[k]).transfer_id == Some(trm.id)
                        implies is_expense_leg(new_txs[k], trm) || is_income_leg(
                    new_txs[k],
                    trm,
                ) by {
                    assert(old_txs.contains(new_txs[k]));
                    let q = choose|q: int| 0 <= q < old_txs.len() && old_txs[q] == new_txs[k];
                }
            }
            // balances on both sides revert
            assert forall|a: Account|
                #[trigger] balance_of(a, new_txs) == balance_of(a, old_txs)
                    - crate::balance::balance_contribution(
                    a,
                    tr.from_account_id,
                    TxType::Expense,
                    tr.amount as int,
                ) - crate::balance::balance_contribution(
                    a,
                    tr.to_account_id,
                    TxType::Income,
                    tr.amount as int,
                ) by {
                lemma_remove_legs_balance(old_txs, tr, a);
            }
            assert forall|k: int|
                0 <= k < new_txs.len() implies (#[trigger] new_txs[k]).transfer_id != Some(tid) by {
                old_txs.lemma_filter_pred(nl@, k);
            }
        }
    }

    /// Deletes a transfer: both of its legs and the transfer row go
    /// together. Both accounts' balances return to their pre-transfer
    /// values, and no transaction referencing the transfer remains.
    pub fn delete_transfer(&mut self, id: i64) -> (r: Result<(), LedgerError>)
        requires
            old(self).wf(),
        ensures
            final(self).wf(),
            r is Ok <==> transfer_exists(old(self).transfers@, id),
            r matches Err(e) ==> e == LedgerError::NotFound && *final(self) == *old(self),
            r is Ok ==> exists|j: int|
                {
                    &&& 0 <= j < old(self).transfers@.len()
                    &&& (#[trigger] old(self).transfers@[j]).id == id
                    &&& final(self).transfers@ == old(self).transfers@.remove(j)
                    &&& final(self).transactions@ == old(self).transactions@.filter(non_leg_of(id))
                    &&& forall|a: Account|
                        #[trigger] balance_of(a, final(self).transactions@) == balance_of(
                            a,
                            old(self).transactions@,
                        ) - crate::balance::balance_contribution(
                            a,
                            old(self).transfers@[j].from_account_id,
                            TxType::Expense,
                            old(self).transfers@[j].amount as int,
                        ) - crate::balance::balance_contribution(
                            a,
                            old(self).transfers@[j].to_account_id,
                            TxType::Income,
                            old(self).transfers@[j].amount as int,
                        )
                },
            r is Ok ==> forall|k: int|
                0 <= k < final(self).transactions@.len() ==> (#[trigger] final(self).transactions@[k]).transfer_id != Some(id),
            r is Ok ==> !transfer_exists(final(self).transfers@, id),
            r is Ok ==> final(self).accounts@ == old(self).accounts@ && final(self).categories@
                == old(self).categories@ && final(self).next_account_id == old(self).next_account_id
                && final(self).next_category_id == old(self).next_category_id && final(self).next_transaction_id
                == old(self).next_transaction_id && final(self).next_transfer_id == old(self).next_transfer_id,
    {
        let j = match self.find_transfer(id) {
            Some(j) => j,
            None => {
                return Err(LedgerError::NotFound);
            },
        };
        let ghost old_trs = self.transfers@;
        self.remove_transfer_at(j);
        proof {
            assert forall|m: int|
                0 <= m < self.transfers@.len() implies (#[trigger] self.transfers@[m]).id != id by {
                let m0 = if m < j as int { m } else { m + 1 };
                assert(self.transfers@[m] == old_trs[m0]);
            }
        }
        Ok(())
    }

    /// Deletes a transaction. When the row is a transfer leg, the deletion
    /// cascades: both legs and the owning transfer go together, exactly as
    /// in [`Self::delete_transfer`] — removing one side alone would
    /// silently unbalance the ledger. An ordinary row is removed alone.
    pub fn delete_transaction(&mut self, id: i64) -> (r: Result<(), LedgerError>)
        requires
            old(self).wf(),
        ensures
            final(self).wf(),
            r is Ok <==> transaction_exists(old(self).transactions@, id),
            r matches Err(e) ==> e == LedgerError::NotFound && *final(self) == *old(self),
            r is Ok ==> exists|k: int|
                {
                    &&& 0 <= k < old(self).transactions@.len()
                    &&& (#[trigger] old(self).transactions@[k]).id == id
                    &&& match old(self).transactions@[k].transfer_id {
                        Option::None => {
                            &&& final(self).transactions@ == old(self).transactions@.remove(k)
                            &&& final(self).transfers@ == old(self).transfers@
                            &&& forall|a: Account|
                                #[trigger] balance_of(a, final(self).transactions@) == balance_of(
                                    a,
                                    old(self).transactions@,
                                ) - crate::balance::balance_contribution(
                                    a,
                                    old(self).transactions@[k].account_id,
                                    old(self).transactions@[k].tx_type,
                                    old(self).transactions@[k].amount as int,
                                )
                        },
                        Option::Some(tid) => {
                            &&& final(self).transactions@ == old(self).transactions@.filter(
                                non_leg_of(tid),
                            )
                            &&& !transfer_exists(final(self).transfers@, tid)
                            &&& forall|kk: int|
                                0 <= kk < final(self).transactions@.len() ==> (#[trigger] final(self).transactions@[kk]).transfer_id != Some(tid)
                            &&& exists|jj: int|
                                {
                                    &&& 0 <= jj < old(self).transfers@.len()
                                    &&& (#[trigger] old(self).transfers@[jj]).id == tid
                                    &&& final(self).transfers@ == old(self).transfers@.remove(jj)
                                    &&& forall|a: Account|
                                        #[trigger] balance_of(a, final(self).transactions@)
                                            == balance_of(a, old(self).transactions@)
                                            - crate::balance::balance_contribution(
                                            a,
                                            old(self).transfers@[jj].from_account_id,
                                            TxType::Expense,
                                            old(self).transfers@[jj].amount as int,
                                        ) - crate::balance::balance_contribution(
                                            a,
                                            old(self).transfers@[jj].to_account_id,
                                            TxType::Income,
                                            old(self).transfers@[jj].amount as int,
                                        )
                                }
                        },
                    }
                },
            r is Ok ==> final(self).accounts@ == old(self).accounts@ && final(self).categories@
                == old(self).categories@ && final(self).next_account_id == old(self).next_account_id
                && final(self).next_category_id == old(self).next_category_id && final(self).next_transaction_id
                == old(self).next_transaction_id && final(self).next_transfer_id == old(self).next_transfer_id,
    {
        let k = match self.find_transaction(id) {
            Some(k) => k,
            None => {
                return Err(LedgerError::NotFound);
            },
        };
        let transfer_ref = self.transactions[k].transfer_id;
        match transfer_ref {
            Some(tid) => {
                let j = match self.find_transfer(tid) {
                    Some(j) => j,
                    None => {
                        proof {
                            assert(transfer_exists(self.transfers@, tid));
                            assert(false);
                        }
                        return Err(LedgerError::NotFound);
                    },
                };
                let ghost old_trs = self.transfers@;
                self.remove_transfer_at(j);
                proof {
                    assert forall|m: int|
                        0 <= m < self.transfers@.len() implies (#[trigger] self.transfers@[m]).id
                            != tid by {
                        let m0 = if m < j as int { m } else { m + 1 };
                        assert(self.transfers@[m] == old_trs[m0]);
                    }
                }
                Ok(())
            },
            None => {
                let ghost old_txs = self.transactions@;
                self.transactions.remove(k);
                proof {
                    let new_txs = self.transactions@;
                    assert(distinct_tx_ids(new_txs)) by {
                        assert forall|i1: int, i2: int|
                            #![trigger new_txs[i1], new_txs[i2]]
                            0 <= i1 < i2 < new_txs.len() implies new_txs[i1].id != new_txs[i2].id by {
                            let j1 = if i1 < k as int { i1 } else { i1 + 1 };
                            let j2 = if i2 < k as int { i2 } else { i2 + 1 };
                            assert(new_txs[i1] == old_txs[j1]);
                            assert(new_txs[i2] == old_txs[j2]);
                        }
                    }
                    assert forall|m: int|
                        0 <= m < new_txs.len() implies {
                        &&& valid_transaction(#[trigger] new_txs[m])
                        &&& 1 <= new_txs[m].id < self.next_transaction_id
                        &&& account_exists(self.accounts@, new_txs[m].account_id)
                        &&& (new_txs[m].category_id matches Some(c) ==> category_exists(
                            self.categories@,
                            c,
                        ))
                        &&& (new_txs[m].transfer_id matches Some(t) ==> transfer_exists(
                            self.transfers@,
                            t,
                        ))
                    } by {
                        let m0 = if m < k as int { m } else { m + 1 };
                        assert(new_txs[m] == old_txs[m0]);
                    }
                    assert forall|m: int|
                        0 <= m < self.transfers@.len() implies transfer_paired(
                        new_txs,
                        #[trigger] self.transfers@[m],
                    ) by {
                        let trm = self.transfers@[m];
                        lemma_filter_remove_nonmatching(old_txs, k as int, expense_leg_of(trm));
                        lemma_filter_remove_nonmatching(old_txs, k as int, income_leg_of(trm));
                        assert forall|kk: int|
                            0 <= kk < new_txs.len() && (#[trigger] new_txs[kk]).transfer_id
                                == Some(trm.id) implies is_expense_leg(new_txs[kk], trm)
                            || is_income_leg(new_txs[kk], trm) by {
                            let k0 = if kk < k as int { kk } else { kk + 1 };
                            assert(new_txs[kk] == old_txs[k0]);
                        }
                    }
                    assert forall|a: Account|
                        #[trigger] balance_of(a, new_txs) == balance_of(a, old_txs)
                            - crate::balance::balance_contribution(
                            a,
                            old_txs[k as int].account_id,
                            old_txs[k as int].tx_type,
                            old_txs[k as int].amount as int,
                        ) by {
                        crate::balance::lemma_balance_remove(a, old_txs, k as int);
                    }
                }
                Ok(())
            },
        }
    }
}

} // verus!
