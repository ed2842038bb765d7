use vstd::prelude::*;
use crate::model::{Account, AccountType, Transaction, TxType, MAX_AMOUNT};
use crate::model::valid_transaction;

verus! {

// ---------------------------------------------------------------------------
// Conditional amount sums
// ---------------------------------------------------------------------------

/// The sum of the amounts of the transactions satisfying `p`, in order.
pub open spec fn sum_if(txs: Seq<Transaction>, p: spec_fn(Transaction) -> bool) -> int
    decreases txs.len(),
{
    if txs.len() == 0 {
        0
    } else {
        sum_if(txs.drop_last(), p) + if p(txs.last()) {
            txs.last().amount as int
        } else {
            0
        }
    }
}

/// Selects the transactions of one account with one transaction type.
pub open spec fn for_account(aid: i64, ty: TxType) -> spec_fn(Transaction) -> bool {
    |t: Transaction| t.account_id == aid && t.tx_type == ty
}

/// Selects every transaction of one account.
pub open spec fn belongs_to(aid: i64) -> spec_fn(Transaction) -> bool {
    |t: Transaction| t.account_id == aid
}

/// Selects every transaction.
pub open spec fn any_tx() -> spec_fn(Transaction) -> bool {
    |t: Transaction| true
}

/// The summed income amounts of one account.
pub open spec fn sum_income(txs: Seq<Transaction>, aid: i64) -> int {
    sum_if(txs, for_account(aid, TxType::Income))
}

/// The summed expense amounts of one account.
pub open spec fn sum_expense(txs: Seq<Transaction>, aid: i64) -> int {
    sum_if(txs, for_account(aid, TxType::Expense))
}

/// The sum of every transaction amount in the ledger.
pub open spec fn tx_total(txs: Seq<Transaction>) -> int {
    sum_if(txs, any_tx())
}

/// An account's derived balance. For credit accounts it is the amount
/// currently owed: summed expenses minus summed income payments, with the
/// opening balance playing no part. For every other account type it is the
/// opening balance plus summed income minus summed expenses.
pub open spec fn balance_of(a: Account, txs: Seq<Transaction>) -> int {
    if a.account_type == AccountType::Credit {
        sum_expense(txs, a.id) - sum_income(txs, a.id)
    } else {
        a.opening_balance + sum_income(txs, a.id) - sum_expense(txs, a.id)
    }
}

/// All transaction amounts sit in `[0, MAX_AMOUNT]`.
pub open spec fn amounts_valid(txs: Seq<Transaction>) -> bool {
    forall|k: int| 0 <= k < txs.len() ==> #[trigger] valid_transaction(txs[k])
}

// ---------------------------------------------------------------------------
// Sum lemmas
// ---------------------------------------------------------------------------

/// Appending one transaction adds its amount to a conditional sum exactly
/// when the condition selects it.
pub proof fn lemma_sum_if_push(txs: Seq<Transaction>, p: spec_fn(Transaction) -> bool, x: Transaction)
    ensures
        sum_if(txs.push(x), p) == sum_if(txs, p) + if p(x) {
            x.amount as int
        } else {
            0
        },
{
    assert(txs.push(x).drop_last() =~= txs);
    assert(txs.push(x).last() == x);
}

/// Removing one transaction subtracts its amount from a conditional sum
/// exactly when the condition selects it.
pub proof fn lemma_sum_if_remove(txs: Seq<Transaction>, p: spec_fn(Transaction) -> bool, i: int)
    requires
        0 <= i < txs.len(),
    ensures
        sum_if(txs.remove(i), p) == sum_if(txs, p) - if p(txs[i]) {
            txs[i].amount as int
        } else {
            0
        },
    decreases txs.len(),
{
    if i == txs.len() - 1 {
        assert(txs.remove(i) =~= txs.drop_last());
    } else {
        assert(txs.remove(i).drop_last() =~= txs.drop_last().remove(i));
        assert(txs.remove(i).last() == txs.last());
        lemma_sum_if_remove(txs.drop_last(), p, i);
    }
}

/// A conditional sum over valid transactions is non-negative and at most
/// `MAX_AMOUNT` per transaction.
pub proof fn lemma_sum_if_bounds(txs: Seq<Transaction>, p: spec_fn(Transaction) -> bool)
    requires
        amounts_valid(txs),
    ensures
        0 <= sum_if(txs, p) <= txs.len() * MAX_AMOUNT,
    decreases txs.len(),
{
    if txs.len() == 0 {
    } else {
        assert(amounts_valid(txs.drop_last())) by {
            assert(forall|k: int|
                0 <= k < txs.drop_last().len() ==> txs.drop_last()[k] == txs[k]);
        }
        lemma_sum_if_bounds(txs.drop_last(), p);
        assert(valid_transaction(txs.last()));
        assert((txs.len() - 1) * MAX_AMOUNT + MAX_AMOUNT == txs.len() * MAX_AMOUNT) by (nonlinear_arith);
    }
}

/// A conditional sum that selects nothing is zero.
pub proof fn lemma_sum_if_zero(txs: Seq<Transaction>, p: spec_fn(Transaction) -> bool)
    requires
        forall|k: int| 0 <= k < txs.len() ==> !p(#[trigger] txs[k]),
    ensures
        sum_if(txs, p) == 0,
    decreases txs.len(),
{
    if txs.len() == 0 {
    } else {
        assert(forall|k: int| 0 <= k < txs.drop_last().len() ==> txs.drop_last()[k] == txs[k]);
        lemma_sum_if_zero(txs.drop_last(), p);
        assert(!p(txs[txs.len() - 1]));
    }
}

/// Inserting one transaction adds its amount to a conditional sum exactly
/// when the condition selects it.
pub proof fn lemma_sum_if_insert(txs: Seq<Transaction>, p: spec_fn(Transaction) -> bool, i: int, x: Transaction)
    requires
        0 <= i <= txs.len(),
    ensures
        sum_if(txs.insert(i, x), p) == sum_if(txs, p) + if p(x) {
            x.amount as int
        } else {
            0
        },
    decreases txs.len(),
{
    if i == txs.len() {
        assert(txs.insert(i, x) =~= txs.push(x));
        lemma_sum_if_push(txs, p, x);
    } else {
        assert(txs.insert(i, x).drop_last() =~= txs.drop_last().insert(i, x));
        assert(txs.insert(i, x).last() == txs.last());
        lemma_sum_if_insert(txs.drop_last(), p, i, x);
    }
}

/// What one transaction contributes to the balance of the account `a`:
/// nothing when it belongs to another account; on a credit account expenses
/// raise the amount owed and income payments lower it; on any other account
/// income raises the balance and expenses lower it.
pub open spec fn balance_contribution(a: Account, aid: i64, ty: TxType, amount: int) -> int {
    if a.id != aid {
        0
    } else if a.account_type == AccountType::Credit {
        if ty == TxType::Expense {
            amount
        } else {
            -amount
        }
    } else {
        if ty == TxType::Income {
            amount
        } else {
            -amount
        }
    }
}

/// Appending a transaction shifts every account's balance by that
/// transaction's contribution.
pub proof fn lemma_balance_push(a: Account, txs: Seq<Transaction>, x: Transaction)
    ensures
        balance_of(a, txs.push(x)) == balance_of(a, txs) + balance_contribution(
            a,
            x.account_id,
            x.tx_type,
            x.amount as int,
        ),
{
    lemma_sum_if_push(txs, for_account(a.id, TxType::Income), x);
    lemma_sum_if_push(txs, for_account(a.id, TxType::Expense), x);
}

/// Removing a transaction shifts every account's balance back by that
/// transaction's contribution.
pub proof fn lemma_balance_remove(a: Account, txs: Seq<Transaction>, i: int)
    requires
        0 <= i < txs.len(),
    ensures
        balance_of(a, txs.remove(i)) == balance_of(a, txs) - balance_contribution(
            a,
            txs[i].account_id,
            txs[i].tx_type,
            txs[i].amount as int,
        ),
{
    lemma_sum_if_remove(txs, for_account(a.id, TxType::Income), i);
    lemma_sum_if_remove(txs, for_account(a.id, TxType::Expense), i);
}

/// Replacing a transaction exchanges the old contribution for the new one.
pub proof fn lemma_balance_update(a: Account, txs: Seq<Transaction>, i: int, x: Transaction)
    requires
        0 <= i < txs.len(),
    ensures
        balance_of(a, txs.update(i, x)) == balance_of(a, txs) - balance_contribution(
            a,
            txs[i].account_id,
            txs[i].tx_type,
            txs[i].amount as int,
        ) + balance_contribution(a, x.account_id, x.tx_type, x.amount as int),
{
    assert(txs.update(i, x) =~= txs.remove(i).insert(i, x));
    lemma_balance_remove(a, txs, i);
    lemma_sum_if_insert(txs.remove(i), for_account(a.id, TxType::Income), i, x);
    lemma_sum_if_insert(txs.remove(i), for_account(a.id, TxType::Expense), i, x);
}

/// What a transfer's pair of legs does to one balance, read off the two
/// contributions: a non-credit source account falls by the amount, a
/// non-credit destination account rises by it, a credit account moves the
/// opposite way (owing more when money leaves it, less when it is paid),
/// and every other account is untouched.
pub proof fn lemma_transfer_balance_delta(
    a: Account,
    from_account_id: i64,
    to_account_id: i64,
    amount: int,
)
    requires
        from_account_id != to_account_id,
    ensures
        a.id == from_account_id && a.account_type != AccountType::Credit ==> balance_contribution(
            a,
            from_account_id,
            TxType::Expense,
            amount,
        ) + balance_contribution(a, to_account_id, TxType::Income, amount) == -amount,
        a.id == to_account_id && a.account_type != AccountType::Credit ==> balance_contribution(
            a,
            from_account_id,
            TxType::Expense,
            amount,
        ) + balance_contribution(a, to_account_id, TxType::Income, amount) == amount,
        a.id == from_account_id && a.account_type == AccountType::Credit ==> balance_contribution(
            a,
            from_account_id,
            TxType::Expense,
            amount,
        ) + balance_contribution(a, to_account_id, TxType::Income, amount) == amount,
        a.id == to_account_id && a.account_type == AccountType::Credit ==> balance_contribution(
            a,
            from_account_id,
            TxType::Expense,
            amount,
        ) + balance_contribution(a, to_account_id, TxType::Income, amount) == -amount,
        a.id != from_account_id && a.id != to_account_id ==> balance_contribution(
            a,
            from_account_id,
            TxType::Expense,
            amount,
        ) + balance_contribution(a, to_account_id, TxType::Income, amount) == 0,
{
}

/// Every transaction is either income or expense, so one account's income
/// and expense sums partition its total.
pub proof fn lemma_sum_split_by_type(txs: Seq<Transaction>, aid: i64)
    ensures
        sum_if(txs, belongs_to(aid)) == sum_income(txs, aid) + sum_expense(txs, aid),
    decreases txs.len(),
{
    if txs.len() == 0 {
    } else {
        lemma_sum_split_by_type(txs.drop_last(), aid);
    }
}

/// The conjunction of two transaction conditions.
pub open spec fn conj(
    p: spec_fn(Transaction) -> bool,
    q: spec_fn(Transaction) -> bool,
) -> spec_fn(Transaction) -> bool {
    |t: Transaction| p(t) && q(t)
}

/// Conditions that agree on every listed transaction give the same sum.
pub proof fn lemma_sum_if_equiv_on(
    txs: Seq<Transaction>,
    p: spec_fn(Transaction) -> bool,
    q: spec_fn(Transaction) -> bool,
)
    requires
        forall|k: int| 0 <= k < txs.len() ==> p(#[trigger] txs[k]) == q(txs[k]),
    ensures
        sum_if(txs, p) == sum_if(txs, q),
    decreases txs.len(),
{
    if txs.len() == 0 {
    } else {
        assert(forall|k: int| 0 <= k < txs.drop_last().len() ==> txs.drop_last()[k] == txs[k]);
        lemma_sum_if_equiv_on(txs.drop_last(), p, q);
        assert(p(txs[txs.len() - 1]) == q(txs[txs.len() - 1]));
    }
}

/// Summing over a filtered sequence is summing over the original one with
/// the conjoined condition.
pub proof fn lemma_sum_if_filter(
    txs: Seq<Transaction>,
    q: spec_fn(Transaction) -> bool,
    p: spec_fn(Transaction) -> bool,
)
    ensures
        sum_if(txs.filter(q), p) == sum_if(txs, conj(q, p)),
    decreases txs.len(),
{
    reveal(Seq::filter);
    if txs.len() == 0 {
    } else {
        lemma_sum_if_filter(txs.drop_last(), q, p);
        if q(txs.last()) {
            lemma_sum_if_push(txs.drop_last().filter(q), p, txs.last());
        }
    }
}

/// A condition splits into the parts that do and do not satisfy a second
/// condition.
pub proof fn lemma_sum_if_split(
    txs: Seq<Transaction>,
    p: spec_fn(Transaction) -> bool,
    q: spec_fn(Transaction) -> bool,
    qn: spec_fn(Transaction) -> bool,
)
    requires
        forall|t: Transaction| #[trigger] qn(t) == !q(t),
    ensures
        sum_if(txs, p) == sum_if(txs, conj(q, p)) + sum_if(txs, conj(qn, p)),
    decreases txs.len(),
{
    if txs.len() == 0 {
    } else {
        lemma_sum_if_split(txs.drop_last(), p, q, qn);
        assert(qn(txs.last()) == !q(txs.last()));
    }
}

// ---------------------------------------------------------------------------
// Balance laws
// ---------------------------------------------------------------------------

/// For every non-credit account and every transaction history, including the
/// empty one, the balance is the opening balance plus summed income minus
/// summed expenses.
pub proof fn lemma_noncredit_balance_formula(a: Account, txs: Seq<Transaction>)
    requires
        a.account_type != AccountType::Credit,
    ensures
        balance_of(a, txs) == a.opening_balance + sum_income(txs, a.id) - sum_expense(txs, a.id),
{
}

/// For every credit account and every transaction history, the balance is
/// summed expenses minus summed income, independent of the opening balance:
/// two credit accounts differing only in their opening balance owe the same.
pub proof fn lemma_credit_balance_ignores_opening(a: Account, b: Account, txs: Seq<Transaction>)
    requires
        a.account_type == AccountType::Credit,
        b == (Account { opening_balance: b.opening_balance, ..a }),
    ensures
        balance_of(a, txs) == sum_expense(txs, a.id) - sum_income(txs, a.id),
        balance_of(b, txs) == balance_of(a, txs),
{
}

/// A balance is bounded by the opening balance plus the account's total
/// transaction volume.
pub proof fn lemma_balance_bound(a: Account, txs: Seq<Transaction>)
    requires
        amounts_valid(txs),
        -MAX_AMOUNT <= a.opening_balance <= MAX_AMOUNT,
    ensures
        -(MAX_AMOUNT + sum_if(txs, belongs_to(a.id))) <= balance_of(a, txs) <= MAX_AMOUNT + sum_if(
            txs,
            belongs_to(a.id),
        ),
{
    lemma_sum_split_by_type(txs, a.id);
    lemma_sum_if_bounds(txs, for_account(a.id, TxType::Income));
    lemma_sum_if_bounds(txs, for_account(a.id, TxType::Expense));
}

// ---------------------------------------------------------------------------
// Balance engine
// ---------------------------------------------------------------------------

/// Computes an account's balance from the full transaction list, applying
/// the credit or non-credit formula. Pure: reads and arithmetic only, and
/// recomputed on every request.
pub fn compute_balance(account: &Account, transactions: &Vec<Transaction>) -> (r: i128)
    requires
        amounts_valid(transactions@),
        -MAX_AMOUNT <= account.opening_balance <= MAX_AMOUNT,
    ensures
        r == balance_of(*account, transactions@),
{
    let ghost txs = transactions@;
    let mut income: i128 = 0;
    let mut expense: i128 = 0;
    let mut i: usize = 0;
    proof {
        assert(txs.take(0) =~= Seq::<Transaction>::empty());
    }
    while i < transactions.len()
        invariant
            0 <= i <= txs.len(),
            txs == transactions@,
            amounts_valid(txs),
            income == sum_if(txs.take(i as int), for_account(account.id, TxType::Income)),
            expense == sum_if(txs.take(i as int), for_account(account.id, TxType::Expense)),
            0 <= income <= (i as int) * MAX_AMOUNT,
            0 <= expense <= (i as int) * MAX_AMOUNT,
        decreases txs.len() - i,
    {
        let t = &transactions[i];
        proof {
            assert(txs.take(i + 1) =~= txs.take(i as int).push(txs[i as int]));
            lemma_sum_if_push(txs.take(i as int), for_account(account.id, TxType::Income), txs[i as int]);
            lemma_sum_if_push(txs.take(i as int), for_account(account.id, TxType::Expense), txs[i as int]);
            assert(valid_transaction(txs[i as int]));
            assert((i as int) * MAX_AMOUNT + MAX_AMOUNT == (i + 1) * MAX_AMOUNT) by (nonlinear_arith);
            assert((i + 1) * MAX_AMOUNT <= (usize::MAX as int) * MAX_AMOUNT) by (nonlinear_arith)
                requires
                    0 <= i,
                    i + 1 <= usize::MAX,
            ;
        }
        if t.account_id == account.id {
            match t.tx_type {
                TxType::Income => {
                    income = income + t.amount as i128;
                },
                TxType::Expense => {
                    expense = expense + t.amount as i128;
                },
            }
        }
        i = i + 1;
    }
    proof {
        assert(txs.take(txs.len() as int) =~= txs);
    }
    if matches!(account.account_type, AccountType::Credit) {
        expense - income
    } else {
        account.opening_balance as i128 + income - expense
    }
}

// ---------------------------------------------------------------------------
// Net worth
// ---------------------------------------------------------------------------

/// What one account contributes to net worth: nothing when archived,
/// its balance negated for credit (liability) accounts, its balance
/// otherwise.
pub open spec fn signed_balance(a: Account, txs: Seq<Transaction>) -> int {
    if !a.is_active {
        0
    } else if a.account_type == AccountType::Credit {
        -balance_of(a, txs)
    } else {
        balance_of(a, txs)
    }
}

/// Net worth: the sum of active asset-account balances minus the sum of
/// active credit-account balances.
pub open spec fn net_worth_of(accounts: Seq<Account>, txs: Seq<Transaction>) -> int
    decreases accounts.len(),
{
    if accounts.len() == 0 {
        0
    } else {
        net_worth_of(accounts.drop_last(), txs) + signed_balance(accounts.last(), txs)
    }
}

/// No two accounts share an id.
pub open spec fn distinct_account_ids(accounts: Seq<Account>) -> bool {
    forall|i: int, j: int|
        #![trigger accounts[i], accounts[j]]
        0 <= i < j < accounts.len() ==> accounts[i].id != accounts[j].id
}

/// All stored accounts satisfy their field constraints.
pub open spec fn accounts_valid(accounts: Seq<Account>) -> bool {
    forall|k: int|
        0 <= k < accounts.len() ==> #[trigger] crate::model::valid_account(accounts[k])
}

/// How many of the accounts carry the given id.
pub open spec fn id_count(accounts: Seq<Account>, aid: i64) -> int
    decreases accounts.len(),
{
    if accounts.len() == 0 {
        0
    } else {
        id_count(accounts.drop_last(), aid) + if accounts.last().id == aid {
            1int
        } else {
            0int
        }
    }
}

/// The summed transaction volume of each account, added over the accounts.
pub open spec fn per_account_total(accounts: Seq<Account>, txs: Seq<Transaction>) -> int
    decreases accounts.len(),
{
    if accounts.len() == 0 {
        0
    } else {
        per_account_total(accounts.drop_last(), txs) + sum_if(txs, belongs_to(accounts.last().id))
    }
}

proof fn lemma_id_count_bounds(accounts: Seq<Account>, aid: i64)
    ensures
        0 <= id_count(accounts, aid),
        distinct_account_ids(accounts) ==> id_count(accounts, aid) <= 1,
    decreases accounts.len(),
{
    if accounts.len() == 0 {
    } else {
        let dl = accounts.drop_last();
        lemma_id_count_bounds(dl, aid);
        if distinct_account_ids(accounts) {
            assert(distinct_account_ids(dl)) by {
                assert(forall|k: int| 0 <= k < dl.len() ==> dl[k] == accounts[k]);
            }
            if accounts.last().id == aid {
                lemma_id_count_of_absent(dl, aid, accounts);
            }
        }
    }
}

/// When no listed account carries the id, the count is zero.
proof fn lemma_id_count_of_absent(dl: Seq<Account>, aid: i64, whole: Seq<Account>)
    requires
        distinct_account_ids(whole),
        whole.len() >= 1,
        dl == whole.drop_last(),
        whole.last().id == aid,
    ensures
        id_count(dl, aid) == 0,
    decreases dl.len(),
{
    if dl.len() == 0 {
    } else {
        assert(dl.last() == whole[whole.len() - 2]);
        assert(dl.last().id != aid);
        let shorter = whole.remove(whole.len() - 2);
        assert(shorter.drop_last() =~= dl.drop_last());
        assert(shorter.last() == whole.last());
        assert(distinct_account_ids(shorter)) by {
            assert(forall|k: int|
                0 <= k < shorter.len() ==> shorter[k] == if k < whole.len() - 2 {
                    whole[k]
                } else {
                    whole[k + 1]
                });
        }
        lemma_id_count_of_absent(dl.drop_last(), aid, shorter);
    }
}

proof fn lemma_per_account_total_empty(accounts: Seq<Account>)
    ensures
        per_account_total(accounts, Seq::<Transaction>::empty()) == 0,
    decreases accounts.len(),
{
    if accounts.len() == 0 {
    } else {
        lemma_per_account_total_empty(accounts.drop_last());
    }
}

proof fn lemma_per_account_total_push_tx(accounts: Seq<Account>, txs: Seq<Transaction>, x: Transaction)
    ensures
        per_account_total(accounts, txs.push(x)) == per_account_total(accounts, txs) + id_count(
            accounts,
            x.account_id,
        ) * (x.amount as int),
    decreases accounts.len(),
{
    if accounts.len() == 0 {
    } else {
        lemma_per_account_total_push_tx(accounts.drop_last(), txs, x);
        lemma_sum_if_push(txs, belongs_to(accounts.last().id), x);
        let c = id_count(accounts.drop_last(), x.account_id);
        if accounts.last().id == x.account_id {
            assert((c + 1) * (x.amount as int) == c * (x.amount as int) + x.amount) by (nonlinear_arith);
        }
    }
}

/// Because every transaction belongs to exactly one account id, the summed
/// per-account volumes of accounts with distinct ids never exceed the
/// ledger's total volume.
proof fn lemma_per_account_total_le_total(accounts: Seq<Account>, txs: Seq<Transaction>)
    requires
        distinct_account_ids(accounts),
        amounts_valid(txs),
    ensures
        0 <= per_account_total(accounts, txs) <= tx_total(txs),
    decreases txs.len(),
{
    if txs.len() == 0 {
        lemma_per_account_total_empty(accounts);
        assert(txs =~= Seq::<Transaction>::empty());
    } else {
        let dl = txs.drop_last();
        let x = txs.last();
        assert(amounts_valid(dl)) by {
            assert(forall|k: int| 0 <= k < dl.len() ==> dl[k] == txs[k]);
        }
        lemma_per_account_total_le_total(accounts, dl);
        assert(txs =~= dl.push(x));
        lemma_per_account_total_push_tx(accounts, dl, x);
        lemma_id_count_bounds(accounts, x.account_id);
        assert(valid_transaction(txs[txs.len() - 1]));
        let c = id_count(accounts, x.account_id);
        assert(c * (x.amount as int) <= x.amount as int && 0 <= c * (x.amount as int)) by (nonlinear_arith)
            requires
                0 <= c <= 1,
                0 <= x.amount,
        ;
    }
}

/// Net worth is bounded by one `MAX_AMOUNT` per account plus the ledger's
/// total transaction volume.
pub proof fn lemma_net_worth_bound(accounts: Seq<Account>, txs: Seq<Transaction>)
    requires
        distinct_account_ids(accounts),
        accounts_valid(accounts),
        amounts_valid(txs),
    ensures
        -(accounts.len() * MAX_AMOUNT + tx_total(txs)) <= net_worth_of(accounts, txs) <= accounts.len()
            * MAX_AMOUNT + tx_total(txs),
{
    lemma_net_worth_bound_inner(accounts, txs);
    lemma_per_account_total_le_total(accounts, txs);
}

proof fn lemma_net_worth_bound_inner(accounts: Seq<Account>, txs: Seq<Transaction>)
    requires
        accounts_valid(accounts),
        amounts_valid(txs),
    ensures
        -(accounts.len() * MAX_AMOUNT + per_account_total(accounts, txs)) <= net_worth_of(
            accounts,
            txs,
        ) <= accounts.len() * MAX_AMOUNT + per_account_total(accounts, txs),
    decreases accounts.len(),
{
    if accounts.len() == 0 {
    } else {
        let dl = accounts.drop_last();
        let a = accounts.last();
        assert(accounts_valid(dl)) by {
            assert(forall|k: int| 0 <= k < dl.len() ==> dl[k] == accounts[k]);
        }
        lemma_net_worth_bound_inner(dl, txs);
        assert(crate::model::valid_account(accounts[accounts.len() - 1]));
        lemma_balance_bound(a, txs);
        lemma_sum_if_bounds(txs, belongs_to(a.id));
        assert((accounts.len() - 1) * MAX_AMOUNT + MAX_AMOUNT == accounts.len() * MAX_AMOUNT) by (nonlinear_arith);
    }
}

/// Computes net worth over the given accounts: active accounts only, asset
/// balances added, credit balances subtracted.
pub fn net_worth(accounts: &Vec<Account>, transactions: &Vec<Transaction>) -> (r: i128)
    requires
        distinct_account_ids(accounts@),
        accounts_valid(accounts@),
        amounts_valid(transactions@),
    ensures
        r == net_worth_of(accounts@, transactions@),
{
    let ghost accs = accounts@;
    let ghost txs = transactions@;
    let n_txs = transactions.len();
    let mut acc: i128 = 0;
    let mut i: usize = 0;
    proof {
        assert(accs.take(0) =~= Seq::<Account>::empty());
    }
    while i < accounts.len()
        invariant
            0 <= i <= accs.len(),
            accs == accounts@,
            txs == transactions@,
            txs.len() == n_txs,
            distinct_account_ids(accs),
            accounts_valid(accs),
            amounts_valid(txs),
            acc == net_worth_of(accs.take(i as int), txs),
        decreases accs.len() - i,
    {
        let a = &accounts[i];
        proof {
            let pre = accs.take(i as int);
            let post = accs.take(i + 1);
            assert(post.drop_last() =~= pre);
            assert(post.last() == accs[i as int]);
            assert(distinct_account_ids(pre)) by {
                assert(forall|k: int| 0 <= k < pre.len() ==> pre[k] == accs[k]);
            }
            assert(distinct_account_ids(post)) by {
                assert(forall|k: int| 0 <= k < post.len() ==> post[k] == accs[k]);
            }
            assert(accounts_valid(pre)) by {
                assert(forall|k: int| 0 <= k < pre.len() ==> pre[k] == accs[k]);
            }
            assert(accounts_valid(post)) by {
                assert(forall|k: int| 0 <= k < post.len() ==> post[k] == accs[k]);
            }
            assert(crate::model::valid_account(accs[i as int]));
            lemma_balance_bound(accs[i as int], txs);
            lemma_sum_if_bounds(txs, belongs_to(accs[i as int].id));
            lemma_net_worth_bound(pre, txs);
            lemma_net_worth_bound(post, txs);
            lemma_sum_if_bounds(txs, any_tx());
            assert(pre.len() * MAX_AMOUNT <= (usize::MAX as int) * MAX_AMOUNT) by (nonlinear_arith)
                requires
                    0 <= pre.len() <= usize::MAX as int,
            ;
            assert(post.len() * MAX_AMOUNT <= (usize::MAX as int) * MAX_AMOUNT) by (nonlinear_arith)
                requires
                    0 <= post.len() <= usize::MAX as int,
            ;
            assert(txs.len() * MAX_AMOUNT <= (usize::MAX as int) * MAX_AMOUNT) by (nonlinear_arith)
                requires
                    0 <= txs.len() <= usize::MAX as int,
            ;
        }
        let contribution: i128 = if a.is_active {
            let b = compute_balance(a, transactions);
            if matches!(a.account_type, AccountType::Credit) {
                -b
            } else {
                b
            }
        } else {
            0
        };
        acc = acc + contribution;
        i = i + 1;
    }
    proof {
        assert(accs.take(accs.len() as int) =~= accs);
    }
    acc
}

} // verus!
