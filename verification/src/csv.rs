use vstd::prelude::*;
use vstd::string::StrSliceExecFns;
use vstd::string::StringExecFns;
use crate::filter::{tx_key_fn, tx_match_fn, TransactionFilter};
use crate::ledger::{account_by_id, account_exists, category_by_id, category_exists, Ledger};
use crate::model::{valid_date, Date, Transaction};
use crate::model::tx_type_label;
use crate::order::sort_desc;
use crate::text::{digit_char, period_label_chars, push_char};

verus! {

// The export sink takes the ledger's rows as comma-separated text with a
// fixed header. Text fields use standard quoting: a field holding a comma,
// a quote or a line break is wrapped in quotes, embedded quotes doubled.

pub open spec fn is_csv_special(c: char) -> bool {
    c == ',' || c == '"' || c == '\n' || c == '\r'
}

/// The field's characters with every quote doubled.
pub open spec fn csv_escape(s: Seq<char>) -> Seq<char>
    decreases s.len(),
{
    if s.len() == 0 {
        s
    } else {
        csv_escape(s.drop_last()) + if s.last() == '"' {
            seq!['"', '"']
        } else {
            seq![s.last()]
        }
    }
}

/// A field as it appears in the output: quoted exactly when it holds a
/// comma, a quote or a line break.
pub open spec fn csv_field(s: Seq<char>) -> Seq<char> {
    if exists|i: int| 0 <= i < s.len() && is_csv_special(s[i]) {
        seq!['"'] + csv_escape(s) + seq!['"']
    } else {
        s
    }
}

/// The decimal digits of a non-negative number.
pub open spec fn dec_digits(n: nat) -> Seq<char>
    decreases n,
{
    if n < 10 {
        seq![digit_char(n as int)]
    } else {
        dec_digits(n / 10) + seq![digit_char(n as int % 10)]
    }
}

/// An amount rendered as major currency units with two decimals: the
/// minor-unit value split at one hundred, as the export has always shown
/// amounts.
pub open spec fn money_chars(n: nat) -> Seq<char> {
    dec_digits(n / 100) + seq!['.', digit_char((n % 100 / 10) as int), digit_char((n % 100 % 10) as int)]
}

/// A date formatted as `YYYY-MM-DD`.
pub open spec fn date_chars(d: Date) -> Seq<char> {
    period_label_chars(d.year as int, d.month as int) + seq![
        '-',
        digit_char(d.day as int / 10 % 10),
        digit_char(d.day as int % 10),
    ]
}

/// The first half of a row: id, account name and category name.
pub open spec fn csv_row_front(
    t: Transaction,
    accounts: Seq<crate::model::Account>,
    categories: Seq<crate::model::Category>,
) -> Seq<char> {
    dec_digits(t.id as nat) + seq![','] + csv_field(account_by_id(accounts, t.account_id).name@)
        + seq![','] + (match t.category_id {
        Option::Some(c) => csv_field(category_by_id(categories, c).name@),
        Option::None => Seq::<char>::empty(),
    }) + seq![',']
}

/// The second half of a row: type, amount, date, notes and the recurring
/// flag.
pub open spec fn csv_row_back(t: Transaction) -> Seq<char> {
    tx_type_label(t.tx_type) + seq![','] + money_chars(t.amount as nat) + seq![','] + date_chars(
        t.date,
    ) + seq![','] + (match t.notes {
        Option::Some(n) => csv_field(n@),
        Option::None => Seq::<char>::empty(),
    }) + seq![','] + seq![if t.is_recurring {
        '1'
    } else {
        '0'
    }]
}

/// One exported row: id, account name, category name (empty when
/// uncategorized), type, amount in major units with two decimals, date,
/// notes and the recurring flag.
pub open spec fn csv_row(
    t: Transaction,
    accounts: Seq<crate::model::Account>,
    categories: Seq<crate::model::Category>,
) -> Seq<char> {
    csv_row_front(t, accounts, categories) + csv_row_back(t)
}

/// The exported rows, one line per transaction, each preceded by a line
/// break.
pub open spec fn csv_rows(
    txs: Seq<Transaction>,
    accounts: Seq<crate::model::Account>,
    categories: Seq<crate::model::Category>,
) -> Seq<char>
    decreases txs.len(),
{
    if txs.len() == 0 {
        Seq::<char>::empty()
    } else {
        csv_rows(txs.drop_last(), accounts, categories) + seq!['\n'] + csv_row(
            txs.last(),
            accounts,
            categories,
        )
    }
}

fn digit_char_x(d: u64) -> (r: char)
    requires
        d < 10,
    ensures
        r == digit_char(d as int),
{
    ((48 + d) as u8) as char
}

/// Appends the decimal digits of `n`.
fn push_u64(out: &mut String, n: u64)
    ensures
        final(out)@ == old(out)@ + dec_digits(n as nat),
    decreases n,
{
    if n < 10 {
        push_char(out, digit_char_x(n));
        proof {
            assert(out@ =~= old(out)@ + dec_digits(n as nat));
        }
    } else {
        push_u64(out, n / 10);
        push_char(out, digit_char_x(n % 10));
        proof {
            assert(out@ =~= old(out)@ + dec_digits(n as nat));
        }
    }
}

/// Appends an amount as major units with two decimals.
fn push_money(out: &mut String, n: u64)
    ensures
        final(out)@ == old(out)@ + money_chars(n as nat),
{
    push_u64(out, n / 100);
    push_char(out, '.');
    push_char(out, digit_char_x(n % 100 / 10));
    push_char(out, digit_char_x(n % 100 % 10));
    proof {
        assert(out@ =~= old(out)@ + money_chars(n as nat));
    }
}

/// Appends one field with standard quoting.
fn push_csv_field(out: &mut String, s: &str)
    ensures
        final(out)@ == old(out)@ + csv_field(s@),
{
    let n = s.unicode_len();
    let mut special = false;
    let mut i: usize = 0;
    while i < n
        invariant
            0 <= i <= n,
            n == s@.len(),
            special == exists|q: int| 0 <= q < i && is_csv_special(s@[q]),
        decreases n - i,
    {
        let c = s.get_char(i);
        if c == ',' || c == '"' || c == '\n' || c == '\r' {
            special = true;
        }
        i = i + 1;
    }
    if !special {
        out.append(s);
        proof {
            assert(csv_field(s@) == s@);
        }
    } else {
        let ghost start = out@;
        push_char(out, '"');
        let mut j: usize = 0;
        proof {
            assert(csv_escape(s@.take(0)) =~= Seq::<char>::empty());
            assert(out@ =~= start + seq!['"'] + csv_escape(s@.take(0)));
        }
        while j < n
            invariant
                0 <= j <= n,
                n == s@.len(),
                out@ == start + seq!['"'] + csv_escape(s@.take(j as int)),
            decreases n - j,
        {
            let c = s.get_char(j);
            proof {
                assert(s@.take(j + 1).drop_last() =~= s@.take(j as int));
                assert(s@.take(j + 1).last() == s@[j as int]);
            }
            if c == '"' {
                push_char(out, '"');
                push_char(out, '"');
            } else {
                push_char(out, c);
            }
            proof {
                assert(out@ =~= start + seq!['"'] + csv_escape(s@.take(j + 1)));
            }
            j = j + 1;
        }
        push_char(out, '"');
        proof {
            assert(s@.take(n as int) =~= s@);
            assert(out@ =~= start + csv_field(s@));
        }
    }
}

/// Appends a date as `YYYY-MM-DD`.
fn push_date(out: &mut String, d: &Date)
    requires
        valid_date(*d),
    ensures
        final(out)@ == old(out)@ + date_chars(*d),
{
    push_char(out, digit_char_x((d.year / 1000 % 10) as u64));
    push_char(out, digit_char_x((d.year / 100 % 10) as u64));
    push_char(out, digit_char_x((d.year / 10 % 10) as u64));
    push_char(out, digit_char_x((d.year % 10) as u64));
    push_char(out, '-');
    push_char(out, digit_char_x((d.month / 10 % 10) as u64));
    push_char(out, digit_char_x((d.month % 10) as u64));
    push_char(out, '-');
    push_char(out, digit_char_x((d.day / 10 % 10) as u64));
    push_char(out, digit_char_x((d.day % 10) as u64));
    proof {
        assert(out@ =~= old(out)@ + date_chars(*d));
    }
}

impl Ledger {
    /// Appends one exported row for the given transaction copy.
    #[verifier::rlimit(100)]
    fn push_row(&self, out: &mut String, t: &Transaction)
        requires
            self.wf(),
            account_exists(self.accounts@, t.account_id),
            t.category_id matches Some(c) ==> category_exists(self.categories@, c),
            valid_date(t.date),
            0 <= t.amount,
            0 <= t.id,
        ensures
            final(out)@ == old(out)@ + csv_row(*t, self.accounts@, self.categories@),
    {
        push_u64(out, t.id as u64);
        push_char(out, ',');
        match self.find_account(t.account_id) {
            Some(j) => {
                proof {
                    crate::ledger::lemma_account_by_id_index(self.accounts@, j as int);
                }
                push_csv_field(out, self.accounts[j].name.as_str());
            },
            None => {
                proof {
                    assert(false);
                }
            },
        }
        push_char(out, ',');
        match &t.category_id {
            Some(c) => {
                match self.find_category(*c) {
                    Some(j) => {
                        proof {
                            crate::ledger::lemma_category_by_id_index(self.categories@, j as int);
                        }
                        push_csv_field(out, self.categories[j].name.as_str());
                    },
                    None => {
                        proof {
                            assert(false);
                        }
                    },
                }
            },
            None => {},
        }
        push_char(out, ',');
        proof {
            assert(out@ =~= old(out)@ + csv_row_front(*t, self.accounts@, self.categories@));
        }
        let ghost mid = out@;
        out.append(t.tx_type.label());
        push_char(out, ',');
        push_money(out, t.amount as u64);
        push_char(out, ',');
        push_date(out, &t.date);
        push_char(out, ',');
        match &t.notes {
            Some(n) => {
                push_csv_field(out, n.as_str());
            },
            None => {},
        }
        push_char(out, ',');
        push_char(out, if t.is_recurring {
            '1'
        } else {
            '0'
        });
        proof {
            assert(out@ =~= mid + csv_row_back(*t));
            assert(out@ =~= old(out)@ + csv_row(*t, self.accounts@, self.categories@));
        }
    }

    /// The comma-separated export of every transaction, newest first, with
    /// the fixed header line. Amounts are written as major units with two
    /// decimals; the account and category names and the notes are quoted
    /// where needed.
    #[verifier::rlimit(100)]
    pub fn export_transactions_csv(&self) -> (r: String)
        requires
            self.wf(),
        ensures
            r@ == "id,account,category,type,amount,date,notes,is_recurring"@ + csv_rows(
                sort_desc(self.transactions@, tx_key_fn()),
                self.accounts@,
                self.categories@,
            ),
    {
        let all = TransactionFilter::any();
        let cap = self.transactions.len();
        let rows = self.list_limited(&all, cap);
        let ghost txs = self.transactions@;
        let ghost sorted = sort_desc(txs, tx_key_fn());
        proof {
            let pred = tx_match_fn(self.accounts@, self.categories@, all);
            assert forall|k: int| 0 <= k < txs.len() implies pred(#[trigger] txs[k]) by {}
            crate::filter::lemma_filter_true(txs, pred);
            crate::order::lemma_sort_desc_sorted(txs, tx_key_fn());
            assert(rows@.len() == sorted.len());
            // every listed row is a stored transaction, so its account and
            // category references resolve
            broadcast use vstd::seq_lib::group_to_multiset_ensures;

            crate::order::lemma_sort_desc_multiset(txs, tx_key_fn());
            assert forall|k: int|
                0 <= k < sorted.len() implies account_exists(
                self.accounts@,
                (#[trigger] sorted[k]).account_id,
            ) && valid_date(sorted[k].date) && 0 <= sorted[k].amount && 1 <= sorted[k].id && (
            sorted[k].category_id matches Some(c) ==> category_exists(self.categories@, c)) by {
                assert(sorted.contains(sorted[k]));
                assert(sorted.to_multiset().count(sorted[k]) > 0);
                assert(txs.to_multiset().count(sorted[k]) > 0);
                assert(txs.contains(sorted[k]));
                let m = choose|m: int| 0 <= m < txs.len() && txs[m] == sorted[k];
            }
        }
        let mut out: String = "id,account,category,type,amount,date,notes,is_recurring".to_owned();
        let ghost header = out@;
        let mut i: usize = 0;
        proof {
            assert(csv_rows(sorted.take(0), self.accounts@, self.categories@) =~= Seq::<
                char,
            >::empty());
            assert(out@ =~= header + csv_rows(sorted.take(0), self.accounts@, self.categories@));
        }
        while i < rows.len()
            invariant
                self.wf(),
                0 <= i <= rows@.len(),
                txs == self.transactions@,
                sorted == sort_desc(txs, tx_key_fn()),
                rows@.len() == sorted.len(),
                forall|k: int|
                    0 <= k < rows@.len() ==> crate::ledger::reflects_transaction(
                        #[trigger] rows@[k],
                        sorted[k],
                    ),
                forall|k: int|
                    0 <= k < sorted.len() ==> account_exists(
                        self.accounts@,
                        (#[trigger] sorted[k]).account_id,
                    ) && valid_date(sorted[k].date) && 0 <= sorted[k].amount && 1 <= sorted[k].id
                        && (sorted[k].category_id matches Some(c) ==> category_exists(
                        self.categories@,
                        c,
                    )),
                out@ == header + csv_rows(sorted.take(i as int), self.accounts@, self.categories@),
            decreases rows@.len() - i,
        {
            let t = &rows[i];
            proof {
                assert(crate::ledger::reflects_transaction(rows@[i as int], sorted[i as int]));
            }
            push_char(&mut out, '\n');
            self.push_row(&mut out, t);
            proof {
                assert(csv_row(*t, self.accounts@, self.categories@) =~= csv_row(
                    sorted[i as int],
                    self.accounts@,
                    self.categories@,
                )) by {
                    match (t.notes, sorted[i as int].notes) {
                        (Option::Some(a), Option::Some(b)) => {
                            assert(a@ == b@);
                        },
                        _ => {},
                    }
                }
                assert(sorted.take(i + 1).drop_last() =~= sorted.take(i as int));
                assert(sorted.take(i + 1).last() == sorted[i as int]);
                assert(out@ =~= header + csv_rows(
                    sorted.take(i + 1),
                    self.accounts@,
                    self.categories@,
                ));
            }
            i = i + 1;
        }
        proof {
            assert(sorted.take(sorted.len() as int) =~= sorted);
        }
        out
    }
}

} // verus!
