//! The expenses of the shop: recorded by hand, and counted against the gross
//! profit of their month.

use crate::clock::Timestamp;
use crate::error::{ErrorView, LedgerError};
use crate::ledger::{Expense, Ledger};
use crate::order::{orders, sorted_positions};
use vstd::prelude::*;

verus! {

impl Expense {
    /// A copy of the expense.
    pub fn duplicate(&self) -> (r: Expense)
        ensures
            r == *self,
    {
        Expense {
            id: self.id,
            spent_at: self.spent_at,
            period: self.period.clone(),
            category: self.category.clone(),
            amount: self.amount,
            note: self.note.clone(),
        }
    }
}

/// What a recorded expense leaves behind: one more expense with the next
/// identifier, which is reported.
pub open spec fn expense_added(
    pre: &Ledger,
    post: &Ledger,
    spent_at: Timestamp,
    period: Option<String>,
    category: Option<String>,
    amount: i64,
    note: Option<String>,
    id: i64,
) -> bool {
    &&& amount > 0
    &&& pre.next_expense_id < i64::MAX
    &&& id == pre.next_expense_id
    &&& post.next_expense_id == pre.next_expense_id + 1
    &&& post.expenses@.len() == pre.expenses@.len() + 1
    &&& post.expenses@.drop_last() == pre.expenses@
    &&& post.expenses@.last() == (Expense { id, spent_at, period, category, amount, note })
    &&& post.products == pre.products
    &&& post.same_sales(pre)
    &&& post.same_returns(pre)
    &&& post.same_transfers(pre)
}

/// Records an expense. The amount must be positive.
pub fn add_expense(
    ledger: &mut Ledger,
    spent_at: Timestamp,
    period: Option<String>,
    category: Option<String>,
    amount: i64,
    note: Option<String>,
) -> (r: Result<i64, LedgerError>)
    requires
        old(ledger).wf(),
    ensures
        final(ledger).wf(),
        match r {
            Ok(id) => expense_added(
                old(ledger),
                final(ledger),
                spent_at,
                period,
                category,
                amount,
                note,
                id,
            ),
            Err(e) => *final(ledger) == *old(ledger) && if amount <= 0 {
                e@ == ErrorView::AmountNotPositive
            } else {
                e@ == ErrorView::OutOfRange && old(ledger).next_expense_id == i64::MAX
            },
        },
{
    if amount <= 0 {
        return Err(LedgerError::AmountNotPositive);
    }
    if ledger.next_expense_id == i64::MAX {
        return Err(LedgerError::OutOfRange);
    }
    let id = ledger.next_expense_id;
    ledger.expenses.push(Expense { id, spent_at, period, category, amount, note });
    ledger.next_expense_id = id + 1;
    assert(ledger.expenses@.drop_last() =~= old(ledger).expenses@);
    Ok(id)
}

/// The expenses among the first `n` that do not carry the identifier.
pub open spec fn without_expense(expenses: Seq<Expense>, id: i64, n: nat) -> Seq<Expense>
    decreases n,
{
    if n == 0 {
        Seq::empty()
    } else {
        let rest = without_expense(expenses, id, (n - 1) as nat);
        if expenses[n - 1].id == id {
            rest
        } else {
            rest.push(expenses[n - 1])
        }
    }
}

/// A count as it is reported: capped at the largest `i64`.
pub open spec fn count_shown(n: int) -> int {
    if n > i64::MAX {
        i64::MAX as int
    } else {
        n
    }
}

/// Removes the expenses with the given identifier and reports how many there
/// were.
pub fn delete_expense(ledger: &mut Ledger, id: i64) -> (n: i64)
    requires
        old(ledger).wf(),
    ensures
        final(ledger).wf(),
        final(ledger).expenses@ == without_expense(
            old(ledger).expenses@,
            id,
            old(ledger).expenses@.len(),
        ),
        n == count_shown(old(ledger).expenses@.len() - final(ledger).expenses@.len()),
        final(ledger).next_expense_id == old(ledger).next_expense_id,
        final(ledger).products == old(ledger).products,
        final(ledger).same_sales(old(ledger)),
        final(ledger).same_returns(old(ledger)),
        final(ledger).same_transfers(old(ledger)),
{
    let mut kept: Vec<Expense> = Vec::new();
    let mut gone: i64 = 0;
    let mut i: usize = 0;
    while i < ledger.expenses.len()
        invariant
            i <= ledger.expenses.len(),
            *ledger == *old(ledger),
            kept@ == without_expense(ledger.expenses@, id, i as nat),
            kept@.len() <= i,
            gone == count_shown(i - kept@.len()),
        decreases ledger.expenses.len() - i,
    {
        if ledger.expenses[i].id == id {
            if gone < i64::MAX {
                gone += 1;
            }
        } else {
            kept.push(ledger.expenses[i].duplicate());
        }
        i += 1;
    }
    ledger.expenses = kept;
    gone
}

/// The key that expenses are listed by: later expenses first, and among
/// expenses of the same moment the later recorded first.
pub open spec fn expense_key(x: Expense) -> i128 {
    -(x.spent_at.key() * 0x1_0000_0000_0000_0000 + (x.id as int + 0x8000_0000_0000_0000))
        as i128
}

/// The keys of all expenses.
pub open spec fn expense_keys(expenses: Seq<Expense>) -> Seq<i128> {
    Seq::new(expenses.len(), |i: int| expense_key(expenses[i]))
}

/// Lists the expenses, the most recently spent first; among expenses of the
/// same moment, the one recorded later first.
pub fn list_expenses(ledger: &Ledger) -> (r: Vec<Expense>)
    ensures
        exists|order: Seq<usize>| #[trigger]
            orders(expense_keys(ledger.expenses@), order) && r@.len() == order.len() && forall|
                k: int,
            |
                0 <= k < order.len() ==> #[trigger] r@[k] == ledger.expenses@[order[k] as int],
{
    let mut keys: Vec<i128> = Vec::new();
    let mut i: usize = 0;
    while i < ledger.expenses.len()
        invariant
            i <= ledger.expenses.len(),
            keys@.len() == i,
            forall|j: int| 0 <= j < i ==> #[trigger] keys@[j] == expense_key(ledger.expenses@[j]),
        decreases ledger.expenses.len() - i,
    {
        let x = &ledger.expenses[i];
        let t: i128 = x.spent_at.rank() as i128;
        let low: i128 = x.id as i128 + 0x8000_0000_0000_0000;
        keys.push(-(t * 0x1_0000_0000_0000_0000 + low));
        i += 1;
    }
    assert(keys@ =~= expense_keys(ledger.expenses@));
    let order = sorted_positions(&keys);
    let mut out: Vec<Expense> = Vec::new();
    let mut k: usize = 0;
    while k < order.len()
        invariant
            k <= order.len(),
            orders(expense_keys(ledger.expenses@), order@),
            out@.len() == k,
            forall|j: int| 0 <= j < k ==> #[trigger] out@[j] == ledger.expenses@[order@[j] as int],
        decreases order.len() - k,
    {
        out.push(ledger.expenses[order[k]].duplicate());
        k += 1;
    }
    out
}

} // verus!
