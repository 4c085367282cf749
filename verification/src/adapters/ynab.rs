//! The request that creates transactions in a YNAB budget.

use vstd::prelude::*;

use crate::models::ynab::{Transaction, Transactions};

verus! {

/// Where the transactions of a budget are created.
pub open spec fn transactions_url_spec(budget_id: Seq<char>) -> Seq<char> {
    "https://api.youneedabudget.com/v1/budgets/"@ + budget_id + "/transactions"@
}

/// The address of the transactions of the budget `budget_id`.
pub fn transactions_url(budget_id: &str) -> (url: String)
    ensures
        url@ == transactions_url_spec(budget_id@),
{
    let mut url = String::from_str("https://api.youneedabudget.com/v1/budgets/");
    url.append(budget_id);
    url.append("/transactions");
    url
}

/// The address and body of the request that creates `transactions`; `None` when there
/// are none, for then no request is made.
pub fn plan_create_transactions(budget_id: &str, transactions: Vec<Transaction>) -> (r: Option<
    (String, Transactions),
>)
    ensures
        transactions@.len() == 0 <==> r is None,
        r matches Some((url, body)) ==> url@ == transactions_url_spec(budget_id@)
            && body.transactions@ == transactions@,
{
    if transactions.len() == 0 {
        return None;
    }
    Some((transactions_url(budget_id), Transactions { transactions }))
}

/// The status YNAB answers a creation with: `201 Created`.
pub fn is_created(status: u16) -> (b: bool)
    ensures
        b == (status == 201),
{
    status == 201
}

} // verus!
