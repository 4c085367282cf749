//! Transactions as YNAB takes them.

use vstd::prelude::*;

verus! {

/// A transaction to create in a YNAB budget. Amounts are in thousandths of a dollar.
#[derive(Debug, PartialEq, Eq)]
pub struct Transaction {
    pub account_id: String,
    pub date: String,
    pub amount: i64,
    pub payee_id: Option<String>,
    pub payee_name: Option<String>,
    pub memo: String,
    pub cleared: String,
    pub approved: bool,
}

/// A batch of transactions, the body of one request.
#[derive(Debug, PartialEq, Eq)]
pub struct Transactions {
    pub transactions: Vec<Transaction>,
}

/// A transaction with its text as characters.
pub struct TransactionView {
    pub account_id: Seq<char>,
    pub date: Seq<char>,
    pub amount: int,
    pub payee_id: Option<Seq<char>>,
    pub payee_name: Option<Seq<char>>,
    pub memo: Seq<char>,
    pub cleared: Seq<char>,
    pub approved: bool,
}

pub open spec fn text_option(o: Option<String>) -> Option<Seq<char>> {
    match o {
        Some(s) => Some(s@),
        None => None,
    }
}

impl View for Transaction {
    type V = TransactionView;

    open spec fn view(&self) -> TransactionView {
        TransactionView {
            account_id: self.account_id@,
            date: self.date@,
            amount: self.amount as int,
            payee_id: text_option(self.payee_id),
            payee_name: text_option(self.payee_name),
            memo: self.memo@,
            cleared: self.cleared@,
            approved: self.approved,
        }
    }
}

/// The views of a sequence of transactions.
pub open spec fn views(ts: Seq<Transaction>) -> Seq<TransactionView> {
    ts.map_values(|t: Transaction| t@)
}

} // verus!
