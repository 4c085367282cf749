//! What is kept of an expense once it has been turned into transactions.

use vstd::prelude::*;

use crate::decimal::{decimal, to_decimal};
use crate::models::cents::Cents;
use crate::models::id::ID;
use crate::models::splitwise::{Expense, Repayment, Share, User};

verus! {

/// A processed expense, keyed by the text of its id.
#[derive(Debug)]
pub struct Record {
    pub id: String,
    pub group_id: i64,
    pub description: String,
    pub payment: bool,
    pub cost: Cents,
    pub repayments: Vec<Repayment>,
    pub date: String,
    pub created_at: String,
    pub created_by: User,
    pub updated_at: String,
    pub users: Vec<Share>,
}

/// `r` is the record of `expense`: the same fields, with the id as decimal text.
pub open spec fn is_record_of(r: Record, expense: Expense) -> bool {
    &&& r.id@ == decimal(expense.id as int)
    &&& r.group_id == expense.group_id
    &&& r.description == expense.description
    &&& r.payment == expense.payment
    &&& r.cost == expense.cost
    &&& r.repayments@ == expense.repayments@
    &&& r.date == expense.date
    &&& r.created_at == expense.created_at
    &&& r.created_by == expense.created_by
    &&& r.updated_at == expense.updated_at
    &&& r.users@ == expense.users@
}

impl ID for Record {
    fn id(&self) -> (r: String)
        ensures
            r@ == self.id@,
    {
        self.id.clone()
    }
}

impl Record {
    /// The record of an expense: its fields, with the id as decimal text.
    pub fn from(expense: &Expense) -> (r: Record)
        ensures
            is_record_of(r, *expense),
    {
        let repayments = expense.repayments.clone();
        let users = expense.users.clone();
        assert(repayments@ =~= expense.repayments@);
        assert(users@ =~= expense.users@);
        Record {
            id: to_decimal(expense.id),
            group_id: expense.group_id,
            description: expense.description.clone(),
            payment: expense.payment,
            cost: expense.cost,
            repayments,
            date: expense.date.clone(),
            created_at: expense.created_at.clone(),
            created_by: expense.created_by.clone(),
            updated_at: expense.updated_at.clone(),
            users,
        }
    }
}

} // verus!
