//! Expenses as Splitwise reports them.

use vstd::prelude::*;

use crate::decimal::{decimal, to_decimal};
use crate::models::cents::Cents;
use crate::models::id::ID;

verus! {

/// A debt that settles part of an expense: `from` owes `to` the amount.
#[derive(Debug)]
pub struct Repayment {
    pub from: i64,
    pub to: i64,
    pub amount: Cents,
}

/// A Splitwise user.
#[derive(Debug)]
pub struct User {
    pub id: i64,
    pub first_name: String,
    pub last_name: String,
}

/// How a user's name is shown: first name, a space, last name.
pub open spec fn full_name_of(u: User) -> Seq<char> {
    u.first_name@ + seq![' '] + u.last_name@
}

impl User {
    /// The user's first and last name, separated by a space.
    pub fn full_name(&self) -> (r: String)
        ensures
            r@ == full_name_of(*self),
    {
        let mut r = self.first_name.clone();
        proof { reveal_strlit(" "); }
        r.append(" ");
        r.append(self.last_name.as_str());
        r
    }
}

/// One user's part in an expense.
#[derive(Debug)]
pub struct Share {
    pub user: User,
    pub user_id: i64,
    pub paid_share: Cents,
    pub owed_share: Cents,
    pub net_balance: Cents,
}

/// An expense or a payment recorded in Splitwise.
#[derive(Debug)]
pub struct Expense {
    pub id: i64,
    pub group_id: i64,
    pub description: String,
    pub payment: bool,
    pub cost: Cents,
    pub repayments: Vec<Repayment>,
    pub date: String,
    pub created_at: String,
    pub created_by: User,
    pub updated_at: String,
    pub users: Vec<Share>,
}

/// The expenses of one listing.
#[derive(Debug)]
pub struct Expenses {
    pub expenses: Vec<Expense>,
}

impl ID for Expense {
    fn id(&self) -> (r: String)
        ensures
            r@ == decimal(self.id as int),
    {
        to_decimal(self.id)
    }
}

impl Clone for Repayment {
    fn clone(&self) -> (r: Self)
        ensures
            r == *self,
    {
        Repayment { from: self.from, to: self.to, amount: self.amount }
    }
}

impl Clone for User {
    fn clone(&self) -> (r: Self)
        ensures
            r == *self,
    {
        User { id: self.id, first_name: self.first_name.clone(), last_name: self.last_name.clone() }
    }
}

impl Clone for Share {
    fn clone(&self) -> (r: Self)
        ensures
            r == *self,
    {
        Share {
            user: self.user.clone(),
            user_id: self.user_id,
            paid_share: self.paid_share,
            owed_share: self.owed_share,
            net_balance: self.net_balance,
        }
    }
}

} // verus!
