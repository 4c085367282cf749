//! Turning Splitwise expenses into YNAB transactions.

use vstd::prelude::*;

use crate::models::cents::{fits_milli, Cents};
use crate::models::splitwise::{full_name_of, Expense, Share};
use crate::models::ynab::{views, Transaction, TransactionView};

verus! {

/// A YNAB account and the payee that transfers into it.
#[derive(Debug)]
pub struct YNABAccount {
    pub account_id: String,
    pub transfer_id: String,
}

/// The accounts that transactions go to, and whose Splitwise account is being followed.
#[derive(Debug)]
pub struct Config {
    /// The account that tracks what is owed through Splitwise.
    pub splitwise: YNABAccount,
    /// The account that expenses are paid from.
    pub expenses: YNABAccount,
    pub splitwise_user_id: i64,
}

/// How an expense is booked.
#[derive(Debug, Clone, Copy, PartialEq, Eq, Structural)]
pub enum Kind {
    /// An expense split between users.
    SharedExpense,
    /// A payment that the followed user made to settle up.
    SettleUp,
    /// A payment that someone else made to the followed user.
    Payment,
}

pub open spec fn classify_spec(user_id: i64, expense: Expense) -> Kind {
    if !expense.payment {
        Kind::SharedExpense
    } else if expense.created_by.id == user_id {
        Kind::SettleUp
    } else {
        Kind::Payment
    }
}

/// A payment, booked against `account_id` with the transfer payee `transfer_id`.
pub open spec fn payment_spec(
    account_id: Seq<char>,
    transfer_id: Seq<char>,
    expense: Expense,
) -> TransactionView {
    TransactionView {
        account_id,
        date: expense.date@,
        amount: -(expense.cost.0 * 10),
        payee_id: Some(transfer_id),
        payee_name: None,
        memo: full_name_of(expense.created_by) + " settling up"@,
        cleared: "cleared"@,
        approved: false,
    }
}

/// The index of the first share that belongs to `user_id`.
pub open spec fn first_share_of(shares: Seq<Share>, user_id: i64) -> Option<int>
    decreases shares.len(),
{
    if shares.len() == 0 {
        None
    } else {
        match first_share_of(shares.drop_last(), user_id) {
            Some(i) => Some(i),
            None => if shares.last().user_id == user_id {
                Some(shares.len() - 1)
            } else {
                None
            },
        }
    }
}

/// What the followed user paid toward an expense, when it is more than nothing.
pub open spec fn own_share_spec(user_id: i64, account_id: Seq<char>, expense: Expense) -> Seq<
    TransactionView,
> {
    match first_share_of(expense.users@, user_id) {
        Some(i) => if expense.users@[i].paid_share.0 > 0 {
            seq![
                TransactionView {
                    account_id,
                    date: expense.date@,
                    amount: -(expense.users@[i].paid_share.0 * 10),
                    payee_id: None,
                    payee_name: None,
                    memo: expense.description@,
                    cleared: "uncleared"@,
                    approved: false,
                },
            ]
        } else {
            seq![]
        },
        None => seq![],
    }
}

/// The balance of another user's share, booked against the Splitwise account.
pub open spec fn other_share_spec(account_id: Seq<char>, expense: Expense, share: Share) -> TransactionView {
    TransactionView {
        account_id,
        date: expense.date@,
        amount: -(share.net_balance.0 * 10),
        payee_id: None,
        payee_name: Some(full_name_of(share.user)),
        memo: expense.description@,
        cleared: "cleared"@,
        approved: false,
    }
}

/// One transaction for each share of `shares` that is not the followed user's, in order.
pub open spec fn other_shares_spec(
    user_id: i64,
    account_id: Seq<char>,
    expense: Expense,
    shares: Seq<Share>,
) -> Seq<TransactionView>
    decreases shares.len(),
{
    if shares.len() == 0 {
        seq![]
    } else {
        other_shares_spec(user_id, account_id, expense, shares.drop_last()) + if shares.last().user_id
            != user_id {
            seq![other_share_spec(account_id, expense, shares.last())]
        } else {
            seq![]
        }
    }
}

/// A shared expense: what the followed user paid, from the expenses account, then the
/// balance of every other share, against the Splitwise account.
pub open spec fn shared_expense_spec(
    user_id: i64,
    expenses_account_id: Seq<char>,
    splitwise_account_id: Seq<char>,
    expense: Expense,
) -> Seq<TransactionView> {
    own_share_spec(user_id, expenses_account_id, expense) + other_shares_spec(
        user_id,
        splitwise_account_id,
        expense,
        expense.users@,
    )
}

/// The transactions for one expense under `config`.
pub open spec fn expense_transactions(config: Config, expense: Expense) -> Seq<TransactionView> {
    match classify_spec(config.splitwise_user_id, expense) {
        Kind::SharedExpense => shared_expense_spec(
            config.splitwise_user_id,
            config.expenses.account_id@,
            config.splitwise.account_id@,
            expense,
        ),
        Kind::SettleUp => seq![
            payment_spec(config.expenses.account_id@, config.splitwise.transfer_id@, expense),
        ],
        Kind::Payment => seq![
            payment_spec(config.splitwise.account_id@, config.expenses.transfer_id@, expense),
        ],
    }
}

/// The transactions for a list of expenses: those of each expense, in order.
pub open spec fn transform_spec(config: Config, expenses: Seq<Expense>) -> Seq<TransactionView>
    decreases expenses.len(),
{
    if expenses.len() == 0 {
        seq![]
    } else {
        transform_spec(config, expenses.drop_last()) + expense_transactions(config, expenses.last())
    }
}

/// The amounts that booking the shares of `shares` multiplies fit in an `i64`.
pub open spec fn other_shares_fit(user_id: i64, shares: Seq<Share>) -> bool {
    forall|k: int|
        0 <= k < shares.len() && #[trigger] shares[k].user_id != user_id ==> fits_milli(
            shares[k].net_balance,
        )
}

/// The amounts that booking an expense as shared multiplies by ten fit in an `i64`: the
/// followed user's paid share, when above nothing, and the balance of every other share.
pub open spec fn shared_fits(user_id: i64, expense: Expense) -> bool {
    &&& (first_share_of(expense.users@, user_id) matches Some(i) ==> (expense.users@[i].paid_share.0
        > 0 ==> fits_milli(expense.users@[i].paid_share)))
    &&& other_shares_fit(user_id, expense.users@)
}

/// The amounts that booking the expense multiplies by ten fit in an `i64`.
pub open spec fn expense_fits(user_id: i64, expense: Expense) -> bool {
    match classify_spec(user_id, expense) {
        Kind::SharedExpense => shared_fits(user_id, expense),
        _ => fits_milli(expense.cost),
    }
}

pub open spec fn expenses_fit(user_id: i64, expenses: Seq<Expense>) -> bool {
    forall|k: int| 0 <= k < expenses.len() ==> expense_fits(user_id, #[trigger] expenses[k])
}

/// Booking two lists one after the other gives the transactions of booking them as one
/// list.
pub proof fn lemma_transform_concat(config: Config, first: Seq<Expense>, second: Seq<Expense>)
    ensures
        transform_spec(config, first + second) == transform_spec(config, first) + transform_spec(
            config,
            second,
        ),
    decreases second.len(),
{
    if second.len() == 0 {
        assert(first + second =~= first);
        assert(transform_spec(config, first) + transform_spec(config, second) =~= transform_spec(
            config,
            first,
        ));
    } else {
        lemma_transform_concat(config, first, second.drop_last());
        assert((first + second).drop_last() =~= first + second.drop_last());
        assert((first + second).last() == second.last());
        assert(transform_spec(config, first + second) =~= transform_spec(config, first)
            + transform_spec(config, second));
    }
}

proof fn lemma_first_share_at(shares: Seq<Share>, user_id: i64, i: int)
    requires
        0 <= i < shares.len(),
        shares[i].user_id == user_id,
        forall|j: int| 0 <= j < i ==> shares[j].user_id != user_id,
    ensures
        first_share_of(shares, user_id) == Some(i),
    decreases shares.len(),
{
    if i < shares.len() - 1 {
        lemma_first_share_at(shares.drop_last(), user_id, i);
    } else {
        lemma_first_share_none(shares.drop_last(), user_id);
    }
}

proof fn lemma_first_share_none(shares: Seq<Share>, user_id: i64)
    requires
        forall|j: int| 0 <= j < shares.len() ==> shares[j].user_id != user_id,
    ensures
        first_share_of(shares, user_id) is None,
    decreases shares.len(),
{
    if shares.len() > 0 {
        lemma_first_share_none(shares.drop_last(), user_id);
    }
}

proof fn lemma_first_share_is_first(shares: Seq<Share>, user_id: i64)
    ensures
        first_share_of(shares, user_id) matches Some(i) ==> {
            &&& 0 <= i < shares.len()
            &&& shares[i].user_id == user_id
            &&& forall|j: int| 0 <= j < i ==> shares[j].user_id != user_id
        },
        first_share_of(shares, user_id) is None ==> forall|j: int|
            0 <= j < shares.len() ==> shares[j].user_id != user_id,
    decreases shares.len(),
{
    if shares.len() > 0 {
        lemma_first_share_is_first(shares.drop_last(), user_id);
        assert forall|j: int| 0 <= j < shares.len() - 1 implies shares[j] == shares.drop_last()[j] by {}
    }
}

proof fn lemma_other_shares_filter(user_id: i64, account_id: Seq<char>, expense: Expense, shares: Seq<Share>)
    ensures
        other_shares_spec(user_id, account_id, expense, shares) == shares.filter(
            |s: Share| s.user_id != user_id,
        ).map_values(|s: Share| other_share_spec(account_id, expense, s)),
    decreases shares.len(),
{
    reveal(Seq::filter);
    if shares.len() > 0 {
        lemma_other_shares_filter(user_id, account_id, expense, shares.drop_last());
        let f = |s: Share| other_share_spec(account_id, expense, s);
        let before = shares.drop_last().filter(|s: Share| s.user_id != user_id);
        if shares.last().user_id != user_id {
            assert(before.push(shares.last()).map_values(f) =~= before.map_values(f).push(
                f(shares.last()),
            ));
        }
        assert(other_shares_spec(user_id, account_id, expense, shares) =~= shares.filter(
            |s: Share| s.user_id != user_id,
        ).map_values(f));
    }
}

/// Booking a shared expense gives, after at most one transaction for the followed user's
/// own share, one transaction on the Splitwise account for each share that is not the
/// followed user's, in the order of the shares: its balance, negated, in thousandths
/// of a dollar, with that member's name as payee. This holds whatever the paid shares
/// and whoever entered the expense.
pub proof fn lemma_shared_expense_books_every_other_share(config: Config, expense: Expense)
    requires
        !expense.payment,
    ensures
        ({
            let user_id = config.splitwise_user_id;
            let booked = expense_transactions(config, expense);
            let others = expense.users@.filter(|s: Share| s.user_id != user_id);
            let own = booked.len() - others.len();
            &&& own == 0 || own == 1
            &&& forall|m: int|
                0 <= m < others.len() ==> #[trigger] booked[own + m] == TransactionView {
                    account_id: config.splitwise.account_id@,
                    date: expense.date@,
                    amount: -(others[m].net_balance.0 * 10),
                    payee_id: None,
                    payee_name: Some(
                        others[m].user.first_name@ + seq![' '] + others[m].user.last_name@,
                    ),
                    memo: expense.description@,
                    cleared: "cleared"@,
                    approved: false,
                }
        }),
{
    let user_id = config.splitwise_user_id;
    let account_id = config.splitwise.account_id@;
    lemma_other_shares_filter(user_id, account_id, expense, expense.users@);
    let own_part = own_share_spec(user_id, config.expenses.account_id@, expense);
    let rest = other_shares_spec(user_id, account_id, expense, expense.users@);
    let booked = expense_transactions(config, expense);
    assert(booked == own_part + rest);
    assert(own_part.len() == 0 || own_part.len() == 1);
}

/// Booking a shared expense books the followed user's first share, when they paid more
/// than nothing, as the first transaction: the paid amount, negated, in thousandths of a
/// dollar, out of the expenses account; the other shares follow. Who entered the expense
/// does not matter.
pub proof fn lemma_shared_expense_books_own_paid_share(config: Config, expense: Expense, i: int)
    requires
        !expense.payment,
        0 <= i < expense.users@.len(),
        expense.users@[i].user_id == config.splitwise_user_id,
        forall|j: int| 0 <= j < i ==> expense.users@[j].user_id != config.splitwise_user_id,
        expense.users@[i].paid_share.0 > 0,
    ensures
        ({
            let booked = expense_transactions(config, expense);
            let others = expense.users@.filter(|s: Share| s.user_id != config.splitwise_user_id);
            &&& booked.len() == 1 + others.len()
            &&& booked[0] == TransactionView {
                account_id: config.expenses.account_id@,
                date: expense.date@,
                amount: -(expense.users@[i].paid_share.0 * 10),
                payee_id: None,
                payee_name: None,
                memo: expense.description@,
                cleared: "uncleared"@,
                approved: false,
            }
        }),
{
    let user_id = config.splitwise_user_id;
    lemma_first_share_at(expense.users@, user_id, i);
    lemma_other_shares_filter(user_id, config.splitwise.account_id@, expense, expense.users@);
}

/// Booking a shared expense in which the followed user has no share, or paid nothing in
/// their first one, books only the other shares: nothing comes out of the expenses
/// account.
pub proof fn lemma_shared_expense_without_own_payment(config: Config, expense: Expense)
    requires
        !expense.payment,
        forall|i: int|
            0 <= i < expense.users@.len() && #[trigger] expense.users@[i].user_id
                == config.splitwise_user_id && (forall|j: int|
                0 <= j < i ==> expense.users@[j].user_id != config.splitwise_user_id)
                ==> expense.users@[i].paid_share.0 <= 0,
    ensures
        expense_transactions(config, expense).len() == expense.users@.filter(
            |s: Share| s.user_id != config.splitwise_user_id,
        ).len(),
        forall|k: int|
            0 <= k < expense_transactions(config, expense).len() ==> (#[trigger] expense_transactions(
                config,
                expense,
            )[k]).account_id == config.splitwise.account_id@,
{
    let user_id = config.splitwise_user_id;
    lemma_first_share_is_first(expense.users@, user_id);
    lemma_other_shares_filter(user_id, config.splitwise.account_id@, expense, expense.users@);
    lemma_shared_expense_books_every_other_share(config, expense);
    let booked = expense_transactions(config, expense);
    let others = expense.users@.filter(|s: Share| s.user_id != user_id);
    assert(own_share_spec(user_id, config.expenses.account_id@, expense) =~= Seq::<TransactionView>::empty());
    assert forall|k: int| 0 <= k < booked.len() implies (#[trigger] booked[k]).account_id
        == config.splitwise.account_id@ by {
        assert(booked[0 + k] == booked[k]);
    }
}

/// Booking a payment gives one transfer of the whole cost, negated, in thousandths of
/// a dollar: a settling up by the followed user goes out of the expenses account to the
/// Splitwise account's transfer payee; a payment by anyone else goes out of the Splitwise
/// account to the expenses account's transfer payee. The memo names who paid.
pub proof fn lemma_payment_is_one_transfer(config: Config, expense: Expense)
    requires
        expense.payment,
    ensures
        ({
            let by_user = expense.created_by.id == config.splitwise_user_id;
            let booked = expense_transactions(config, expense);
            &&& booked.len() == 1
            &&& booked[0] == TransactionView {
                account_id: if by_user {
                    config.expenses.account_id@
                } else {
                    config.splitwise.account_id@
                },
                date: expense.date@,
                amount: -(expense.cost.0 * 10),
                payee_id: Some(
                    if by_user {
                        config.splitwise.transfer_id@
                    } else {
                        config.expenses.transfer_id@
                    },
                ),
                payee_name: None,
                memo: expense.created_by.first_name@ + seq![' '] + expense.created_by.last_name@
                    + " settling up"@,
                cleared: "cleared"@,
                approved: false,
            }
        }),
{
}

/// Booking a list of one expense gives that expense's transactions.
pub proof fn lemma_transform_single(config: Config, expense: Expense)
    ensures
        transform_spec(config, seq![expense]) == expense_transactions(config, expense),
{
    assert(seq![expense].drop_last() =~= Seq::<Expense>::empty());
    assert(seq![expense].last() == expense);
    assert(transform_spec(config, Seq::<Expense>::empty()) == Seq::<TransactionView>::empty());
    assert(Seq::<TransactionView>::empty() + expense_transactions(config, expense)
        =~= expense_transactions(config, expense));
}

proof fn lemma_first_share_found(shares: Seq<Share>, user_id: i64, k: int)
    requires
        0 <= k <= shares.len(),
        first_share_of(shares.take(k), user_id) is Some,
    ensures
        first_share_of(shares, user_id) == first_share_of(shares.take(k), user_id),
    decreases shares.len() - k,
{
    if k < shares.len() {
        assert(shares.take(k + 1).drop_last() =~= shares.take(k));
        lemma_first_share_found(shares, user_id, k + 1);
    } else {
        assert(shares.take(k) =~= shares);
    }
}

/// The index of the first share that belongs to `user_id`.
pub fn first_share_index(shares: &Vec<Share>, user_id: i64) -> (r: Option<usize>)
    ensures
        r matches Some(i) ==> first_share_of(shares@, user_id) == Some(i as int) && i
            < shares@.len() && shares@[i as int].user_id == user_id,
        r is None ==> first_share_of(shares@, user_id) is None,
{
    let ghost all = shares@;
    let mut i: usize = 0;
    assert(all.take(0) =~= Seq::<Share>::empty());
    assert(all.take(all.len() as int) =~= all);
    while i < shares.len()
        invariant
            i <= shares@.len(),
            all == shares@,
            all.take(all.len() as int) == all,
            first_share_of(all.take(i as int), user_id) is None,
        decreases shares@.len() - i,
    {
        assert(all.take(i + 1).drop_last() =~= all.take(i as int));
        if shares[i].user_id == user_id {
            proof { lemma_first_share_found(all, user_id, i + 1); }
            return Some(i);
        }
        i = i + 1;
    }
    None
}

/// Whether booking this amount of cents in thousandths of a dollar fits in an `i64`.
pub fn fits_milli_exec(c: Cents) -> (b: bool)
    ensures
        b == fits_milli(c),
{
    -922_337_203_685_477_580 <= c.0 && c.0 <= 922_337_203_685_477_580
}

/// Whether the amounts that booking `expense` multiplies by ten fit in an `i64`.
pub fn expense_fits_exec(user_id: i64, expense: &Expense) -> (b: bool)
    ensures
        b == expense_fits(user_id, *expense),
{
    match classify(user_id, expense) {
        Kind::SharedExpense => {
            let users = &expense.users;
            let own = first_share_index(users, user_id);
            if own.is_some() {
                let paid = users[own.unwrap()].paid_share;
                if paid.0 > 0 && !fits_milli_exec(paid) {
                    return false;
                }
            }
            let mut j: usize = 0;
            while j < users.len()
                invariant
                    j <= users@.len(),
                    users@ == expense.users@,
                    !expense.payment,
                    forall|k: int|
                        0 <= k < j && #[trigger] users@[k].user_id != user_id ==> fits_milli(
                            users@[k].net_balance,
                        ),
                decreases users@.len() - j,
            {
                if users[j].user_id != user_id && !fits_milli_exec(users[j].net_balance) {
                    assert(users@[j as int].user_id != user_id);
                    assert(!fits_milli(users@[j as int].net_balance));
                    assert(!other_shares_fit(user_id, expense.users@));
                    return false;
                }
                j = j + 1;
            }
            true
        },
        _ => fits_milli_exec(expense.cost),
    }
}

/// Books a payment.
fn payment(account_id: &str, transfer_id: &str, expense: &Expense) -> (r: Vec<Transaction>)
    requires
        fits_milli(expense.cost),
    ensures
        views(r@) == seq![payment_spec(account_id@, transfer_id@, *expense)],
{
    let mut memo = expense.created_by.full_name();
    memo.append(" settling up");
    let t = Transaction {
        account_id: account_id.to_owned(),
        date: expense.date.clone(),
        amount: -expense.cost.milli_dollars(),
        payee_id: Some(transfer_id.to_owned()),
        payee_name: None,
        memo,
        cleared: String::from_str("cleared"),
        approved: false,
    };
    let mut r: Vec<Transaction> = Vec::new();
    r.push(t);
    assert(views(r@) =~= seq![payment_spec(account_id@, transfer_id@, *expense)]);
    r
}

/// Books a shared expense.
fn shared_expense(
    user_id: i64,
    expenses_account_id: &str,
    splitwise_account_id: &str,
    expense: &Expense,
) -> (r: Vec<Transaction>)
    requires
        shared_fits(user_id, *expense),
    ensures
        views(r@) == shared_expense_spec(
            user_id,
            expenses_account_id@,
            splitwise_account_id@,
            *expense,
        ),
{
    let users = &expense.users;
    let ghost shares = users@;
    let mut transactions: Vec<Transaction> = Vec::new();

    // the followed user's own share, the first one that is theirs
    let own_index = first_share_index(users, user_id);
    if own_index.is_some() && users[own_index.unwrap()].paid_share.0 > 0 {
        let share = &users[own_index.unwrap()];
        transactions.push(Transaction {
            account_id: expenses_account_id.to_owned(),
            date: expense.date.clone(),
            amount: -share.paid_share.milli_dollars(),
            payee_id: None,
            payee_name: None,
            memo: expense.description.clone(),
            cleared: String::from_str("uncleared"),
            approved: false,
        });
    }
    let ghost own = views(transactions@);
    assert(own =~= own_share_spec(user_id, expenses_account_id@, *expense));

    // every other user's share
    let mut j: usize = 0;
    assert(shares.take(0) =~= Seq::<Share>::empty());
    while j < users.len()
        invariant
            j <= users@.len(),
            shares == users@,
            shares == expense.users@,
            other_shares_fit(user_id, shares),
            views(transactions@) == own + other_shares_spec(
                user_id,
                splitwise_account_id@,
                *expense,
                shares.take(j as int),
            ),
        decreases users@.len() - j,
    {
        assert(shares.take(j + 1).drop_last() =~= shares.take(j as int));
        let share = &users[j];
        if share.user_id != user_id {
            let t = Transaction {
                account_id: splitwise_account_id.to_owned(),
                date: expense.date.clone(),
                amount: -share.net_balance.milli_dollars(),
                payee_id: None,
                payee_name: Some(share.user.full_name()),
                memo: expense.description.clone(),
                cleared: String::from_str("cleared"),
                approved: false,
            };
            let ghost before = transactions@;
            transactions.push(t);
            assert(views(transactions@) =~= views(before).push(t@));
        }
        j = j + 1;
        assert(views(transactions@) =~= own + other_shares_spec(
            user_id,
            splitwise_account_id@,
            *expense,
            shares.take(j as int),
        ));
    }
    assert(shares.take(j as int) =~= shares);
    transactions
}

/// How an expense is booked: a shared expense unless it is a payment, and a payment is
/// a settling up when the followed user made it.
pub fn classify(user_id: i64, expense: &Expense) -> (k: Kind)
    ensures
        k == classify_spec(user_id, *expense),
{
    if !expense.payment {
        Kind::SharedExpense
    } else if expense.created_by.id == user_id {
        Kind::SettleUp
    } else {
        Kind::Payment
    }
}

/// Books one expense under `config`.
pub fn transactions_for(config: &Config, expense: &Expense) -> (r: Vec<Transaction>)
    requires
        expense_fits(config.splitwise_user_id, *expense),
    ensures
        views(r@) == expense_transactions(*config, *expense),
{
    match classify(config.splitwise_user_id, expense) {
        Kind::SharedExpense => shared_expense(
            config.splitwise_user_id,
            config.expenses.account_id.as_str(),
            config.splitwise.account_id.as_str(),
            expense,
        ),
        Kind::SettleUp => payment(
            config.expenses.account_id.as_str(),
            config.splitwise.transfer_id.as_str(),
            expense,
        ),
        Kind::Payment => payment(
            config.splitwise.account_id.as_str(),
            config.expenses.transfer_id.as_str(),
            expense,
        ),
    }
}

/// Turns lists of expenses into YNAB transactions under one configuration.
pub struct Transformer<'a> {
    config: &'a Config,
}

/// A transformer for the accounts and user of `config`.
pub fn new<'a>(config: &'a Config) -> (t: Transformer<'a>)
    ensures
        t.config() == *config,
{
    Transformer { config }
}

impl<'a> Transformer<'a> {
    pub closed spec fn config(&self) -> Config {
        *self.config
    }

    /// The transactions of each expense, in order.
    pub fn transform(&self, expenses: &[Expense]) -> (r: Vec<Transaction>)
        requires
            expenses_fit(self.config().splitwise_user_id, expenses@),
        ensures
            views(r@) == transform_spec(self.config(), expenses@),
    {
        let config = self.config;
        let mut result: Vec<Transaction> = Vec::new();
        let mut i: usize = 0;
        assert(expenses@.take(0) =~= Seq::<Expense>::empty());
        while i < expenses.len()
            invariant
                i <= expenses@.len(),
                *config == self.config(),
                expenses_fit(config.splitwise_user_id, expenses@),
                views(result@) == transform_spec(*config, expenses@.take(i as int)),
            decreases expenses@.len() - i,
        {
            assert(expenses@.take(i + 1).drop_last() =~= expenses@.take(i as int));
            assert(expense_fits(config.splitwise_user_id, expenses@[i as int]));
            let mut more = transactions_for(config, &expenses[i]);
            let ghost before = result@;
            let ghost added = more@;
            result.append(&mut more);
            assert(views(result@) =~= views(before) + views(added));
            i = i + 1;
        }
        assert(expenses@.take(i as int) =~= expenses@);
        result
    }
}

} // verus!
