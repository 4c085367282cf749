use splitwise_ynab::models::cents::Cents;
use splitwise_ynab::models::splitwise::{Expense, Share, User};
use splitwise_ynab::models::transformer::{self, Config, YNABAccount};
use splitwise_ynab::models::ynab::Transaction;

fn user(id: i64, first_name: &str, last_name: &str) -> User {
    User {
        id,
        first_name: first_name.to_owned(),
        last_name: last_name.to_owned(),
    }
}

fn share(u: User, paid: i64, owed: i64) -> Share {
    Share {
        user_id: u.id,
        user: u,
        paid_share: Cents(paid),
        owed_share: Cents(owed),
        net_balance: Cents(paid - owed),
    }
}

fn expense(id: i64, description: &str, payment: bool, cost: i64, created_by: User, users: Vec<Share>) -> Expense {
    Expense {
        id,
        group_id: 7,
        description: description.to_owned(),
        payment,
        cost: Cents(cost),
        repayments: Vec::new(),
        date: format!("2022-06-{:02}T10:00:00Z", id % 28 + 1),
        created_at: "2022-06-01T10:00:00Z".to_owned(),
        created_by,
        updated_at: "2022-06-01T10:00:00Z".to_owned(),
        users,
    }
}

/// Four expenses of the user with id 2 (Foo Foo) and Bar Bar (id 1): a shared expense that
/// Foo paid, a payment from Bar to Foo, a shared expense that Bar paid, and a payment
/// from Foo to Bar.
fn load_test_data() -> Vec<Expense> {
    vec![
        expense(
            101,
            "Groceries",
            false,
            8325,
            user(2, "Foo", "Foo"),
            vec![share(user(2, "Foo", "Foo"), 8325, 4162), share(user(1, "Bar", "Bar"), 0, 4163)],
        ),
        expense(
            102,
            "Payment",
            true,
            8787,
            user(1, "Bar", "Bar"),
            vec![share(user(1, "Bar", "Bar"), 8787, 0), share(user(2, "Foo", "Foo"), 0, 8787)],
        ),
        expense(
            103,
            "Gas",
            false,
            24364,
            user(1, "Bar", "Bar"),
            vec![share(user(2, "Foo", "Foo"), 0, 12182), share(user(1, "Bar", "Bar"), 24364, 12182)],
        ),
        expense(
            104,
            "Payment",
            true,
            8169,
            user(2, "Foo", "Foo"),
            vec![share(user(2, "Foo", "Foo"), 8169, 0), share(user(1, "Bar", "Bar"), 0, 8169)],
        ),
    ]
}

fn config() -> Config {
    Config {
        splitwise: YNABAccount {
            account_id: "splitwise-account-id".to_owned(),
            transfer_id: "splitwise-transfer-id".to_owned(),
        },
        expenses: YNABAccount {
            account_id: "expenses-account-id".to_owned(),
            transfer_id: "expenses-account-transfer-id".to_owned(),
        },
        splitwise_user_id: 2,
    }
}

fn transaction(
    account_id: &str,
    date: &str,
    amount: i64,
    payee_id: Option<&str>,
    payee_name: Option<&str>,
    memo: &str,
    cleared: &str,
) -> Transaction {
    Transaction {
        account_id: account_id.to_owned(),
        date: date.to_owned(),
        amount,
        payee_id: payee_id.map(|s| s.to_owned()),
        payee_name: payee_name.map(|s| s.to_owned()),
        memo: memo.to_owned(),
        cleared: cleared.to_owned(),
        approved: false,
    }
}

#[test]
pub fn test_direct_expense() {
    let data = load_test_data();
    let expenses = &data[0..1];
    let config = config();

    let transactions = transformer::new(&config).transform(expenses);

    assert_eq!(transactions.len(), 2);
    assert_eq!(
        transactions[0],
        transaction("expenses-account-id", &expenses[0].date, -83250, None, None, "Groceries", "uncleared"),
    );
    assert_eq!(
        transactions[1],
        transaction("splitwise-account-id", &expenses[0].date, 41630, None, Some("Bar Bar"), "Groceries", "cleared"),
    );
}

#[test]
pub fn test_indirect_expense() {
    let data = load_test_data();
    let expenses = &data[2..3];
    let config = config();

    let transactions = transformer::new(&config).transform(expenses);

    assert_eq!(transactions.len(), 1);
    assert_eq!(
        transactions[0],
        transaction("splitwise-account-id", &expenses[0].date, -121820, None, Some("Bar Bar"), "Gas", "cleared"),
    );
}

#[test]
pub fn test_payment_to_you() {
    let data = load_test_data();
    let expenses = &data[1..2];
    let config = config();

    let transactions = transformer::new(&config).transform(expenses);

    assert_eq!(transactions.len(), 1);
    assert_eq!(
        transactions[0],
        transaction(
            "splitwise-account-id",
            &expenses[0].date,
            -87870,
            Some("expenses-account-transfer-id"),
            None,
            "Bar Bar settling up",
            "cleared",
        ),
    );
}

#[test]
pub fn payment_from_you() {
    let data = load_test_data();
    let expenses = &data[3..4];
    let config = config();

    let transactions = transformer::new(&config).transform(expenses);

    assert_eq!(transactions.len(), 1);
    assert_eq!(
        transactions[0],
        transaction(
            "expenses-account-id",
            &expenses[0].date,
            -81690,
            Some("splitwise-transfer-id"),
            None,
            "Foo Foo settling up",
            "cleared",
        ),
    );
}

#[test]
fn transform_of_all_expenses_is_each_in_order() {
    let data = load_test_data();
    let config = config();
    let t = transformer::new(&config);

    let all = t.transform(&data);
    let mut one_by_one = Vec::new();
    for k in 0..data.len() {
        one_by_one.extend(t.transform(&data[k..k + 1]));
    }
    assert_eq!(all.len(), 5);
    assert_eq!(all, one_by_one);
}

#[test]
fn transform_of_nothing_is_nothing() {
    let config = config();
    assert!(transformer::new(&config).transform(&[]).is_empty());
}

#[test]
fn shared_expense_without_own_share_books_only_others() {
    let config = config();
    let e = expense(
        200,
        "Dinner",
        false,
        3000,
        user(1, "Bar", "Bar"),
        vec![share(user(1, "Bar", "Bar"), 3000, 1000), share(user(3, "Baz", "Quz"), 0, 2000)],
    );
    let transactions = transformer::new(&config).transform(&[e]);
    assert_eq!(transactions.len(), 2);
    assert_eq!(transactions[0].payee_name.as_deref(), Some("Bar Bar"));
    assert_eq!(transactions[0].amount, -20000);
    assert_eq!(transactions[1].payee_name.as_deref(), Some("Baz Quz"));
    assert_eq!(transactions[1].amount, 20000);
}

#[test]
fn only_the_first_own_share_is_booked_as_paid() {
    let config = config();
    let e = expense(
        201,
        "Tickets",
        false,
        500,
        user(2, "Foo", "Foo"),
        vec![share(user(2, "Foo", "Foo"), 300, 0), share(user(2, "Foo", "Foo"), 200, 0)],
    );
    let transactions = transformer::new(&config).transform(&[e]);
    assert_eq!(transactions.len(), 1);
    assert_eq!(transactions[0].amount, -3000);
    assert_eq!(transactions[0].account_id, "expenses-account-id");
}

#[test]
fn classify_tells_expenses_from_payments() {
    let data = load_test_data();
    assert_eq!(transformer::classify(2, &data[0]), transformer::Kind::SharedExpense);
    assert_eq!(transformer::classify(2, &data[1]), transformer::Kind::Payment);
    assert_eq!(transformer::classify(2, &data[3]), transformer::Kind::SettleUp);
}

#[test]
fn expense_fits_detects_overflow() {
    let mut e = load_test_data().remove(1);
    assert!(transformer::expense_fits_exec(2, &e));
    e.cost = Cents(i64::MAX / 5);
    assert!(!transformer::expense_fits_exec(2, &e));
    assert!(transformer::fits_milli_exec(Cents(922_337_203_685_477_580)));
    assert!(!transformer::fits_milli_exec(Cents(922_337_203_685_477_581)));
    assert!(transformer::fits_milli_exec(Cents(-922_337_203_685_477_580)));
    assert!(!transformer::fits_milli_exec(Cents(-922_337_203_685_477_581)));
}

#[test]
fn first_share_index_finds_the_first() {
    let shares = vec![
        share(user(1, "Bar", "Bar"), 0, 0),
        share(user(2, "Foo", "Foo"), 0, 0),
        share(user(2, "Foo", "Foo"), 1, 0),
    ];
    assert_eq!(transformer::first_share_index(&shares, 2), Some(1));
    assert_eq!(transformer::first_share_index(&shares, 5), None);
}
