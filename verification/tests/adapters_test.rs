use splitwise_ynab::adapters::sqlite::batch_insert_statement;
use splitwise_ynab::adapters::ynab::{is_created, plan_create_transactions, transactions_url};
use splitwise_ynab::models::splitwise::User;
use splitwise_ynab::models::ynab::Transaction;

#[test]
fn batch_insert_has_a_placeholder_per_id() {
    assert_eq!(batch_insert_statement(0), None);
    assert_eq!(
        batch_insert_statement(1).as_deref(),
        Some("INSERT INTO expenses (ID) values (?);")
    );
    assert_eq!(
        batch_insert_statement(3).as_deref(),
        Some("INSERT INTO expenses (ID) values (?), (?), (?);")
    );
}

#[test]
fn ynab_request_address_and_body() {
    assert_eq!(
        transactions_url("budget-1"),
        "https://api.youneedabudget.com/v1/budgets/budget-1/transactions"
    );
    assert!(plan_create_transactions("b", Vec::new()).is_none());
    let t = Transaction {
        account_id: "a".to_owned(),
        date: "d".to_owned(),
        amount: -10,
        payee_id: None,
        payee_name: None,
        memo: "m".to_owned(),
        cleared: "cleared".to_owned(),
        approved: false,
    };
    let (url, body) = plan_create_transactions("b", vec![t]).unwrap();
    assert_eq!(url, "https://api.youneedabudget.com/v1/budgets/b/transactions");
    assert_eq!(body.transactions.len(), 1);
    assert_eq!(body.transactions[0].amount, -10);
    assert!(is_created(201));
    assert!(!is_created(200));
}

#[test]
fn full_name_joins_with_a_space() {
    let u = User { id: 1, first_name: "Bar".to_owned(), last_name: "Baz".to_owned() };
    assert_eq!(u.full_name(), "Bar Baz");
}

use splitwise_ynab::adapters::dynamodb::{plan_batch, read_batch_get, BatchGetError, TableItems};

fn table(name: &str, ids: Vec<Option<&str>>) -> TableItems {
    TableItems { table: name.to_owned(), ids: ids.into_iter().map(|o| o.map(|s| s.to_owned())).collect() }
}

#[test]
fn batch_get_reads_the_ids_of_the_table() {
    let responses = vec![table("other", vec![Some("9")]), table("splitwise", vec![Some("1"), Some("2")])];
    assert_eq!(read_batch_get(Some(responses), "splitwise"), Ok(vec!["1".to_owned(), "2".to_owned()]));
}

#[test]
fn batch_get_errors() {
    assert_eq!(read_batch_get(None, "splitwise"), Err(BatchGetError::NoResponses));
    assert_eq!(
        read_batch_get(Some(vec![table("other", vec![])]), "splitwise"),
        Err(BatchGetError::NoDataForTable)
    );
    assert_eq!(
        read_batch_get(Some(vec![table("splitwise", vec![Some("1"), None])]), "splitwise"),
        Err(BatchGetError::MissingId)
    );
}

#[test]
fn empty_batches_are_not_sent() {
    assert_eq!(plan_batch(Vec::<String>::new()), None);
    assert_eq!(plan_batch(vec![1, 2]), Some(vec![1, 2]));
}
