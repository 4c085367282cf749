use splitwise_ynab::models::cents::Cents;
use splitwise_ynab::models::id::ID;
use splitwise_ynab::models::record::Record;
use splitwise_ynab::models::splitwise::{Expense, Expenses, Share, User};
use splitwise_ynab::models::transformer::{Config, YNABAccount};
use splitwise_ynab::ports::secrets::{after_first, Lookup};
use splitwise_ynab::usecases::processor::{
    contains_text, expense_ids, records_for, select_new_expenses, Action, Event, Processor,
};

fn user(id: i64, name: &str) -> User {
    User { id, first_name: name.to_owned(), last_name: "Smith".to_owned() }
}

fn payment(id: i64, cost: i64, by: i64) -> Expense {
    Expense {
        id,
        group_id: 0,
        description: "Payment".to_owned(),
        payment: true,
        cost: Cents(cost),
        repayments: Vec::new(),
        date: "2022-01-01".to_owned(),
        created_at: "2022-01-01".to_owned(),
        created_by: user(by, "Ann"),
        updated_at: "2022-01-01".to_owned(),
        users: vec![Share {
            user: user(by, "Ann"),
            user_id: by,
            paid_share: Cents(cost),
            owed_share: Cents(0),
            net_balance: Cents(cost),
        }],
    }
}

fn config() -> Config {
    Config {
        splitwise: YNABAccount { account_id: "sw".to_owned(), transfer_id: "sw-t".to_owned() },
        expenses: YNABAccount { account_id: "ex".to_owned(), transfer_id: "ex-t".to_owned() },
        splitwise_user_id: 9,
    }
}

#[test]
fn expense_and_record_share_their_id() {
    let e = payment(1234, 100, 9);
    let r = Record::from(&e);
    assert_eq!(e.id(), "1234");
    assert_eq!(r.id(), e.id());
    assert_eq!(r.cost, e.cost);
    assert_eq!(r.description, e.description);
    assert_eq!(r.users.len(), 1);
}

#[test]
fn new_expenses_skip_recorded_ids() {
    let all = vec![payment(1, 100, 9), payment(2, 200, 9), payment(3, 300, 9)];
    let fresh = select_new_expenses(all, &vec!["2".to_owned(), "7".to_owned()]);
    let ids: Vec<i64> = fresh.iter().map(|e| e.id).collect();
    assert_eq!(ids, vec![1, 3]);
    assert!(contains_text(&vec!["a".to_owned()], &"a".to_owned()));
    assert!(!contains_text(&vec!["a".to_owned()], &"b".to_owned()));
}

#[test]
fn ids_and_records_of_expenses() {
    let all = vec![payment(-5, 100, 9), payment(60, 200, 1)];
    assert_eq!(expense_ids(&all), vec!["-5".to_owned(), "60".to_owned()]);
    let records = records_for(&all);
    assert_eq!(records.iter().map(|r| r.id.clone()).collect::<Vec<_>>(), vec!["-5", "60"]);
}

fn run(p: &mut Processor, recorded: Vec<String>, listed: Vec<Expense>) -> (Vec<String>, usize, Vec<String>) {
    let mut asked = Vec::new();
    let mut created = 0;
    let mut stored = Vec::new();
    let mut event = Event::Started;
    let mut listed = Some(listed);
    loop {
        assert!(p.accepts(&event));
        match p.step(event) {
            Action::FetchExpenses => {
                event = Event::ExpensesFetched(Expenses { expenses: listed.take().unwrap() });
            }
            Action::CheckRecords(ids) => {
                asked = ids.clone();
                let found = ids.into_iter().filter(|id| recorded.contains(id)).collect();
                event = Event::RecordsChecked(found);
            }
            Action::CreateTransactions(ts) => {
                created = ts.len();
                event = Event::TransactionsCreated;
            }
            Action::AddRecords(rs) => {
                stored = rs.iter().map(|r| r.id.clone()).collect();
                event = Event::RecordsAdded;
            }
            Action::Finish => break,
        }
    }
    (asked, created, stored)
}

#[test]
fn a_sync_books_and_records_only_new_expenses() {
    let config = config();
    let mut p = Processor::new(&config);
    let listed = vec![payment(1, 100, 9), payment(2, 200, 4), payment(3, 300, 9)];
    let (asked, created, stored) = run(&mut p, vec!["2".to_owned()], listed);
    assert_eq!(asked, vec!["1", "2", "3"]);
    assert_eq!(created, 2);
    assert_eq!(stored, vec!["1", "3"]);
    assert!(!p.accepts(&Event::Started));
}

#[test]
fn a_second_sync_books_nothing() {
    let config = config();
    let listed = || vec![payment(1, 100, 9), payment(2, 200, 4), payment(3, 300, 9)];
    let mut first = Processor::new(&config);
    let (_, _, mut stored) = run(&mut first, vec!["2".to_owned()], listed());
    stored.push("2".to_owned());
    let mut second = Processor::new(&config);
    let (_, created, stored_again) = run(&mut second, stored, listed());
    assert_eq!(created, 0);
    assert!(stored_again.is_empty());
}

#[test]
fn events_out_of_turn_are_not_accepted() {
    let config = config();
    let mut p = Processor::new(&config);
    assert!(!p.accepts(&Event::RecordsAdded));
    assert!(!p.accepts(&Event::TransactionsCreated));
    assert!(p.accepts(&Event::Started));
    match p.step(Event::Started) {
        Action::FetchExpenses => {}
        _ => panic!("expected a listing"),
    }
    assert!(!p.accepts(&Event::Started));
    assert!(p.accepts(&Event::ExpensesFetched(Expenses { expenses: Vec::new() })));
}

#[test]
fn overflowing_new_expense_is_not_accepted() {
    let config = config();
    let mut p = Processor::new(&config);
    p.step(Event::Started);
    p.step(Event::ExpensesFetched(Expenses { expenses: vec![payment(1, i64::MAX, 9)] }));
    assert!(!p.accepts(&Event::RecordsChecked(Vec::new())));
    assert!(p.accepts(&Event::RecordsChecked(vec!["1".to_owned()])));
}

#[test]
fn secrets_first_success_wins() {
    match after_first::<i32, String>(Ok(3)) {
        Lookup::Found(v) => assert_eq!(v, 3),
        Lookup::AskSecond => panic!("first source had the value"),
    }
    assert!(matches!(after_first::<i32, String>(Err("missing".to_owned())), Lookup::AskSecond));
}
