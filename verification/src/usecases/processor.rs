//! Syncing: fetch the expenses, skip those already recorded, create the transactions of
//! the rest, then record them. The outside work (the Splitwise listing, the store of
//! records, the YNAB budget) is done by the caller; `Processor` decides each next step.

use vstd::prelude::*;

use crate::decimal::decimal;
use crate::models::id::ID;
use crate::models::record::{is_record_of, Record};
use crate::models::splitwise::{Expense, Expenses};
use crate::models::transformer::{
    expense_fits, expense_fits_exec, expenses_fit, new, transform_spec, Config,
};
use crate::models::ynab::{views, Transaction};

verus! {

/// Where a sync stands.
#[derive(Debug, Clone, Copy, PartialEq, Eq, Structural)]
pub enum Phase {
    Start,
    FetchingExpenses,
    CheckingRecords,
    CreatingTransactions,
    AddingRecords,
    Done,
}

/// The outcome of the last step the caller carried out.
pub enum Event {
    /// The sync begins.
    Started,
    /// The expense tracker listed these expenses.
    ExpensesFetched(Expenses),
    /// The store holds records under these ids.
    RecordsChecked(Vec<String>),
    /// The budget took the transactions.
    TransactionsCreated,
    /// The store took the records.
    RecordsAdded,
}

/// What the caller is to do next.
pub enum Action {
    /// List all expenses.
    FetchExpenses,
    /// Ask which of these ids the store holds records under.
    CheckRecords(Vec<String>),
    /// Create these transactions in the budget.
    CreateTransactions(Vec<Transaction>),
    /// Store these records.
    AddRecords(Vec<Record>),
    /// The sync is complete.
    Finish,
}

/// The texts of a sequence of strings.
pub open spec fn texts(ss: Seq<String>) -> Seq<Seq<char>> {
    ss.map_values(|s: String| s@)
}

/// The ids of expenses, as the store keys them.
pub open spec fn ids_spec(expenses: Seq<Expense>) -> Seq<Seq<char>> {
    expenses.map_values(|e: Expense| decimal(e.id as int))
}

/// The expenses whose id is not among `recorded`, in order.
pub open spec fn new_expenses_spec(expenses: Seq<Expense>, recorded: Seq<Seq<char>>) -> Seq<
    Expense,
>
    decreases expenses.len(),
{
    if expenses.len() == 0 {
        seq![]
    } else {
        let rest = new_expenses_spec(expenses.drop_last(), recorded);
        if recorded.contains(decimal(expenses.last().id as int)) {
            rest
        } else {
            rest.push(expenses.last())
        }
    }
}

/// `records` are the records of `expenses`, one for one and in order.
pub open spec fn records_of(records: Seq<Record>, expenses: Seq<Expense>) -> bool {
    &&& records.len() == expenses.len()
    &&& forall|k: int| 0 <= k < records.len() ==> is_record_of(#[trigger] records[k], expenses[k])
}

/// Whether `text` is among `texts`.
pub fn contains_text(texts_in: &Vec<String>, text: &String) -> (b: bool)
    ensures
        b == texts(texts_in@).contains(text@),
{
    let mut k: usize = 0;
    while k < texts_in.len()
        invariant
            k <= texts_in@.len(),
            forall|m: int| 0 <= m < k ==> texts_in@[m]@ != text@,
        decreases texts_in@.len() - k,
    {
        if texts_in[k] == *text {
            assert(texts(texts_in@)[k as int] == text@);
            return true;
        }
        k = k + 1;
    }
    proof {
        if texts(texts_in@).contains(text@) {
            let m = choose|m: int| 0 <= m < texts(texts_in@).len() && texts(texts_in@)[m] == text@;
            assert(texts_in@[m]@ == text@);
        }
    }
    false
}

/// The new expenses among a prefix grow one expense at a time.
pub proof fn lemma_new_expenses_take(expenses: Seq<Expense>, recorded: Seq<Seq<char>>, i: int)
    requires
        0 <= i < expenses.len(),
    ensures
        new_expenses_spec(expenses.take(i + 1), recorded) == if recorded.contains(
            decimal(expenses[i].id as int),
        ) {
            new_expenses_spec(expenses.take(i), recorded)
        } else {
            new_expenses_spec(expenses.take(i), recorded).push(expenses[i])
        },
        new_expenses_spec(expenses.take(0), recorded) == Seq::<Expense>::empty(),
{
    assert(expenses.take(i + 1).drop_last() =~= expenses.take(i));
    assert(expenses.take(0) =~= Seq::<Expense>::empty());
}

/// The new expenses among a prefix of a list begin the new expenses of the list.
pub proof fn lemma_new_expenses_prefix(expenses: Seq<Expense>, recorded: Seq<Seq<char>>, k: int)
    requires
        0 <= k <= expenses.len(),
    ensures
        new_expenses_spec(expenses.take(k), recorded).len() <= new_expenses_spec(
            expenses,
            recorded,
        ).len(),
        new_expenses_spec(expenses, recorded).take(
            new_expenses_spec(expenses.take(k), recorded).len() as int,
        ) == new_expenses_spec(expenses.take(k), recorded),
    decreases expenses.len() - k,
{
    let whole = new_expenses_spec(expenses, recorded);
    if k == expenses.len() {
        assert(expenses.take(k) =~= expenses);
        assert(whole.take(whole.len() as int) =~= whole);
    } else {
        lemma_new_expenses_prefix(expenses, recorded, k + 1);
        lemma_new_expenses_take(expenses, recorded, k);
        let shorter = new_expenses_spec(expenses.take(k), recorded);
        let longer = new_expenses_spec(expenses.take(k + 1), recorded);
        assert(whole.take(shorter.len() as int) =~= longer.take(shorter.len() as int));
        assert(longer.take(shorter.len() as int) =~= shorter);
    }
}

/// The ids of expenses, as the store keys them.
pub fn expense_ids(expenses: &Vec<Expense>) -> (ids: Vec<String>)
    ensures
        texts(ids@) == ids_spec(expenses@),
{
    let mut ids: Vec<String> = Vec::new();
    let mut i: usize = 0;
    while i < expenses.len()
        invariant
            i <= expenses@.len(),
            texts(ids@) == ids_spec(expenses@.take(i as int)),
        decreases expenses@.len() - i,
    {
        let id = expenses[i].id();
        let ghost before = ids@;
        ids.push(id);
        assert(texts(ids@) =~= texts(before).push(id@));
        assert(ids_spec(expenses@.take(i + 1)) =~= ids_spec(expenses@.take(i as int)).push(
            decimal(expenses@[i as int].id as int),
        ));
        i = i + 1;
    }
    assert(expenses@.take(i as int) =~= expenses@);
    ids
}

/// The expenses whose id is not among `recorded`, in order.
pub fn select_new_expenses(expenses: Vec<Expense>, recorded: &Vec<String>) -> (fresh: Vec<Expense>)
    ensures
        fresh@ == new_expenses_spec(expenses@, texts(recorded@)),
{
    let ghost all = expenses@;
    assert(all.len() == expenses.len());
    let mut rest = expenses;
    let mut fresh: Vec<Expense> = Vec::new();
    let mut i: usize = 0;
    assert(all.take(0) =~= Seq::<Expense>::empty());
    assert(all.skip(0) =~= all);
    while rest.len() > 0
        invariant
            i <= all.len(),
            rest@ == all.skip(i as int),
            rest@.len() == all.len() - i,
            all.len() <= usize::MAX,
            fresh@ == new_expenses_spec(all.take(i as int), texts(recorded@)),
        decreases rest@.len(),
    {
        let e = rest.remove(0);
        proof { lemma_new_expenses_take(all, texts(recorded@), i as int); }
        let seen = contains_text(recorded, &e.id());
        if !seen {
            fresh.push(e);
        }
        assert(all.skip(i + 1) =~= all.skip(i as int).drop_first());
        i = i + 1;
    }
    assert(all.take(i as int) =~= all);
    fresh
}

/// The record of each expense, in order.
pub fn records_for(expenses: &Vec<Expense>) -> (rs: Vec<Record>)
    ensures
        records_of(rs@, expenses@),
{
    let mut rs: Vec<Record> = Vec::new();
    let mut i: usize = 0;
    while i < expenses.len()
        invariant
            i <= expenses@.len(),
            rs@.len() == i,
            forall|k: int| 0 <= k < i ==> is_record_of(#[trigger] rs@[k], expenses@[k]),
        decreases expenses@.len() - i,
    {
        rs.push(Record::from(&expenses[i]));
        i = i + 1;
    }
    rs
}

/// The ids that records are stored under.
pub open spec fn record_ids(records: Seq<Record>) -> Seq<Seq<char>> {
    records.map_values(|r: Record| r.id@)
}

/// The new expenses are exactly the listed expenses whose id is not recorded: each new
/// expense is listed and unrecorded, and each listed, unrecorded expense is new.
pub proof fn lemma_new_expenses_are_unrecorded(expenses: Seq<Expense>, recorded: Seq<Seq<char>>)
    ensures
        forall|k: int|
            0 <= k < new_expenses_spec(expenses, recorded).len() ==> {
                &&& !recorded.contains(
                    decimal(#[trigger] new_expenses_spec(expenses, recorded)[k].id as int),
                )
                &&& expenses.contains(new_expenses_spec(expenses, recorded)[k])
            },
        forall|k: int|
            0 <= k < expenses.len() && !recorded.contains(decimal(#[trigger] expenses[k].id as int))
                ==> new_expenses_spec(expenses, recorded).contains(expenses[k]),
    decreases expenses.len(),
{
    if expenses.len() > 0 {
        let init = expenses.drop_last();
        lemma_new_expenses_are_unrecorded(init, recorded);
        let fresh = new_expenses_spec(expenses, recorded);
        let fresh_init = new_expenses_spec(init, recorded);
        assert forall|k: int| 0 <= k < fresh.len() implies {
            &&& !recorded.contains(decimal(#[trigger] fresh[k].id as int))
            &&& expenses.contains(fresh[k])
        } by {
            if k < fresh_init.len() {
                assert(fresh[k] == fresh_init[k]);
                assert(!recorded.contains(decimal(fresh_init[k].id as int)));
                assert(init.contains(fresh_init[k]));
                let j = choose|j: int| 0 <= j < init.len() && init[j] == fresh_init[k];
                assert(expenses[j] == init[j]);
            } else {
                assert(fresh[k] == expenses.last());
                assert(expenses[expenses.len() - 1] == expenses.last());
            }
        }
        assert forall|k: int|
            0 <= k < expenses.len() && !recorded.contains(decimal(#[trigger] expenses[k].id as int))
            implies fresh.contains(expenses[k]) by {
            if k < init.len() {
                assert(init[k] == expenses[k]);
                assert(!recorded.contains(decimal(init[k].id as int)));
                assert(fresh_init.contains(init[k]));
                let j = choose|j: int| 0 <= j < fresh_init.len() && fresh_init[j] == init[k];
                assert(fresh[j] == fresh_init[j]);
            } else {
                assert(fresh[fresh.len() - 1] == expenses[k]);
            }
        }
    }
}

proof fn lemma_all_recorded(expenses: Seq<Expense>, recorded: Seq<Seq<char>>)
    requires
        forall|k: int| 0 <= k < expenses.len() ==> recorded.contains(decimal(#[trigger] expenses[k].id as int)),
    ensures
        new_expenses_spec(expenses, recorded) == Seq::<Expense>::empty(),
    decreases expenses.len(),
{
    if expenses.len() > 0 {
        let init = expenses.drop_last();
        assert forall|k: int| 0 <= k < init.len() implies recorded.contains(decimal(#[trigger] init[k].id as int)) by {
            assert(init[k] == expenses[k]);
        }
        lemma_all_recorded(init, recorded);
        assert(expenses[expenses.len() - 1] == expenses.last());
    }
}

/// Syncing again books nothing twice. After a sync that found `recorded` among the ids
/// of `expenses` and stored `stored`, the records of its new expenses, the store holds
/// both; a later sync over the same expenses is told of every listed id that the store
/// holds (`recorded_again`). That sync keeps no expense, so it creates no transaction and
/// stores no record.
pub proof fn lemma_sync_is_idempotent(
    config: Config,
    expenses: Seq<Expense>,
    recorded: Seq<Seq<char>>,
    stored: Seq<Record>,
    recorded_again: Seq<Seq<char>>,
)
    requires
        records_of(stored, new_expenses_spec(expenses, recorded)),
        forall|id: Seq<char>|
            ids_spec(expenses).contains(id) && (recorded.contains(id) || record_ids(
                stored,
            ).contains(id)) ==> #[trigger] recorded_again.contains(id),
    ensures
        new_expenses_spec(expenses, recorded_again) == Seq::<Expense>::empty(),
        transform_spec(config, new_expenses_spec(expenses, recorded_again))
            == Seq::<crate::models::ynab::TransactionView>::empty(),
        forall|rs: Seq<Record>|
            records_of(rs, new_expenses_spec(expenses, recorded_again)) ==> rs.len() == 0,
{
    let fresh = new_expenses_spec(expenses, recorded);
    lemma_new_expenses_are_unrecorded(expenses, recorded);
    assert forall|k: int| 0 <= k < expenses.len() implies recorded_again.contains(
        decimal(#[trigger] expenses[k].id as int),
    ) by {
        let id = decimal(expenses[k].id as int);
        assert(ids_spec(expenses)[k] == id);
        if !recorded.contains(id) {
            assert(fresh.contains(expenses[k]));
            let j = choose|j: int| 0 <= j < fresh.len() && fresh[j] == expenses[k];
            assert(is_record_of(stored[j], fresh[j]));
            assert(record_ids(stored)[j] == id);
        }
    }
    lemma_all_recorded(expenses, recorded_again);
}

/// The decisions of one sync.
pub struct Processor<'a> {
    config: &'a Config,
    phase: Phase,
    expenses: Vec<Expense>,
}

impl<'a> Processor<'a> {
    pub closed spec fn config(&self) -> Config {
        *self.config
    }

    pub closed spec fn phase(&self) -> Phase {
        self.phase
    }

    /// The expenses in hand: all that were listed, then only the new ones.
    pub closed spec fn pending(&self) -> Seq<Expense> {
        self.expenses@
    }

    /// The steps that a sync in this state takes: an event of the kind its phase
    /// waits for, whose new expenses can be booked without overflow.
    pub open spec fn accepts_spec(&self, event: Event) -> bool {
        match event {
            Event::Started => self.phase() == Phase::Start,
            Event::ExpensesFetched(_) => self.phase() == Phase::FetchingExpenses,
            Event::RecordsChecked(recorded) => {
                &&& self.phase() == Phase::CheckingRecords
                &&& expenses_fit(
                    self.config().splitwise_user_id,
                    new_expenses_spec(self.pending(), texts(recorded@)),
                )
            },
            Event::TransactionsCreated => self.phase() == Phase::CreatingTransactions,
            Event::RecordsAdded => self.phase() == Phase::AddingRecords,
        }
    }

    /// A sync for the accounts and user of `config`, not yet begun.
    pub fn new(config: &'a Config) -> (p: Processor<'a>)
        ensures
            p.config() == *config,
            p.phase() == Phase::Start,
            p.pending() == Seq::<Expense>::empty(),
    {
        Processor { config, phase: Phase::Start, expenses: Vec::new() }
    }

    /// Takes the outcome of the last step and decides the next one:
    /// - at the start, list the expenses;
    /// - with the expenses listed, ask the store about their ids;
    /// - with the recorded ids known, keep the expenses whose id is not among them and
    ///   create their transactions;
    /// - with the transactions created, store a record of each kept expense;
    /// - with the records stored, finish.
    pub fn step(&mut self, event: Event) -> (a: Action)
        requires
            old(self).accepts_spec(event),
        ensures
            final(self).config() == old(self).config(),
            match event {
                Event::Started => {
                    &&& final(self).phase() == Phase::FetchingExpenses
                    &&& final(self).pending() == old(self).pending()
                    &&& a is FetchExpenses
                },
                Event::ExpensesFetched(listed) => {
                    &&& final(self).phase() == Phase::CheckingRecords
                    &&& final(self).pending() == listed.expenses@
                    &&& a matches Action::CheckRecords(ids) && texts(ids@) == ids_spec(
                        listed.expenses@,
                    )
                },
                Event::RecordsChecked(recorded) => {
                    &&& final(self).phase() == Phase::CreatingTransactions
                    &&& final(self).pending() == new_expenses_spec(
                        old(self).pending(),
                        texts(recorded@),
                    )
                    &&& a matches Action::CreateTransactions(ts) && views(ts@) == transform_spec(
                        final(self).config(),
                        final(self).pending(),
                    )
                },
                Event::TransactionsCreated => {
                    &&& final(self).phase() == Phase::AddingRecords
                    &&& final(self).pending() == old(self).pending()
                    &&& a matches Action::AddRecords(rs) && records_of(rs@, final(self).pending())
                },
                Event::RecordsAdded => {
                    &&& final(self).phase() == Phase::Done
                    &&& final(self).pending() == old(self).pending()
                    &&& a is Finish
                },
            },
    {
        match event {
            Event::Started => {
                self.phase = Phase::FetchingExpenses;
                Action::FetchExpenses
            },
            Event::ExpensesFetched(listed) => {
                let all = listed.expenses;
                let ids = expense_ids(&all);
                self.expenses = all;
                self.phase = Phase::CheckingRecords;
                Action::CheckRecords(ids)
            },
            Event::RecordsChecked(recorded) => {
                let mut all: Vec<Expense> = Vec::new();
                std::mem::swap(&mut all, &mut self.expenses);
                let fresh = select_new_expenses(all, &recorded);
                self.expenses = fresh;
                self.phase = Phase::CreatingTransactions;
                let transformer = new(self.config);
                Action::CreateTransactions(transformer.transform(self.expenses.as_slice()))
            },
            Event::TransactionsCreated => {
                self.phase = Phase::AddingRecords;
                Action::AddRecords(records_for(&self.expenses))
            },
            Event::RecordsAdded => {
                self.phase = Phase::Done;
                Action::Finish
            },
        }
    }

    /// How many expenses are in hand.
    pub fn pending_len(&self) -> (n: usize)
        ensures
            n == self.pending().len(),
    {
        self.expenses.len()
    }

    /// Whether `step` may take `event` (see `accepts_spec`).
    pub fn accepts(&self, event: &Event) -> (b: bool)
        ensures
            b == self.accepts_spec(*event),
    {
        match event {
            Event::Started => self.phase == Phase::Start,
            Event::ExpensesFetched(_) => self.phase == Phase::FetchingExpenses,
            Event::RecordsChecked(recorded) => {
                if self.phase != Phase::CheckingRecords {
                    return false;
                }
                let user_id = self.config.splitwise_user_id;
                let ghost fresh = new_expenses_spec(self.pending(), texts(recorded@));
                let mut i: usize = 0;
                let mut fresh_count: usize = 0;
                proof {
                    assert(self.expenses@.take(0) =~= Seq::<Expense>::empty());
                    assert(fresh.take(0) =~= Seq::<Expense>::empty());
                }
                while i < self.expenses.len()
                    invariant
                        i <= self.expenses@.len(),
                        fresh == new_expenses_spec(self.pending(), texts(recorded@)),
                        self.pending() == self.expenses@,
                        user_id == self.config().splitwise_user_id,
                        new_expenses_spec(self.expenses@.take(i as int), texts(recorded@))
                            == fresh.take(fresh_count as int),
                        fresh_count <= fresh.len(),
                        fresh_count <= i,
                        self.accepts_spec(*event) <==> expenses_fit(user_id, fresh),
                        expenses_fit(user_id, fresh.take(fresh_count as int)),
                    decreases self.expenses@.len() - i,
                {
                    let e = &self.expenses[i];
                    let seen = contains_text(recorded, &e.id());
                    proof { lemma_new_expenses_take(self.pending(), texts(recorded@), i as int); }
                    if !seen {
                        if !expense_fits_exec(user_id, e) {
                            proof {
                                lemma_new_expenses_prefix(self.pending(), texts(recorded@), i + 1);
                                assert(fresh.take(fresh_count + 1)[fresh_count as int] == *e);
                                assert(fresh_count < fresh.len());
                                assert(!expense_fits(user_id, fresh[fresh_count as int]));
                                assert(!expenses_fit(user_id, fresh));
                            }
                            return false;
                        }
                        proof {
                            lemma_new_expenses_prefix(self.pending(), texts(recorded@), i + 1);
                            assert(fresh.take(fresh_count + 1) =~= fresh.take(fresh_count as int).push(*e));
                        }
                        fresh_count = fresh_count + 1;
                    }
                    i = i + 1;
                }
                proof {
                    assert(self.expenses@.take(i as int) =~= self.expenses@);
                    assert(fresh.take(fresh_count as int) =~= fresh);
                }
                true
            },
            Event::TransactionsCreated => self.phase == Phase::CreatingTransactions,
            Event::RecordsAdded => self.phase == Phase::AddingRecords,
        }
    }
}

} // verus!
