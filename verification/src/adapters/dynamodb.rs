//! Batch lookups and writes of records in DynamoDB: when to send one, and reading the
//! answer of a lookup.

use vstd::prelude::*;

verus! {

/// The batch to send: `None` when there is nothing in it, for then no request is made.
pub fn plan_batch<T>(items: Vec<T>) -> (r: Option<Vec<T>>)
    ensures
        items@.len() == 0 <==> r is None,
        r matches Some(batch) ==> batch@ == items@,
{
    if items.len() == 0 {
        None
    } else {
        Some(items)
    }
}

/// The items that one table returned, each by its `id` attribute when it has one as text.
pub struct TableItems {
    pub table: String,
    pub ids: Vec<Option<String>>,
}

/// Why an answer does not give the ids.
#[derive(Debug, Clone, Copy, PartialEq, Eq, Structural)]
pub enum BatchGetError {
    /// The answer held no responses.
    NoResponses,
    /// The responses held nothing for the table asked.
    NoDataForTable,
    /// An item had no text `id`.
    MissingId,
}

/// The index of the first response that belongs to `table`.
pub open spec fn table_index(responses: Seq<TableItems>, table: Seq<char>) -> Option<int>
    decreases responses.len(),
{
    if responses.len() == 0 {
        None
    } else {
        match table_index(responses.drop_last(), table) {
            Some(i) => Some(i),
            None => if responses.last().table@ == table {
                Some(responses.len() - 1)
            } else {
                None
            },
        }
    }
}

/// Every item has a text `id`.
pub open spec fn all_have_ids(items: Seq<Option<String>>) -> bool {
    forall|k: int| 0 <= k < items.len() ==> #[trigger] items[k] is Some
}

/// The ids of items that all have one.
pub open spec fn item_ids(items: Seq<Option<String>>) -> Seq<Seq<char>> {
    items.map_values(|o: Option<String>| o->0@)
}

/// The ids recorded in `table`, from the responses of a batch lookup.
pub open spec fn read_batch_get_spec(responses: Option<Seq<TableItems>>, table: Seq<char>) -> Result<
    Seq<Seq<char>>,
    BatchGetError,
> {
    match responses {
        None => Err(BatchGetError::NoResponses),
        Some(rs) => match table_index(rs, table) {
            None => Err(BatchGetError::NoDataForTable),
            Some(i) => if all_have_ids(rs[i].ids@) {
                Ok(item_ids(rs[i].ids@))
            } else {
                Err(BatchGetError::MissingId)
            },
        },
    }
}

proof fn lemma_table_index_found(responses: Seq<TableItems>, table: Seq<char>, k: int)
    requires
        0 <= k <= responses.len(),
        table_index(responses.take(k), table) is Some,
    ensures
        table_index(responses, table) == table_index(responses.take(k), table),
        table_index(responses, table) matches Some(i) ==> 0 <= i < k && responses[i].table@
            == table,
    decreases responses.len() - k,
{
    if k < responses.len() {
        assert(responses.take(k + 1).drop_last() =~= responses.take(k));
        lemma_table_index_found(responses, table, k + 1);
    } else {
        assert(responses.take(k) =~= responses);
    }
    lemma_table_index_range(responses.take(k), table);
}

proof fn lemma_table_index_range(responses: Seq<TableItems>, table: Seq<char>)
    ensures
        table_index(responses, table) matches Some(i) ==> 0 <= i < responses.len()
            && responses[i].table@ == table,
    decreases responses.len(),
{
    if responses.len() > 0 {
        lemma_table_index_range(responses.drop_last(), table);
    }
}

pub open spec fn responses_view(o: Option<Vec<TableItems>>) -> Option<Seq<TableItems>> {
    match o {
        Some(rs) => Some(rs@),
        None => None,
    }
}

/// Reads the ids recorded in `table` from the responses of a batch lookup: the items of
/// the first response for that table, each of which must have a text `id`.
pub fn read_batch_get(responses: Option<Vec<TableItems>>, table: &str) -> (r: Result<
    Vec<String>,
    BatchGetError,
>)
    ensures
        r matches Ok(ids) ==> read_batch_get_spec(responses_view(responses), table@)
            == Ok::<Seq<Seq<char>>, BatchGetError>(ids@.map_values(|s: String| s@)),
        r matches Err(e) ==> read_batch_get_spec(responses_view(responses), table@)
            == Err::<Seq<Seq<char>>, BatchGetError>(e),
{
    let rs = match responses {
        None => {
            return Err(BatchGetError::NoResponses);
        },
        Some(rs) => rs,
    };
    let name = String::from_str(table);
    let ghost all = rs@;
    let mut i: usize = 0;
    assert(all.take(0) =~= Seq::<TableItems>::empty());
    assert(all.take(all.len() as int) =~= all);
    let mut found: Option<usize> = None;
    while i < rs.len()
        invariant_except_break
            found is None,
            table_index(all.take(i as int), table@) is None,
        invariant
            i <= rs@.len(),
            all == rs@,
            name@ == table@,
            all.take(all.len() as int) == all,
        ensures
            found matches Some(j) ==> table_index(all, table@) == Some(j as int) && j
                < all.len(),
            found is None ==> table_index(all, table@) is None,
        decreases rs@.len() - i,
    {
        assert(all.take(i + 1).drop_last() =~= all.take(i as int));
        if rs[i].table == name {
            found = Some(i);
            proof { lemma_table_index_found(all, table@, i + 1); }
            break;
        }
        i = i + 1;
    }
    let j = match found {
        None => {
            return Err(BatchGetError::NoDataForTable);
        },
        Some(j) => j,
    };
    let items = &rs[j].ids;
    assert(read_batch_get_spec(responses_view(responses), table@) == if all_have_ids(items@) {
        Ok(item_ids(items@))
    } else {
        Err(BatchGetError::MissingId)
    });
    let mut ids: Vec<String> = Vec::new();
    let mut k: usize = 0;
    while k < items.len()
        invariant
            k <= items@.len(),
            j < all.len(),
            items@ == all[j as int].ids@,
            read_batch_get_spec(responses_view(responses), table@) == if all_have_ids(items@) {
                Ok(item_ids(items@))
            } else {
                Err(BatchGetError::MissingId)
            },
            forall|m: int| 0 <= m < k ==> #[trigger] items@[m] is Some,
            ids@.map_values(|s: String| s@) == item_ids(items@.take(k as int)),
        decreases items@.len() - k,
    {
        match &items[k] {
            None => {
                assert(!all_have_ids(items@));
                return Err(BatchGetError::MissingId);
            },
            Some(id) => {
                let ghost before = ids@;
                let copy = id.clone();
                ids.push(copy);
                assert(items@.take(k + 1) =~= items@.take(k as int).push(items@[k as int]));
                assert(item_ids(items@.take(k + 1)) =~= item_ids(items@.take(k as int)).push(id@));
                assert(ids@.map_values(|s: String| s@) =~= before.map_values(|s: String| s@).push(
                    id@,
                ));
            },
        }
        k = k + 1;
    }
    assert(items@.take(k as int) =~= items@);
    Ok(ids)
}


proof fn lemma_table_index_first(responses: Seq<TableItems>, table: Seq<char>, i: int)
    requires
        0 <= i < responses.len(),
        responses[i].table@ == table,
        forall|j: int| 0 <= j < i ==> responses[j].table@ != table,
    ensures
        table_index(responses, table) == Some(i),
    decreases responses.len(),
{
    if i < responses.len() - 1 {
        lemma_table_index_first(responses.drop_last(), table, i);
    } else {
        lemma_table_index_none(responses.drop_last(), table);
    }
}

proof fn lemma_table_index_none(responses: Seq<TableItems>, table: Seq<char>)
    requires
        forall|j: int| 0 <= j < responses.len() ==> responses[j].table@ != table,
    ensures
        table_index(responses, table) is None,
    decreases responses.len(),
{
    if responses.len() > 0 {
        lemma_table_index_none(responses.drop_last(), table);
    }
}

/// A lookup answer with a response for the table gives, from the first such response,
/// exactly the ids of its items when they all have one (none when it has no items), and
/// `MissingId` when one has none; it never reports the table as missing.
pub proof fn lemma_batch_get_reads_first_response(
    responses: Seq<TableItems>,
    table: Seq<char>,
    i: int,
)
    requires
        0 <= i < responses.len(),
        responses[i].table@ == table,
        forall|j: int| 0 <= j < i ==> responses[j].table@ != table,
    ensures
        (forall|k: int| 0 <= k < responses[i].ids@.len() ==> #[trigger] responses[i].ids@[k] is Some)
            ==> read_batch_get_spec(Some(responses), table) == Ok::<
            Seq<Seq<char>>,
            BatchGetError,
        >(responses[i].ids@.map_values(|o: Option<String>| o->0@)),
        (exists|k: int| 0 <= k < responses[i].ids@.len() && #[trigger] responses[i].ids@[k] is None)
            ==> read_batch_get_spec(Some(responses), table) == Err::<
            Seq<Seq<char>>,
            BatchGetError,
        >(BatchGetError::MissingId),
        responses[i].ids@.len() == 0 ==> read_batch_get_spec(Some(responses), table) == Ok::<
            Seq<Seq<char>>,
            BatchGetError,
        >(Seq::empty()),
{
    lemma_table_index_first(responses, table, i);
    if responses[i].ids@.len() == 0 {
        assert(responses[i].ids@.map_values(|o: Option<String>| o->0@) =~= Seq::<Seq<char>>::empty());
    }
}

/// A lookup answer with no response for the table reports the table as missing, and an
/// answer with no responses at all reports that.
pub proof fn lemma_batch_get_without_table(responses: Seq<TableItems>, table: Seq<char>)
    ensures
        (forall|j: int| 0 <= j < responses.len() ==> responses[j].table@ != table)
            ==> read_batch_get_spec(Some(responses), table) == Err::<
            Seq<Seq<char>>,
            BatchGetError,
        >(BatchGetError::NoDataForTable),
        read_batch_get_spec(None, table) == Err::<Seq<Seq<char>>, BatchGetError>(
            BatchGetError::NoResponses,
        ),
{
    if forall|j: int| 0 <= j < responses.len() ==> responses[j].table@ != table {
        lemma_table_index_none(responses, table);
    }
}

} // verus!
