//! The statement that stores a batch of expense ids in SQLite.

use vstd::prelude::*;

verus! {

/// `n` copies of `(?), `.
pub open spec fn placeholders(n: nat) -> Seq<char>
    decreases n,
{
    if n == 0 {
        seq![]
    } else {
        placeholders((n - 1) as nat) + "(?), "@
    }
}

/// The insert of `n` ids: one `(?)` placeholder for each, separated by `, `.
pub open spec fn batch_insert_spec(n: nat) -> Seq<char> {
    "INSERT INTO expenses (ID) values "@ + placeholders((n - 1) as nat) + "(?);"@
}

/// The statement that inserts `count` ids, with one placeholder each; `None` when there
/// is nothing to insert.
pub fn batch_insert_statement(count: usize) -> (s: Option<String>)
    ensures
        count == 0 <==> s is None,
        s matches Some(t) ==> t@ == batch_insert_spec(count as nat),
{
    if count == 0 {
        return None;
    }
    let mut statement = String::from_str("INSERT INTO expenses (ID) values ");
    let ghost head = statement@;
    let mut i: usize = 1;
    while i < count
        invariant
            1 <= i <= count,
            statement@ == head + placeholders((i - 1) as nat),
        decreases count - i,
    {
        statement.append("(?), ");
        i = i + 1;
    }
    statement.append("(?);");
    Some(statement)
}


proof fn lemma_placeholders_shape(m: nat)
    ensures
        placeholders(m).len() == 5 * m,
        forall|k: int|
            0 <= k < m ==> #[trigger] placeholders(m).subrange(5 * k, 5 * k + 5) == "(?), "@,
    decreases m,
{
    reveal_strlit("(?), ");
    if m > 0 {
        lemma_placeholders_shape((m - 1) as nat);
        let p = placeholders(m);
        let q = placeholders((m - 1) as nat);
        assert forall|k: int| 0 <= k < m implies #[trigger] p.subrange(5 * k, 5 * k + 5)
            == "(?), "@ by {
            if k < m - 1 {
                assert(p.subrange(5 * k, 5 * k + 5) =~= q.subrange(5 * k, 5 * k + 5));
            } else {
                assert(p.subrange(5 * k, 5 * k + 5) =~= "(?), "@);
            }
        }
    }
}

/// The statement for `n` ids holds one `(?)` placeholder per id: after the fixed head
/// come `n - 1` copies of `(?), ` and then `(?);`, nothing else.
pub proof fn lemma_batch_insert_one_placeholder_per_id(n: nat)
    requires
        n >= 1,
    ensures
        ({
            let s = batch_insert_spec(n);
            let head = "INSERT INTO expenses (ID) values "@;
            &&& s.len() == head.len() + 5 * n - 1
            &&& s.subrange(0, head.len() as int) == head
            &&& forall|k: int|
                0 <= k < n - 1 ==> #[trigger] s.subrange(
                    head.len() + 5 * k,
                    head.len() + 5 * k + 5,
                ) == "(?), "@
            &&& s.subrange(head.len() + 5 * (n - 1), s.len() as int) == "(?);"@
        }),
{
    reveal_strlit("(?);");
    reveal_strlit("(?), ");
    let head = "INSERT INTO expenses (ID) values "@;
    let m = (n - 1) as nat;
    let p = placeholders(m);
    let s = batch_insert_spec(n);
    lemma_placeholders_shape(m);
    let h = head.len() as int;
    assert(s.subrange(0, h) =~= head);
    assert forall|k: int| 0 <= k < n - 1 implies #[trigger] s.subrange(h + 5 * k, h + 5 * k + 5)
        == "(?), "@ by {
        assert(s.subrange(h + 5 * k, h + 5 * k + 5) =~= p.subrange(5 * k, 5 * k + 5));
    }
    assert(s.subrange(h + 5 * (n - 1), s.len() as int) =~= "(?);"@);
}

} // verus!
