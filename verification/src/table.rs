//! What follows of a table that takes no row twice, and of a query that answers with the rows of
//! such a table that meet its conditions, newest first.
//!
//! Nothing here runs: the table is the database's. These are the laws of a database that does what
//! the statements of [`indexer`] and [`executor`] ask of it, over what the contracts there speak
//! of: the entries that were inserted, the number of rows that each changed, and the rows of an
//! answer.
use crate::entry::EntryModel;
use crate::executor;
use crate::indexer;
use crate::indexer::Indexer;
use crate::json;
use crate::query::ClauseModel;
use crate::store;
use crate::store::{BindModel, HashedModel, RowModel};
use crate::text;
use crate::time::Instant;
use vstd::prelude::*;

verus! {

// ---------------------------------------------------------------------------
// Insertion
// ---------------------------------------------------------------------------

/// Whether a table has a row with this digest.
pub open spec fn held(table: Seq<HashedModel>, hash: Seq<char>) -> bool {
    exists|k: int| 0 <= k < table.len() && (#[trigger] table[k]).raw_hash == hash
}

/// A table after entries were inserted: each has its row added, unless it has no timestamp or the
/// table has a row with its digest.
pub open spec fn table_after(table: Seq<HashedModel>, entries: Seq<EntryModel>) -> Seq<HashedModel>
    decreases entries.len(),
{
    if entries.len() == 0 {
        table
    } else {
        let before = table_after(table, entries.drop_last());
        let entry = entries.last();
        if entry.timestamp is None || held(before, indexer::fingerprint(entry)) {
            before
        } else {
            before.push(indexer::row_of(entry))
        }
    }
}

/// Whether a table answers so to the insertion of entries: no row is changed by an entry whose
/// digest it has by then, and some row by any other.
pub open spec fn table_answers(
    table: Seq<HashedModel>,
    entries: Seq<EntryModel>,
    changes: Seq<nat>,
) -> bool
    decreases entries.len(),
{
    &&& entries.len() == changes.len()
    &&& entries.len() > 0 ==> {
        &&& table_answers(table, entries.drop_last(), changes.drop_last())
        &&& entries.last().timestamp is Some ==> (changes.last() == 0 <==> held(
            table_after(table, entries.drop_last()),
            indexer::fingerprint(entries.last()),
        ))
    }
}

/// The number of entries with a timestamp.
pub open spec fn timestamped(entries: Seq<EntryModel>) -> nat
    decreases entries.len(),
{
    if entries.len() == 0 {
        0
    } else {
        timestamped(entries.drop_last()) + (if entries.last().timestamp is Some {
            1nat
        } else {
            0nat
        })
    }
}

/// The rows that were there stay as they are and where they are, whatever is inserted.
pub proof fn rows_stay(table: Seq<HashedModel>, entries: Seq<EntryModel>)
    ensures
        table_after(table, entries).len() >= table.len(),
        table_after(table, entries).take(table.len() as int) == table,
    decreases entries.len(),
{
    if entries.len() == 0 {
        assert(table.take(table.len() as int) == table);
    } else {
        rows_stay(table, entries.drop_last());
        let before = table_after(table, entries.drop_last());
        assert(before.push(indexer::row_of(entries.last())).take(table.len() as int)
            == before.take(table.len() as int));
    }
}

/// The table grows by exactly the number of entries that are counted as inserted.
pub proof fn rows_grow_by_inserted(
    table: Seq<HashedModel>,
    entries: Seq<EntryModel>,
    changes: Seq<nat>,
)
    requires
        table_answers(table, entries, changes),
    ensures
        table_after(table, entries).len() == table.len() + indexer::tally(
            entries,
            changes,
        ).inserted,
    decreases entries.len(),
{
    if entries.len() > 0 {
        rows_grow_by_inserted(table, entries.drop_last(), changes.drop_last());
    }
}

/// A table without two rows of one digest stays so.
pub proof fn digests_stay_distinct(table: Seq<HashedModel>, entries: Seq<EntryModel>)
    requires
        forall|i: int, j: int|
            0 <= i < j < table.len() ==> (#[trigger] table[i]).raw_hash != (
            #[trigger] table[j]).raw_hash,
    ensures
        ({
            let after = table_after(table, entries);
            forall|i: int, j: int|
                0 <= i < j < after.len() ==> (#[trigger] after[i]).raw_hash != (
                #[trigger] after[j]).raw_hash
        }),
    decreases entries.len(),
{
    if entries.len() > 0 {
        digests_stay_distinct(table, entries.drop_last());
    }
}

/// Entries without a timestamp are counted as skipped, and the others as inserted or as
/// duplicates.
pub proof fn skipped_are_those_without_timestamp(entries: Seq<EntryModel>, changes: Seq<nat>)
    requires
        entries.len() == changes.len(),
    ensures
        ({
            let t = indexer::tally(entries, changes);
            &&& t.inserted + t.deduplicated == timestamped(entries)
            &&& t.skipped_no_timestamp == entries.len() - timestamped(entries)
        }),
    decreases entries.len(),
{
    if entries.len() > 0 {
        skipped_are_those_without_timestamp(entries.drop_last(), changes.drop_last());
    }
}

proof fn tables_add_up(table: Seq<HashedModel>, a: Seq<EntryModel>, b: Seq<EntryModel>)
    ensures
        table_after(table, a + b) == table_after(table_after(table, a), b),
    decreases b.len(),
{
    if b.len() == 0 {
        assert(a + b == a);
    } else {
        assert((a + b).drop_last() == a + b.drop_last());
        tables_add_up(table, a, b.drop_last());
    }
}

/// Where a batch is cut does not matter: inserting two batches after each other leaves the table
/// that inserting both at once leaves, is answered the same, and is counted the same.
pub proof fn cuts_do_not_matter(
    table: Seq<HashedModel>,
    a: Seq<EntryModel>,
    b: Seq<EntryModel>,
    changes_a: Seq<nat>,
    changes_b: Seq<nat>,
)
    requires
        a.len() == changes_a.len(),
        b.len() == changes_b.len(),
    ensures
        table_after(table, a + b) == table_after(table_after(table, a), b),
        table_answers(table, a + b, changes_a + changes_b) <==> table_answers(table, a, changes_a)
            && table_answers(table_after(table, a), b, changes_b),
        indexer::tally(a + b, changes_a + changes_b) == indexer::tally(a, changes_a).plus(
            indexer::tally(b, changes_b),
        ),
    decreases b.len(),
{
    indexer::batches_add_up(a, b, changes_a, changes_b);
    tables_add_up(table, a, b);
    if b.len() == 0 {
        assert(a + b == a);
        assert(changes_a + changes_b == changes_a);
    } else {
        assert((a + b).drop_last() == a + b.drop_last());
        assert((changes_a + changes_b).drop_last() == changes_a + changes_b.drop_last());
        tables_add_up(table, a, b.drop_last());
        cuts_do_not_matter(table, a, b.drop_last(), changes_a, changes_b.drop_last());
    }
}

proof fn held_stays(table: Seq<HashedModel>, entries: Seq<EntryModel>, hash: Seq<char>)
    requires
        held(table, hash),
    ensures
        held(table_after(table, entries), hash),
{
    rows_stay(table, entries);
    let k = choose|k: int| 0 <= k < table.len() && (#[trigger] table[k]).raw_hash == hash;
    assert(table_after(table, entries).take(table.len() as int)[k] == table[k]);
    assert(table_after(table, entries)[k].raw_hash == hash);
}

proof fn inserted_is_held(table: Seq<HashedModel>, entries: Seq<EntryModel>, i: int)
    requires
        0 <= i < entries.len(),
        entries[i].timestamp is Some,
    ensures
        held(table_after(table, entries), indexer::fingerprint(entries[i])),
    decreases entries.len(),
{
    let front = entries.drop_last();
    let before = table_after(table, front);
    if i < front.len() {
        inserted_is_held(table, front, i);
        held_stays(before, seq![entries.last()], indexer::fingerprint(entries[i]));
        assert(seq![entries.last()].drop_last() == Seq::<EntryModel>::empty());
        assert(table_after(before, seq![entries.last()].drop_last()) == before);
    } else if !held(before, indexer::fingerprint(entries[i])) {
        let after = table_after(table, entries);
        assert(after[after.len() - 1].raw_hash == indexer::fingerprint(entries[i]));
    }
}

/// Whether two lists of entries come from the same lines, whatever was added to them.
pub open spec fn same_lines(a: Seq<EntryModel>, b: Seq<EntryModel>) -> bool {
    &&& a.len() == b.len()
    &&& forall|i: int|
        0 <= i < a.len() ==> (#[trigger] a[i]).raw == b[i].raw && (a[i].timestamp is Some
            <==> b[i].timestamp is Some)
}

proof fn held_entries_leave_the_table(table: Seq<HashedModel>, entries: Seq<EntryModel>)
    requires
        forall|i: int|
            0 <= i < entries.len() && (#[trigger] entries[i]).timestamp is Some ==> held(
                table,
                indexer::fingerprint(entries[i]),
            ),
    ensures
        table_after(table, entries) == table,
    decreases entries.len(),
{
    if entries.len() > 0 {
        let front = entries.drop_last();
        assert forall|i: int|
            0 <= i < front.len() && (#[trigger] front[i]).timestamp is Some implies held(
            table,
            indexer::fingerprint(front[i]),
        ) by {
            assert(front[i] == entries[i]);
        }
        held_entries_leave_the_table(table, front);
        assert(entries[entries.len() - 1] == entries.last());
    }
}

proof fn same_lines_leave_the_table(
    table: Seq<HashedModel>,
    entries: Seq<EntryModel>,
    since: Seq<EntryModel>,
    again: Seq<EntryModel>,
)
    requires
        same_lines(entries, again),
    ensures
        table_after(table_after(table_after(table, entries), since), again) == table_after(
            table_after(table, entries),
            since,
        ),
{
    let first = table_after(table, entries);
    let now = table_after(first, since);
    assert forall|i: int|
        0 <= i < again.len() && (#[trigger] again[i]).timestamp is Some implies held(
        now,
        indexer::fingerprint(again[i]),
    ) by {
        assert(entries[i].raw == again[i].raw);
        inserted_is_held(table, entries, i);
        held_stays(first, since, indexer::fingerprint(entries[i]));
    }
    held_entries_leave_the_table(now, again);
}

/// Inserting the same lines again, whatever was inserted since and whatever was added to them,
/// leaves the table as it is: every entry with a timestamp is a duplicate.
pub proof fn inserting_again_adds_nothing(
    table: Seq<HashedModel>,
    entries: Seq<EntryModel>,
    since: Seq<EntryModel>,
    again: Seq<EntryModel>,
    changes: Seq<nat>,
)
    requires
        same_lines(entries, again),
        table_answers(table_after(table_after(table, entries), since), again, changes),
    ensures
        ({
            let now = table_after(table_after(table, entries), since);
            let t = indexer::tally(again, changes);
            &&& table_after(now, again) == now
            &&& t.inserted == 0
            &&& t.deduplicated == timestamped(again)
            &&& t.skipped_no_timestamp == again.len() - timestamped(again)
        }),
{
    let now = table_after(table_after(table, entries), since);
    same_lines_leave_the_table(table, entries, since, again);
    rows_grow_by_inserted(now, again, changes);
    skipped_are_those_without_timestamp(again, changes);
}

/// An insertion that got no further than some first entries can be done again as a whole: it leaves
/// the table that it would have left at once.
pub proof fn insertion_can_be_repeated(table: Seq<HashedModel>, entries: Seq<EntryModel>, n: int)
    requires
        0 <= n <= entries.len(),
    ensures
        table_after(table_after(table, entries.take(n)), entries) == table_after(table, entries),
{
    let done = entries.take(n);
    let rest = entries.skip(n);
    let first = table_after(table, done);
    assert(entries == done + rest);
    tables_add_up(table, done, rest);
    tables_add_up(first, done, rest);
    same_lines_leave_the_table(table, done, seq![], done);
    assert(table_after(first, seq![]) == first);
}

/// Of two entries with a timestamp and the same line, the later one is a duplicate.
pub proof fn equal_lines_have_one_row(
    table: Seq<HashedModel>,
    entries: Seq<EntryModel>,
    changes: Seq<nat>,
    i: int,
)
    requires
        table_answers(table, entries, changes),
        0 <= i < entries.len() - 1,
        entries[i].timestamp is Some,
        entries.last().timestamp is Some,
        entries[i].raw == entries.last().raw,
    ensures
        indexer::fate(entries.last(), changes.last()).deduplicated == 1,
{
    assert(entries.drop_last()[i] == entries[i]);
    inserted_is_held(table, entries.drop_last(), i);
}

// ---------------------------------------------------------------------------
// Queries
// ---------------------------------------------------------------------------

/// Whether the row at `i` comes before the row at `j` in an answer: its timestamp is greater, or
/// is the same and the row was added later.
pub open spec fn newer(table: Seq<HashedModel>, i: int, j: int) -> bool {
    let a = table[i].row.timestamp->0;
    let b = table[j].row.timestamp->0;
    text::sorts_before(b, a) || (a == b && i > j)
}

/// Whether rows stand newest first.
pub open spec fn newest_first(table: Seq<HashedModel>, ids: Seq<int>) -> bool {
    forall|i: int, j: int|
        0 <= i < j < ids.len() ==> newer(table, #[trigger] ids[i], #[trigger] ids[j])
}

/// Whether a row meets all conditions with their values. What a condition says of a row is for
/// `holds` to say.
pub open spec fn meets(
    holds: spec_fn(Seq<char>, BindModel, RowModel) -> bool,
    parts: Seq<Seq<char>>,
    binds: Seq<BindModel>,
    row: RowModel,
) -> bool {
    forall|k: int| 0 <= k < parts.len() ==> holds(#[trigger] parts[k], binds[k], row)
}

/// Whether these are the rows that meet all conditions, each once, newest first.
pub open spec fn selected(
    holds: spec_fn(Seq<char>, BindModel, RowModel) -> bool,
    table: Seq<HashedModel>,
    parts: Seq<Seq<char>>,
    binds: Seq<BindModel>,
    ids: Seq<int>,
) -> bool {
    &&& newest_first(table, ids)
    &&& forall|k: int| #[trigger]
        ids.contains(k) <==> 0 <= k < table.len() && meets(holds, parts, binds, table[k].row)
}

/// The first rows of an answer, as far as its cap goes.
pub open spec fn capped(ids: Seq<int>, limit: Option<nat>) -> Seq<int> {
    match limit {
        Some(n) => if n < ids.len() {
            ids.take(n as int)
        } else {
            ids
        },
        None => ids,
    }
}

/// Whether a table answers a query with these rows: those that meet the conditions of its
/// statement, newest first, as far as its cap goes.
pub open spec fn table_selects(
    holds: spec_fn(Seq<char>, BindModel, RowModel) -> bool,
    table: Seq<HashedModel>,
    clauses: Seq<ClauseModel>,
    limit: Option<nat>,
    now: Instant,
    ids: Seq<int>,
) -> bool {
    match executor::conditions(clauses, now) {
        Ok((parts, binds)) => exists|all: Seq<int>| #[trigger]
            selected(holds, table, parts, binds, all) && ids == capped(all, limit),
        Err(_) => false,
    }
}

/// The rows of entries, in their order.
pub open spec fn rows_of(entries: Seq<EntryModel>) -> Seq<HashedModel> {
    entries.map_values(|e: EntryModel| indexer::row_of(e))
}

/// Whether the JSON of the members of each entry reads back.
pub open spec fn read_back(entries: Seq<EntryModel>) -> bool {
    forall|i: int|
        0 <= i < entries.len() ==> json::members_read(
            json::members_printed((#[trigger] entries[i]).fields),
        ) == Some(entries[i].fields)
}

/// The answer of the database that holds these rows.
pub open spec fn rows_at(table: Seq<HashedModel>, ids: Seq<int>) -> Seq<
    Result<RowModel, rusqlite::Error>,
> {
    ids.map_values(|id: int| Ok::<RowModel, rusqlite::Error>(table[id].row))
}

proof fn newer_is_one_way(table: Seq<HashedModel>, i: int, j: int)
    requires
        newer(table, i, j),
    ensures
        !newer(table, j, i),
        i != j,
{
    let a = table[i].row.timestamp->0;
    let b = table[j].row.timestamp->0;
    text::sorting_is_one_way(a, b);
    text::sorting_is_one_way(b, a);
    text::sorting_is_one_way(a, a);
}

/// There is one way to put rows newest first.
proof fn one_order(table: Seq<HashedModel>, a: Seq<int>, b: Seq<int>)
    requires
        newest_first(table, a),
        newest_first(table, b),
        forall|k: int| #[trigger] a.contains(k) <==> b.contains(k),
    ensures
        a == b,
    decreases a.len(),
{
    if a.len() == 0 {
        if b.len() > 0 {
            assert(b.contains(b[0]));
            assert(a.contains(b[0]));
        }
        assert(a == b);
    } else {
        assert(a.contains(a[0]));
        let p = b.index_of(a[0]);
        assert(b.contains(b[0]) && a.contains(b[0]));
        let q = a.index_of(b[0]);
        if p > 0 {
            assert(newer(table, b[0], b[p]));
            newer_is_one_way(table, b[0], b[p]);
            assert(newer(table, a[0], a[q]));
        }
        assert(a[0] == b[0]);
        let x = a.drop_first();
        let y = b.drop_first();
        assert forall|i: int, j: int| 0 <= i < j < x.len() implies newer(
            table,
            #[trigger] x[i],
            #[trigger] x[j],
        ) by {
            assert(newer(table, a[i + 1], a[j + 1]));
        }
        assert forall|i: int, j: int| 0 <= i < j < y.len() implies newer(
            table,
            #[trigger] y[i],
            #[trigger] y[j],
        ) by {
            assert(newer(table, b[i + 1], b[j + 1]));
        }
        assert forall|k: int| #[trigger] x.contains(k) <==> y.contains(k) by {
            if x.contains(k) {
                let i = x.index_of(k);
                assert(a[i + 1] == k && newer(table, a[0], a[i + 1]));
                newer_is_one_way(table, a[0], a[i + 1]);
                assert(a.contains(k));
                let j = b.index_of(k);
                assert(y[j - 1] == k);
            }
            if y.contains(k) {
                let i = y.index_of(k);
                assert(b[i + 1] == k && newer(table, b[0], b[i + 1]));
                newer_is_one_way(table, b[0], b[i + 1]);
                assert(b.contains(k) && a.contains(k));
                let j = a.index_of(k);
                assert(x[j - 1] == k);
            }
        }
        one_order(table, x, y);
        assert(a == seq![a[0]] + x);
        assert(b == seq![b[0]] + y);
    }
}

proof fn first_rows_are_first_entries(answers: Seq<Result<RowModel, rusqlite::Error>>, n: int)
    requires
        0 <= n <= answers.len(),
        executor::entries_of(answers) is Ok,
    ensures
        executor::entries_of(answers.take(n)) == Ok::<_, executor::RowFault>(
            executor::entries_of(answers)->Ok_0.take(n),
        ),
    decreases answers.len(),
{
    executor::entries_come_from_rows(answers);
    let entries = executor::entries_of(answers)->Ok_0;
    if n == answers.len() {
        assert(answers.take(n) == answers);
        assert(entries.take(n) == entries);
    } else {
        let front = executor::entries_of(answers.drop_last())->Ok_0;
        executor::entries_come_from_rows(answers.drop_last());
        first_rows_are_first_entries(answers.drop_last(), n);
        assert(answers.drop_last().take(n) == answers.take(n));
        assert(front.take(n) == entries.take(n));
    }
}

/// A limit keeps the newest: the answer with a limit is as much of the answer without one as the
/// limit admits, from the newest on. So are its entries of the entries without one.
pub proof fn limits_keep_the_newest(
    holds: spec_fn(Seq<char>, BindModel, RowModel) -> bool,
    table: Seq<HashedModel>,
    clauses: Seq<ClauseModel>,
    now: Instant,
    n: nat,
    all: Seq<int>,
    some: Seq<int>,
)
    requires
        table_selects(holds, table, clauses, None, now, all),
        table_selects(holds, table, clauses, Some(n), now, some),
    ensures
        newest_first(table, all),
        some == capped(all, Some(n)),
        executor::entries_of(rows_at(table, all)) matches Ok(entries) ==> executor::entries_of(
            rows_at(table, some),
        ) == Ok::<_, executor::RowFault>(
            if n < entries.len() {
                entries.take(n as int)
            } else {
                entries
            },
        ),
{
    let (parts, binds) = executor::conditions(clauses, now)->Ok_0;
    let a = choose|a: Seq<int>| #[trigger]
        selected(holds, table, parts, binds, a) && all == capped(a, None);
    let b = choose|b: Seq<int>| #[trigger]
        selected(holds, table, parts, binds, b) && some == capped(b, Some(n));
    one_order(table, a, b);
    let answers = rows_at(table, all);
    if executor::entries_of(answers) is Ok {
        executor::entries_come_from_rows(answers);
        if n < all.len() {
            first_rows_are_first_entries(answers, n as int);
            assert(rows_at(table, some) == answers.take(n as int));
        }
    }
}

/// The conditions of two queries together are those of the first and then those of the second, and
/// so are their values.
pub proof fn conditions_add_up(a: Seq<ClauseModel>, b: Seq<ClauseModel>, now: Instant)
    requires
        executor::conditions(a, now) is Ok,
        executor::conditions(b, now) is Ok,
    ensures
        executor::conditions(a + b, now) == Ok::<_, executor::PlanFault>(
            (
                executor::conditions(a, now)->Ok_0.0 + executor::conditions(b, now)->Ok_0.0,
                executor::conditions(a, now)->Ok_0.1 + executor::conditions(b, now)->Ok_0.1,
            ),
        ),
        executor::conditions(a, now)->Ok_0.0.len() == executor::conditions(a, now)->Ok_0.1.len(),
    decreases a.len() + b.len(),
{
    if b.len() == 0 {
        assert(a + b == a);
        if a.len() > 0 {
            conditions_add_up(a.drop_last(), b, now);
        }
        let (parts, binds) = executor::conditions(a, now)->Ok_0;
        assert(parts + Seq::<Seq<char>>::empty() == parts);
        assert(binds + Seq::<BindModel>::empty() == binds);
    } else {
        assert((a + b).drop_last() == a + b.drop_last());
        conditions_add_up(a, b.drop_last(), now);
        let (parts, binds) = executor::conditions(a, now)->Ok_0;
        let (parts_b, binds_b) = executor::conditions(b, now)->Ok_0;
        let (parts_f, binds_f) = executor::conditions(b.drop_last(), now)->Ok_0;
        assert(parts + parts_b == (parts + parts_f).push(parts_b.last()));
        assert(binds + binds_b == (binds + binds_f).push(binds_b.last()));
    }
}

/// `AND` is intersection: the answer to the clauses of two queries together is what both answers
/// have in common, in the order that it has in either. So a further clause never adds a row.
pub proof fn conjunction_is_intersection(
    holds: spec_fn(Seq<char>, BindModel, RowModel) -> bool,
    table: Seq<HashedModel>,
    a: Seq<ClauseModel>,
    b: Seq<ClauseModel>,
    now: Instant,
    ids_a: Seq<int>,
    ids_b: Seq<int>,
    both: Seq<int>,
)
    requires
        table_selects(holds, table, a, None, now, ids_a),
        table_selects(holds, table, b, None, now, ids_b),
        table_selects(holds, table, a + b, None, now, both),
    ensures
        forall|k: int| #[trigger] both.contains(k) <==> ids_a.contains(k) && ids_b.contains(k),
        forall|i: int, j: int, p: int, q: int|
            0 <= i < j < both.len() && 0 <= p < ids_a.len() && 0 <= q < ids_a.len()
                && #[trigger] both[i] == #[trigger] ids_a[p] && #[trigger] both[j]
                == #[trigger] ids_a[q] ==> p < q,
{
    conditions_add_up(a, b, now);
    conditions_add_up(b, seq![], now);
    let (parts_a, binds_a) = executor::conditions(a, now)->Ok_0;
    let (parts_b, binds_b) = executor::conditions(b, now)->Ok_0;
    let parts = parts_a + parts_b;
    let binds = binds_a + binds_b;
    assert forall|row: RowModel|
        meets(holds, parts, binds, row) <==> #[trigger] meets(holds, parts_a, binds_a, row)
            && meets(holds, parts_b, binds_b, row) by {
        if meets(holds, parts, binds, row) {
            assert forall|k: int| 0 <= k < parts_a.len() implies holds(
                #[trigger] parts_a[k],
                binds_a[k],
                row,
            ) by {
                assert(holds(parts[k], binds[k], row));
            }
            assert forall|k: int| 0 <= k < parts_b.len() implies holds(
                #[trigger] parts_b[k],
                binds_b[k],
                row,
            ) by {
                assert(holds(parts[k + parts_a.len()], binds[k + parts_a.len()], row));
            }
        }
        if meets(holds, parts_a, binds_a, row) && meets(holds, parts_b, binds_b, row) {
            assert forall|k: int| 0 <= k < parts.len() implies holds(
                #[trigger] parts[k],
                binds[k],
                row,
            ) by {
                if k < parts_a.len() {
                    assert(holds(parts_a[k], binds_a[k], row));
                } else {
                    assert(holds(parts_b[k - parts_a.len()], binds_b[k - parts_a.len()], row));
                }
            }
        }
    }
    assert forall|i: int, j: int, p: int, q: int|
        0 <= i < j < both.len() && 0 <= p < ids_a.len() && 0 <= q < ids_a.len()
            && #[trigger] both[i] == #[trigger] ids_a[p] && #[trigger] both[j]
            == #[trigger] ids_a[q] implies p < q by {
        newer_is_one_way(table, both[i], both[j]);
    }
}

/// Entries that have a timestamp and a digest of their own each have their row in a table that was
/// empty, in their order.
pub proof fn distinct_entries_have_their_rows(entries: Seq<EntryModel>)
    requires
        forall|i: int| 0 <= i < entries.len() ==> (#[trigger] entries[i]).timestamp is Some,
        forall|i: int, j: int|
            0 <= i < j < entries.len() ==> indexer::fingerprint(#[trigger] entries[i])
                != indexer::fingerprint(#[trigger] entries[j]),
    ensures
        table_after(seq![], entries) == rows_of(entries),
    decreases entries.len(),
{
    if entries.len() > 0 {
        let front = entries.drop_last();
        assert forall|i: int| 0 <= i < front.len() implies (
        #[trigger] front[i]).timestamp is Some by {
            assert(front[i] == entries[i]);
        }
        assert forall|i: int, j: int| 0 <= i < j < front.len() implies indexer::fingerprint(
            #[trigger] front[i],
        ) != indexer::fingerprint(#[trigger] front[j]) by {
            assert(front[i] == entries[i] && front[j] == entries[j]);
        }
        distinct_entries_have_their_rows(front);
        let before = table_after(seq![], front);
        assert(entries[entries.len() - 1] == entries.last());
        assert forall|k: int| 0 <= k < before.len() implies (#[trigger] before[k]).raw_hash
            != indexer::fingerprint(entries.last()) by {
            assert(before[k] == indexer::row_of(front[k]));
            assert(front[k] == entries[k]);
        }
    } else {
        assert(table_after(seq![], entries) == Seq::<HashedModel>::empty());
    }
}

/// The entries of an answer without a limit are those whose rows were selected, each once, newest
/// first, where their members read back.
pub proof fn selected_entries_are_given_back(
    holds: spec_fn(Seq<char>, BindModel, RowModel) -> bool,
    entries: Seq<EntryModel>,
    clauses: Seq<ClauseModel>,
    now: Instant,
    ids: Seq<int>,
)
    requires
        read_back(entries),
        table_selects(holds, rows_of(entries), clauses, None, now, ids),
    ensures
        newest_first(rows_of(entries), ids),
        ids.no_duplicates(),
        executor::entries_of(rows_at(rows_of(entries), ids)) == Ok::<_, executor::RowFault>(
            ids.map_values(|id: int| entries[id]),
        ),
{
    let rows = rows_of(entries);
    assert forall|i: int, j: int| 0 <= i < ids.len() && 0 <= j < ids.len() && i != j implies ids[i]
        != ids[j] by {
        if i < j {
            newer_is_one_way(rows, ids[i], ids[j]);
        } else {
            newer_is_one_way(rows, ids[j], ids[i]);
        }
    }
    assert forall|i: int| 0 <= i < ids.len() implies 0 <= #[trigger] ids[i] < entries.len() by {
        assert(ids.contains(ids[i]));
    }
    let given = ids.map_values(|id: int| entries[id]);
    assert forall|i: int| 0 <= i < given.len() implies json::members_read(
        json::members_printed((#[trigger] given[i]).fields),
    ) == Some(given[i].fields) by {
        assert(given[i] == entries[ids[i]]);
    }
    indexer::stored_entries_are_given_back(given);
    assert(rows_at(rows, ids) =~= indexer::answer_with(given));
}

/// All that was inserted into an empty table is given back: the answer to the query without
/// conditions holds the entries as they were, each once, newest first. The entries have a timestamp
/// and a digest of their own each, and their members read back.
pub proof fn inserted_entries_are_given_back(
    holds: spec_fn(Seq<char>, BindModel, RowModel) -> bool,
    entries: Seq<EntryModel>,
    now: Instant,
    ids: Seq<int>,
)
    requires
        forall|i: int| 0 <= i < entries.len() ==> (#[trigger] entries[i]).timestamp is Some,
        forall|i: int, j: int|
            0 <= i < j < entries.len() ==> indexer::fingerprint(#[trigger] entries[i])
                != indexer::fingerprint(#[trigger] entries[j]),
        read_back(entries),
        table_selects(holds, table_after(seq![], entries), seq![], None, now, ids),
    ensures
        newest_first(table_after(seq![], entries), ids),
        forall|k: int| #[trigger] ids.contains(k) <==> 0 <= k < entries.len(),
        ids.no_duplicates(),
        executor::entries_of(rows_at(table_after(seq![], entries), ids)) == Ok::<
            _,
            executor::RowFault,
        >(ids.map_values(|id: int| entries[id])),
{
    distinct_entries_have_their_rows(entries);
    selected_entries_are_given_back(holds, entries, seq![], now, ids);
}

// ---------------------------------------------------------------------------
// Opening
// ---------------------------------------------------------------------------

/// What a database has: the table of entries, if there is one, and indexes, by their names.
#[verifier::ext_equal]
pub struct DatabaseModel {
    pub table: Option<Seq<HashedModel>>,
    pub indexes: Set<Seq<char>>,
}

/// A database with the table and the indexes of the schema: those that are missing are made, and
/// whatever is there stays as it is.
pub open spec fn with_schema(database: DatabaseModel) -> DatabaseModel {
    DatabaseModel {
        table: Some(
            match database.table {
                Some(table) => table,
                None => seq![],
            },
        ),
        indexes: database.indexes.insert("idx_level"@).insert("idx_tag"@).insert("idx_timestamp"@),
    }
}

/// What statements make of a database when they are handed to a connection, where `does` says what
/// the connection does with each.
pub open spec fn after_statements(
    does: spec_fn(int, Seq<char>, DatabaseModel) -> DatabaseModel,
    connection: int,
    database: DatabaseModel,
    statements: Seq<Seq<char>>,
) -> DatabaseModel
    decreases statements.len(),
{
    if statements.len() == 0 {
        database
    } else {
        does(
            connection,
            statements.last(),
            after_statements(does, connection, database, statements.drop_last()),
        )
    }
}

/// Whether a connection that ran the schema made what was missing of it, and nothing else.
pub open spec fn makes_the_schema(
    does: spec_fn(int, Seq<char>, DatabaseModel) -> DatabaseModel,
) -> bool {
    forall|connection: int, database: DatabaseModel|
        store::batch_run(connection, indexer::schema()) ==> #[trigger] does(
            connection,
            indexer::schema(),
            database,
        ) == with_schema(database)
}

/// What [`Indexer::open`] and [`Indexer::open_in_memory`] say of an index that they opened, which
/// insertions leave so.
pub open spec fn opened_with_schema(index: Indexer) -> bool {
    &&& index.batches() == seq![indexer::schema()]
    &&& store::batch_run(index.identity(), indexer::schema())
}

/// An index that was opened has the table and its three indexes, and the rows that were there. One
/// that is opened again after entries were inserted has exactly the rows that this left.
pub proof fn opening_again_keeps_the_rows(
    does: spec_fn(int, Seq<char>, DatabaseModel) -> DatabaseModel,
    database: DatabaseModel,
    first: Indexer,
    entries: Seq<EntryModel>,
    second: Indexer,
)
    requires
        makes_the_schema(does),
        opened_with_schema(first),
        opened_with_schema(second),
    ensures
        ({
            let opened = after_statements(does, first.identity(), database, first.batches());
            let rows = match database.table {
                Some(table) => table,
                None => seq![],
            };
            let left = DatabaseModel { table: Some(table_after(rows, entries)), ..opened };
            &&& opened.table == Some(rows)
            &&& opened.indexes.contains("idx_level"@)
            &&& opened.indexes.contains("idx_tag"@)
            &&& opened.indexes.contains("idx_timestamp"@)
            &&& after_statements(does, second.identity(), left, second.batches()) == left
        }),
{
    let statements = seq![indexer::schema()];
    assert(statements.drop_last() == Seq::<Seq<char>>::empty());
    assert forall|connection: int, db: DatabaseModel| #[trigger]
        after_statements(does, connection, db, statements) == does(
            connection,
            indexer::schema(),
            db,
        ) by {
        assert(after_statements(does, connection, db, statements.drop_last()) == db);
    }
    let opened = with_schema(database);
    let left = DatabaseModel { table: Some(table_after(opened.table->0, entries)), ..opened };
    assert(with_schema(left) == left);
}

} // verus!
