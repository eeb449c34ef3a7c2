//! The rows of the store as a mathematical map.

use vstd::prelude::*;

verus! {

/// The persisted rows as a mathematical map: one count per target that has a
/// row. A map holds at most one row per target.
pub type Table = Map<Seq<char>, int>;

/// The count that `table` holds for `target`; 0 where it has no row.
pub open spec fn count_of(table: Table, target: Seq<char>) -> int {
    if table.dom().contains(target) {
        table[target]
    } else {
        0
    }
}

/// The table after one upsert for `target`: a new row with count 1, or the
/// row that was there with its count raised by 1.
pub open spec fn upsert(table: Table, target: Seq<char>) -> Table {
    if table.dom().contains(target) {
        table.insert(target, table[target] + 1)
    } else {
        table.insert(target, 1)
    }
}

/// Every row that exists has a count of at least 1.
pub open spec fn counts_positive(table: Table) -> bool {
    forall|target: Seq<char>| #[trigger] table.dom().contains(target) ==> table[target] >= 1
}

/// An upsert raises the count of its target by exactly 1, and leaves a row
/// behind.
pub proof fn lemma_upsert_counts(table: Table, target: Seq<char>)
    ensures
        upsert(table, target).dom().contains(target),
        count_of(upsert(table, target), target) == count_of(table, target) + 1,
{
}

/// An upsert for one target leaves every other target as it was: the same
/// rows exist, with the same counts.
pub proof fn lemma_upsert_leaves_others(table: Table, target: Seq<char>, other: Seq<char>)
    requires
        other != target,
    ensures
        upsert(table, target).dom().contains(other) == table.dom().contains(other),
        upsert(table, target)[other] == table[other],
        count_of(upsert(table, target), other) == count_of(table, other),
{
}

/// An upsert is never a no-op: the table after it differs from the table
/// before it.
pub proof fn lemma_upsert_changes_table(table: Table, target: Seq<char>)
    ensures
        upsert(table, target) != table,
{
    lemma_upsert_counts(table, target);
}

/// An upsert keeps every count at 1 or more.
pub proof fn lemma_upsert_keeps_counts_positive(table: Table, target: Seq<char>)
    requires
        counts_positive(table),
    ensures
        counts_positive(upsert(table, target)),
{
    assert forall|other: Seq<char>| #[trigger]
        upsert(table, target).dom().contains(other) implies upsert(table, target)[other] >= 1 by {
        if other != target {
            assert(table.dom().contains(other));
        }
    }
}

} // verus!
