//! Counting the items of a sequence that satisfy a predicate.

use vstd::prelude::*;

verus! {

/// How many items of `items` satisfy `wanted`.
pub open spec fn tally<A>(items: Seq<A>, wanted: spec_fn(A) -> bool) -> nat
    decreases items.len(),
{
    if items.len() == 0 {
        0
    } else {
        tally(items.drop_last(), wanted) + one_if(wanted(items.last()))
    }
}

/// 1 where `holds`, else 0.
pub open spec fn one_if(holds: bool) -> nat {
    if holds {
        1
    } else {
        0
    }
}

/// A tally never exceeds the number of items.
pub proof fn lemma_tally_bounded<A>(items: Seq<A>, wanted: spec_fn(A) -> bool)
    ensures
        tally(items, wanted) <= items.len(),
    decreases items.len(),
{
    if items.len() > 0 {
        lemma_tally_bounded(items.drop_last(), wanted);
    }
}

/// Replacing one item moves the tally by what the old item counted and what
/// the new one counts.
pub proof fn lemma_tally_update<A>(items: Seq<A>, at: int, item: A, wanted: spec_fn(A) -> bool)
    requires
        0 <= at < items.len(),
    ensures
        tally(items.update(at, item), wanted) + one_if(wanted(items[at])) == tally(items, wanted)
            + one_if(wanted(item)),
    decreases items.len(),
{
    let changed = items.update(at, item);
    if at == items.len() - 1 {
        assert(changed.drop_last() =~= items.drop_last());
    } else {
        assert(changed.drop_last() =~= items.drop_last().update(at, item));
        lemma_tally_update(items.drop_last(), at, item, wanted);
    }
}

/// An item that is wanted is counted.
pub proof fn lemma_tally_counts<A>(items: Seq<A>, at: int, wanted: spec_fn(A) -> bool)
    requires
        0 <= at < items.len(),
        wanted(items[at]),
    ensures
        tally(items, wanted) >= 1,
    decreases items.len(),
{
    if at < items.len() - 1 {
        lemma_tally_counts(items.drop_last(), at, wanted);
    }
}

/// Where nothing is wanted the tally is 0.
pub proof fn lemma_tally_none<A>(items: Seq<A>, wanted: spec_fn(A) -> bool)
    requires
        forall|at: int| 0 <= at < items.len() ==> !wanted(#[trigger] items[at]),
    ensures
        tally(items, wanted) == 0,
    decreases items.len(),
{
    if items.len() > 0 {
        lemma_tally_none(items.drop_last(), wanted);
    }
}

/// Two predicates that agree on every item give the same tally.
pub proof fn lemma_tally_agree<A>(
    items: Seq<A>,
    wanted: spec_fn(A) -> bool,
    other: spec_fn(A) -> bool,
)
    requires
        forall|at: int| 0 <= at < items.len() ==> wanted(#[trigger] items[at]) == other(items[at]),
    ensures
        tally(items, wanted) == tally(items, other),
    decreases items.len(),
{
    if items.len() > 0 {
        lemma_tally_agree(items.drop_last(), wanted, other);
    }
}

/// Where all that is wanted is also `wider`, the tally of the wanted is the
/// smaller one.
pub proof fn lemma_tally_within<A>(
    items: Seq<A>,
    wanted: spec_fn(A) -> bool,
    wider: spec_fn(A) -> bool,
)
    requires
        forall|at: int| 0 <= at < items.len() ==> (wanted(#[trigger] items[at]) ==> wider(items[at])),
    ensures
        tally(items, wanted) <= tally(items, wider),
    decreases items.len(),
{
    if items.len() > 0 {
        lemma_tally_within(items.drop_last(), wanted, wider);
    }
}

/// Where every item is wanted the tally is the number of items.
pub proof fn lemma_tally_all<A>(items: Seq<A>, wanted: spec_fn(A) -> bool)
    requires
        forall|at: int| 0 <= at < items.len() ==> wanted(#[trigger] items[at]),
    ensures
        tally(items, wanted) == items.len(),
    decreases items.len(),
{
    if items.len() > 0 {
        lemma_tally_all(items.drop_last(), wanted);
    }
}

/// Two sequences of one length whose items are wanted at the same places
/// give the same tally.
pub proof fn lemma_tally_alike<A>(items: Seq<A>, others: Seq<A>, wanted: spec_fn(A) -> bool)
    requires
        items.len() == others.len(),
        forall|at: int| 0 <= at < items.len() ==> wanted(#[trigger] items[at]) == wanted(others[at]),
    ensures
        tally(items, wanted) == tally(others, wanted),
    decreases items.len(),
{
    if items.len() > 0 {
        assert(wanted(items[items.len() - 1]) == wanted(others[items.len() - 1]));
        lemma_tally_alike(items.drop_last(), others.drop_last(), wanted);
    }
}

} // verus!
