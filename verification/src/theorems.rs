//! What holds of every run of the service: of one turn, of any schedule, of
//! calls made one after the other, and of calls that interleave.

use vstd::prelude::*;
use crate::error::StoreError;
use crate::query::Stage;
use crate::table::{
    count_of, counts_positive, lemma_upsert_changes_table, lemma_upsert_keeps_counts_positive,
    upsert,
};
use crate::tally::{
    lemma_tally_agree, lemma_tally_alike, lemma_tally_all, lemma_tally_bounded,
    lemma_tally_counts, lemma_tally_none, lemma_tally_update, lemma_tally_within,
};
use crate::world::{alone, has_applied, in_turn, is_for, is_holding, Call, Turn, World};

verus! {

/// A turn keeps the calls, by number and target.
pub proof fn lemma_turn_keeps_calls(w: World, t: Turn)
    ensures
        w.turn(t).same_calls(w),
{
}

/// A turn keeps every call's stage in agreement with whether its upsert is
/// applied.
pub proof fn lemma_turn_keeps_coherent(w: World, t: Turn)
    requires
        w.coherent(),
    ensures
        w.turn(t).coherent(),
{
    let next = w.turn(t);
    assert forall|who: int| next.has(who) implies (#[trigger] next.calls[who]).coherent() by {
        assert(w.calls[who].coherent());
    }
}

/// A turn does one of two things to the table: nothing, or one upsert for the
/// target of the call that took the turn. It is the upsert exactly when the
/// call goes from its upsert to its read-back. A turn that ends a call, with
/// whatever result, leaves the table as it was: a failed upsert applies
/// nothing, and a failed read-back takes nothing back.
pub proof fn lemma_turn_is_one_upsert_or_nothing(w: World, t: Turn)
    requires
        w.has(t.who),
    ensures
        w.calls[t.who].stage is Upserting && w.turn(t).calls[t.who].stage is Reading ==> {
            &&& w.turn(t).table == upsert(w.table, w.calls[t.who].target)
            &&& w.turn(t).wrote(t.who) == Some(count_of(w.table, w.calls[t.who].target) + 1)
        },
        !(w.calls[t.who].stage is Upserting && w.turn(t).calls[t.who].stage is Reading) ==> {
            &&& w.turn(t).table == w.table
            &&& w.turn(t).wrote(t.who) == w.wrote(t.who)
        },
{
}

/// A turn of a call for one target leaves the row of every other target as
/// it was.
pub proof fn lemma_turn_leaves_other_targets(w: World, t: Turn, other: Seq<char>)
    requires
        w.has(t.who),
        w.calls[t.who].target != other,
    ensures
        w.turn(t).table.dom().contains(other) == w.table.dom().contains(other),
        w.turn(t).table[other] == w.table[other],
        count_of(w.turn(t).table, other) == count_of(w.table, other),
{
}

/// No turn lowers a count.
pub proof fn lemma_turn_never_lowers(w: World, t: Turn, target: Seq<char>)
    ensures
        count_of(w.turn(t).table, target) >= count_of(w.table, target),
{
}

/// A turn changes the stored count of a target by exactly the upserts for it
/// that the turn applied: none is lost and none is counted twice.
pub proof fn lemma_turn_counts_each_upsert(w: World, t: Turn, target: Seq<char>)
    requires
        w.coherent(),
    ensures
        count_of(w.turn(t).table, target) - w.turn(t).applied_count(target) == count_of(
            w.table,
            target,
        ) - w.applied_count(target),
{
    if w.has(t.who) {
        assert(w.calls[t.who].coherent());
        lemma_tally_update(w.calls, t.who, w.turn(t).calls[t.who], has_applied(target));
    }
}

/// A turn keeps the connections in balance: those idle and those held add up
/// to the same number before and after.
pub proof fn lemma_turn_balances_pool(w: World, t: Turn)
    ensures
        w.turn(t).idle + w.turn(t).holding() == w.idle + w.holding(),
{
    if w.has(t.who) {
        lemma_tally_update(w.calls, t.who, w.turn(t).calls[t.who], is_holding());
    }
}

/// A turn keeps the bookkeeping for a target: the stored count stays `base`
/// plus the applied upserts, and every returned count stays within bounds.
pub proof fn lemma_turn_tracks(w: World, t: Turn, target: Seq<char>, base: int)
    requires
        w.tracks(target, base),
    ensures
        w.turn(t).tracks(target, base),
{
    let next = w.turn(t);
    lemma_turn_keeps_coherent(w, t);
    lemma_turn_counts_each_upsert(w, t, target);
    lemma_turn_never_lowers(w, t, target);
    assert forall|who: int|
        next.has(who) && next.calls[who].target == target && (#[trigger] next.wrote(who))
            is Some implies base + 1 <= next.wrote(who).unwrap() <= count_of(next.table, target) by {
        if who == t.who && w.calls[who].stage is Upserting {
            // The count that the upsert leaves counts the upsert itself.
            lemma_tally_counts(next.calls, who, has_applied(target));
        } else {
            assert(w.wrote(who) == next.wrote(who));
        }
    }
    assert forall|who: int, count: i64|
        next.has(who) && next.calls[who].target == target && #[trigger] next.returned(
            who,
            count,
        ) implies next.wrote(who) is Some && next.wrote(who).unwrap() <= count <= count_of(
        next.table,
        target,
    ) by {
        assert(w.calls[who].coherent());
        if who == t.who && w.calls[who].stage is Reading {
            // The call reads a count that no turn has lowered since its upsert.
            assert(w.wrote(who) is Some);
        } else {
            assert(w.returned(who, count));
        }
    }
}

/// An exhausted pool refuses: a call that asks it for a connection ends with
/// `ConnectionUnavailable`, and no row is touched.
pub proof fn lemma_exhausted_pool_refuses(w: World, t: Turn)
    requires
        w.has(t.who),
        w.calls[t.who] == Call::fresh(w.calls[t.who].target),
        w.idle == 0,
    ensures
        w.turn(t).calls[t.who].stage == Stage::Finished(Err(StoreError::ConnectionUnavailable)),
        w.turn(t).wrote(t.who) is None,
        w.turn(t).table == w.table,
        w.turn(t).idle == 0,
{
}

/// Taking the turns of `first` and then those of `then` is taking the turns
/// of both in one schedule.
pub proof fn lemma_run_in_parts(w: World, first: Seq<Turn>, then: Seq<Turn>)
    ensures
        w.run(first + then) == w.run(first).run(then),
    decreases then.len(),
{
    if then.len() == 0 {
        assert(first + then =~= first);
    } else {
        assert((first + then).drop_last() =~= first + then.drop_last());
        lemma_run_in_parts(w, first, then.drop_last());
    }
}

/// A schedule keeps the calls, by number and target.
pub proof fn lemma_run_keeps_calls(w: World, schedule: Seq<Turn>)
    ensures
        w.run(schedule).same_calls(w),
    decreases schedule.len(),
{
    if schedule.len() > 0 {
        lemma_run_keeps_calls(w, schedule.drop_last());
        lemma_turn_keeps_calls(w.run(schedule.drop_last()), schedule.last());
    }
}

/// Two worlds with the same calls, by number and target, have as many calls
/// for each target.
pub proof fn lemma_calls_for_kept(w: World, later: World, target: Seq<char>)
    requires
        later.same_calls(w),
    ensures
        later.calls_for(target) == w.calls_for(target),
{
    assert forall|who: int| 0 <= who < later.calls.len() implies is_for(target)(
        #[trigger] later.calls[who],
    ) == is_for(target)(w.calls[who]) by {
        assert(later.calls[who].target == w.calls[who].target);
    }
    lemma_tally_alike(later.calls, w.calls, is_for(target));
}

/// A schedule keeps the bookkeeping for a target.
pub proof fn lemma_run_tracks(w: World, schedule: Seq<Turn>, target: Seq<char>, base: int)
    requires
        w.tracks(target, base),
    ensures
        w.run(schedule).tracks(target, base),
    decreases schedule.len(),
{
    if schedule.len() > 0 {
        lemma_run_tracks(w, schedule.drop_last(), target, base);
        lemma_turn_tracks(w.run(schedule.drop_last()), schedule.last(), target, base);
    }
}

/// A world in which every call has just begun keeps books from the counts
/// that it holds: no upsert is applied yet and no connection is held.
pub proof fn lemma_fresh_world_tracks(w: World, target: Seq<char>)
    requires
        w.all_fresh(),
    ensures
        w.tracks(target, count_of(w.table, target)),
        w.applied_count(target) == 0,
        w.holding() == 0,
{
    lemma_tally_none(w.calls, has_applied(target));
    lemma_tally_none(w.calls, is_holding());
}

/// No row is ever deleted: a target that has a row keeps it through any
/// schedule.
pub proof fn lemma_run_keeps_rows(w: World, schedule: Seq<Turn>, target: Seq<char>)
    requires
        w.table.dom().contains(target),
    ensures
        w.run(schedule).table.dom().contains(target),
    decreases schedule.len(),
{
    if schedule.len() > 0 {
        lemma_run_keeps_rows(w, schedule.drop_last(), target);
    }
}

/// Every row keeps a count of at least 1 through any schedule.
pub proof fn lemma_run_keeps_counts_positive(w: World, schedule: Seq<Turn>)
    requires
        counts_positive(w.table),
    ensures
        counts_positive(w.run(schedule).table),
    decreases schedule.len(),
{
    if schedule.len() > 0 {
        let mid = w.run(schedule.drop_last());
        let t = schedule.last();
        lemma_run_keeps_counts_positive(w, schedule.drop_last());
        if mid.has(t.who) {
            lemma_upsert_keeps_counts_positive(mid.table, mid.calls[t.who].target);
        }
    }
}

/// No schedule lowers a count.
pub proof fn lemma_run_never_lowers(w: World, schedule: Seq<Turn>, target: Seq<char>)
    ensures
        count_of(w.run(schedule).table, target) >= count_of(w.table, target),
    decreases schedule.len(),
{
    if schedule.len() > 0 {
        lemma_run_never_lowers(w, schedule.drop_last(), target);
        lemma_turn_never_lowers(w.run(schedule.drop_last()), schedule.last(), target);
    }
}

/// Calls for one target never touch the row of another. Where no call for
/// `other` takes a turn in a schedule, the row of `other` is after the
/// schedule as it was before: there or not, and with the same count.
pub proof fn lemma_run_leaves_other_targets(w: World, schedule: Seq<Turn>, other: Seq<char>)
    requires
        forall|at: int|
            0 <= at < schedule.len() && w.has((#[trigger] schedule[at]).who)
                ==> w.calls[schedule[at].who].target != other,
    ensures
        w.run(schedule).table.dom().contains(other) == w.table.dom().contains(other),
        w.run(schedule).table[other] == w.table[other],
        count_of(w.run(schedule).table, other) == count_of(w.table, other),
    decreases schedule.len(),
{
    if schedule.len() > 0 {
        let earlier = schedule.drop_last();
        let mid = w.run(earlier);
        let t = schedule.last();
        assert forall|at: int| 0 <= at < earlier.len() && w.has((#[trigger] earlier[at]).who) implies
            w.calls[earlier[at].who].target != other by {
            assert(earlier[at] == schedule[at]);
        }
        lemma_run_leaves_other_targets(w, earlier, other);
        lemma_run_keeps_calls(w, earlier);
        if mid.has(t.who) {
            assert(w.has(schedule[schedule.len() - 1].who));
            assert(mid.calls[t.who].target == w.calls[t.who].target);
            lemma_turn_leaves_other_targets(mid, t, other);
        }
    }
}

/// Connections are borrowed and given back, never made or lost: after any
/// schedule the idle connections and those that calls hold add up to what
/// they added up to before. From a start at which every call has just
/// begun, the calls never hold more connections than the pool had idle.
pub proof fn lemma_run_balances_pool(w: World, schedule: Seq<Turn>)
    ensures
        w.run(schedule).idle + w.run(schedule).holding() == w.idle + w.holding(),
        w.all_fresh() ==> w.run(schedule).holding() <= w.idle,
    decreases schedule.len(),
{
    if schedule.len() > 0 {
        lemma_run_balances_pool(w, schedule.drop_last());
        lemma_turn_balances_pool(w.run(schedule.drop_last()), schedule.last());
    }
    if w.all_fresh() {
        lemma_tally_none(w.calls, is_holding());
    }
}

/// A call that ended with `ConnectionUnavailable` has changed nothing in the
/// store, whatever the schedule was: none of its turns applied an upsert.
pub proof fn lemma_unavailable_applied_nothing(w: World, schedule: Seq<Turn>, who: int)
    requires
        w.all_fresh(),
        w.has(who),
        w.run(schedule).calls[who].stage == Stage::Finished(Err(StoreError::ConnectionUnavailable)),
    ensures
        w.run(schedule).wrote(who) is None,
{
    let target = w.calls[who].target;
    lemma_fresh_world_tracks(w, target);
    lemma_run_tracks(w, schedule, target, count_of(w.table, target));
    lemma_run_keeps_calls(w, schedule);
    assert(w.run(schedule).calls[who].coherent());
}

/// A call that runs alone, with a connection to be had and no fault, returns
/// the count that its target had plus 1, and leaves exactly one upsert
/// behind: the table has changed, the pool and the other calls have not.
/// So no call is a no-op, and a call repeated is a count raised again.
pub proof fn lemma_call_alone(w: World, who: int)
    requires
        w.has(who),
        w.calls[who] == Call::fresh(w.calls[who].target),
        w.idle >= 1,
        0 <= count_of(w.table, w.calls[who].target) < i64::MAX,
    ensures
        w.run(alone(who)).returned(who, (count_of(w.table, w.calls[who].target) + 1) as i64),
        w.run(alone(who)).wrote(who) == Some(count_of(w.table, w.calls[who].target) + 1),
        w.run(alone(who)).calls[who].target == w.calls[who].target,
        w.run(alone(who)).table == upsert(w.table, w.calls[who].target),
        w.run(alone(who)).table != w.table,
        w.run(alone(who)).idle == w.idle,
        w.run(alone(who)).calls.len() == w.calls.len(),
        forall|other: int|
            w.has(other) && other != who ==> #[trigger] w.run(alone(who)).calls[other]
                == w.calls[other],
{
    let t = Turn { who, fault: false };
    let schedule = alone(who);
    assert(schedule.drop_last() =~= seq![t, t]);
    assert(schedule.drop_last().drop_last() =~= seq![t]);
    assert(schedule.drop_last().drop_last().drop_last() =~= Seq::<Turn>::empty());
    reveal_with_fuel(World::run, 4);
    let acquired = w.turn(t);
    let upserted = acquired.turn(t);
    assert(w.run(schedule) == upserted.turn(t));
    assert(acquired.calls[who].stage == Stage::Upserting);
    assert(upserted.calls[who].stage == Stage::Reading);
    assert(upserted.table == upsert(w.table, w.calls[who].target));
    lemma_upsert_changes_table(w.table, w.calls[who].target);
}

/// The first call for a target that has no row yet returns 1, when it runs
/// alone with a connection to be had and no fault, and leaves a row with
/// count 1.
pub proof fn lemma_first_call_returns_one(w: World, who: int)
    requires
        w.has(who),
        w.calls[who] == Call::fresh(w.calls[who].target),
        w.idle >= 1,
        !w.table.dom().contains(w.calls[who].target),
    ensures
        w.run(alone(who)).returned(who, 1),
        w.run(alone(who)).table == w.table.insert(w.calls[who].target, 1),
{
    lemma_call_alone(w, who);
}

/// Calls made one after the other, with a connection to be had and no
/// fault, count up: each returns the count that its target had at the start,
/// plus the calls for that target that were made before it, plus 1.
pub proof fn lemma_calls_in_turn(w: World, calls: nat)
    requires
        w.all_fresh(),
        w.idle >= 1,
        w.counts_fit(),
        calls <= w.calls.len(),
    ensures
        w.run(in_turn(calls)).same_calls(w),
        w.run(in_turn(calls)).idle == w.idle,
        forall|who: int|
            0 <= who < calls ==> #[trigger] w.run(in_turn(calls)).returned(
                who,
                (count_of(w.table, w.calls[who].target) + w.earlier_calls_for(
                    who,
                    w.calls[who].target,
                ) + 1) as i64,
            ),
        forall|who: int|
            calls <= who < w.calls.len() ==> #[trigger] w.run(in_turn(calls)).calls[who]
                == w.calls[who],
        forall|target: Seq<char>|
            #[trigger] count_of(w.run(in_turn(calls)).table, target) == count_of(w.table, target)
                + w.earlier_calls_for(calls as int, target),
    decreases calls,
{
    if calls == 0 {
        assert(w.calls.take(0) =~= Seq::<Call>::empty());
    } else {
        let before = (calls - 1) as nat;
        let who = calls - 1;
        let mid = w.run(in_turn(before));
        let end = mid.run(alone(who));
        let mine = w.calls[who].target;
        lemma_calls_in_turn(w, before);
        lemma_run_in_parts(w, in_turn(before), alone(who));
        assert(mid.calls[who] == w.calls[who]);
        assert(w.calls.take(calls as int).drop_last() =~= w.calls.take(who));
        assert(w.calls.take(calls as int).last() == w.calls[who]);
        lemma_tally_bounded(w.calls.take(who), is_for(mine));
        assert(count_of(mid.table, mine) == count_of(w.table, mine) + w.earlier_calls_for(who, mine));
        assert(0 <= count_of(w.table, mine));
        lemma_call_alone(mid, who);
        assert forall|target: Seq<char>|
            #[trigger] count_of(end.table, target) == count_of(w.table, target)
                + w.earlier_calls_for(calls as int, target) by {
            assert(count_of(mid.table, target) == count_of(w.table, target) + w.earlier_calls_for(
                who,
                target,
            ));
        }
        assert forall|other: int| 0 <= other < calls implies #[trigger] end.returned(
            other,
            (count_of(w.table, w.calls[other].target) + w.earlier_calls_for(
                other,
                w.calls[other].target,
            ) + 1) as i64,
        ) by {
            if other != who {
                assert(end.calls[other] == mid.calls[other]);
                assert(mid.returned(
                    other,
                    (count_of(w.table, w.calls[other].target) + w.earlier_calls_for(
                        other,
                        w.calls[other].target,
                    ) + 1) as i64,
                ));
            }
        }
        assert forall|other: int| calls <= other < w.calls.len() implies #[trigger] end.calls[other]
            == w.calls[other] by {
            assert(end.calls[other] == mid.calls[other]);
        }
        assert forall|other: int| w.has(other) implies (#[trigger] end.calls[other]).target
            == w.calls[other].target by {
            if other != who {
                assert(end.calls[other] == mid.calls[other]);
            }
        }
    }
}

/// A target without a row, called `n` times in turn with a connection to be
/// had and no fault, returns 1, 2, ..., `n`, and ends with a count of `n`.
pub proof fn lemma_calls_return_one_to_n(w: World, target: Seq<char>)
    requires
        w.all_fresh(),
        forall|who: int| w.has(who) ==> (#[trigger] w.calls[who]).target == target,
        !w.table.dom().contains(target),
        w.idle >= 1,
        w.counts_fit(),
    ensures
        forall|who: int|
            w.has(who) ==> #[trigger] w.run(in_turn(w.calls.len())).returned(who, (who + 1) as i64),
        count_of(w.run(in_turn(w.calls.len())).table, target) == w.calls.len(),
{
    let end = w.run(in_turn(w.calls.len()));
    lemma_calls_in_turn(w, w.calls.len());
    assert forall|who: int| w.has(who) implies #[trigger] end.returned(who, (who + 1) as i64) by {
        lemma_tally_all(w.calls.take(who), is_for(target));
        assert(end.returned(
            who,
            (count_of(w.table, w.calls[who].target) + w.earlier_calls_for(who, w.calls[who].target)
                + 1) as i64,
        ));
    }
    assert(w.calls.take(w.calls.len() as int) =~= w.calls);
    lemma_tally_all(w.calls, is_for(target));
}

/// No update is lost. Start with calls that have all just begun and let them
/// take turns in any order, with any faults. Then the stored count of a
/// target is its count at the start plus one for each call whose upsert the
/// backend applied. Where every call for the target has returned a count,
/// that is the count at the start plus the number of calls for the target.
pub proof fn lemma_no_lost_updates(w: World, schedule: Seq<Turn>, target: Seq<char>)
    requires
        w.all_fresh(),
    ensures
        count_of(w.run(schedule).table, target) == count_of(w.table, target) + w.run(
            schedule,
        ).applied_count(target),
        w.run(schedule).all_returned(target) ==> count_of(w.run(schedule).table, target)
            == count_of(w.table, target) + w.calls_for(target),
{
    let end = w.run(schedule);
    lemma_fresh_world_tracks(w, target);
    lemma_run_tracks(w, schedule, target, count_of(w.table, target));
    lemma_run_keeps_calls(w, schedule);
    if end.all_returned(target) {
        assert forall|who: int| 0 <= who < end.calls.len() implies has_applied(target)(
            #[trigger] end.calls[who],
        ) == is_for(target)(end.calls[who]) by {
            assert(end.calls[who].coherent());
        }
        lemma_tally_agree(end.calls, has_applied(target), is_for(target));
        lemma_calls_for_kept(w, end, target);
    }
}

/// What a call returns is the count at or after its own increment. Start
/// with calls that have all just begun and with no negative count, and let
/// them take turns in any order, with any faults. Then every count that a
/// call returns is at least 1, lies above the count that its target had at
/// the start, is at least the count that the call's own upsert left, and is
/// no more than the stored count, which is itself no more than the count at
/// the start plus the calls for the target.
pub proof fn lemma_returned_counts(w: World, schedule: Seq<Turn>, who: int, count: i64)
    requires
        w.all_fresh(),
        w.has(who),
        0 <= count_of(w.table, w.calls[who].target),
        w.run(schedule).returned(who, count),
    ensures
        count >= 1,
        count_of(w.table, w.calls[who].target) + 1 <= count,
        w.run(schedule).wrote(who) is Some,
        w.run(schedule).wrote(who).unwrap() <= count,
        count <= count_of(w.run(schedule).table, w.calls[who].target),
        count_of(w.run(schedule).table, w.calls[who].target) <= count_of(
            w.table,
            w.calls[who].target,
        ) + w.calls_for(w.calls[who].target),
{
    let end = w.run(schedule);
    let target = w.calls[who].target;
    lemma_fresh_world_tracks(w, target);
    lemma_run_tracks(w, schedule, target, count_of(w.table, target));
    lemma_run_keeps_calls(w, schedule);
    assert(end.calls[who].target == target);
    lemma_tally_within(end.calls, has_applied(target), is_for(target));
    lemma_calls_for_kept(w, end, target);
}

} // verus!
