//! The service and its store as a transition system.
//!
//! A `World` holds the rows, the connections that the pool can still hand
//! out and the calls in flight. A `Turn` lets one call receive the reply to its pending work;
//! a schedule is any sequence of turns, so it stands for any interleaving of
//! concurrent calls, with faults wherever they fall.
//!
//! What a call does with a reply is `Stage::after`, the function that the
//! executable step is verified against. What the pool and the backend reply
//! is stated here, in `reply_to` and `table_after`, and is what the theorems
//! of this crate assume of them.

use vstd::prelude::*;
use crate::error::StoreError;
use crate::query::{pending, Reply, Stage, Work};
use crate::statement::{READ_BACK_SQL, UPSERT_SQL};
use crate::table::{count_of, upsert, Table};
use crate::tally::tally;

verus! {

/// One increment-and-read in flight.
pub ghost struct Call {
    /// The target that the call counts.
    pub target: Seq<char>,
    /// Where the call stands.
    pub stage: Stage,
    /// The count that this call's upsert left in the target's row, once the
    /// backend has applied it.
    pub wrote: Option<int>,
}

impl Call {
    /// A call for `target` that has just begun.
    pub open spec fn fresh(target: Seq<char>) -> Call {
        Call { target, stage: Stage::Acquiring, wrote: None }
    }

    /// Whether the backend has applied this call's upsert.
    pub open spec fn applied(self) -> bool {
        self.wrote is Some
    }

    /// What the stage of a call says of its upsert: none is applied before
    /// the upsert has come back, and one is applied once the read-back is
    /// pending or has given a count. A call that never held a connection
    /// has applied none. A call that ended with `QueryFailed` may have
    /// applied one: the failure may have been the read-back's.
    pub open spec fn coherent(self) -> bool {
        match self.stage {
            Stage::Acquiring | Stage::Upserting => !self.applied(),
            Stage::Reading | Stage::Finished(Ok(_)) => self.applied(),
            Stage::Finished(Err(StoreError::ConnectionUnavailable)) => !self.applied(),
            Stage::Finished(Err(StoreError::QueryFailed)) => true,
        }
    }
}

/// Picks the calls for `target`.
pub open spec fn is_for(target: Seq<char>) -> spec_fn(Call) -> bool {
    |call: Call| call.target == target
}

/// Picks the calls for `target` whose upsert the backend has applied.
pub open spec fn has_applied(target: Seq<char>) -> spec_fn(Call) -> bool {
    |call: Call| call.target == target && call.applied()
}

/// Picks the calls that hold a connection.
pub open spec fn is_holding() -> spec_fn(Call) -> bool {
    |call: Call| call.stage.holds_connection()
}

/// The service and its store at one instant.
pub ghost struct World {
    /// The rows of the store.
    pub table: Table,
    /// The connections that the pool can still hand out: its limit less
    /// those that calls hold.
    pub idle: nat,
    /// The calls in flight, each known by its index.
    pub calls: Seq<Call>,
}

/// One step of the world: the call `who` gets the reply to its pending work.
/// With `fault` the work fails, whatever it is: a timeout, a backend that
/// cannot be reached, an I/O error, or a call that is given up at this point.
pub ghost struct Turn {
    /// The index of the call that moves.
    pub who: int,
    /// Whether the pending work fails.
    pub fault: bool,
}

/// What comes back for `work` in the world `w`.
///
/// A connection is had unless the pool has none to hand out; a call that
/// waits for one simply takes its turn later. The backend applies the upsert whole or
/// not at all. The read-back gives the count of the target's row, and fails
/// where there is no row or the count does not fit in 64 bits. The backend
/// rejects any other statement.
pub open spec fn reply_to(w: World, work: Work, fault: bool) -> Reply {
    match work {
        Work::Acquire => {
            if fault || w.idle == 0 {
                Reply::Failed
            } else {
                Reply::Done
            }
        },
        Work::Execute(statement) => {
            if fault || statement.sql != UPSERT_SQL@ {
                Reply::Failed
            } else {
                Reply::Done
            }
        },
        Work::FetchOne(statement) => {
            if fault || statement.sql != READ_BACK_SQL@ || !w.table.dom().contains(statement.target)
                || !(i64::MIN <= w.table[statement.target] <= i64::MAX) {
                Reply::Failed
            } else {
                Reply::Row(w.table[statement.target] as i64)
            }
        },
        Work::Return(_) => Reply::Done,
    }
}

/// Whether `work`, answered with `reply`, applied an upsert.
pub open spec fn applies(work: Work, reply: Reply) -> bool {
    work is Execute && reply is Done
}

/// The rows after `work` was answered with `reply`: an executed statement
/// that came back done is one upsert for its target; nothing else writes.
pub open spec fn table_after(table: Table, work: Work, reply: Reply) -> Table {
    match work {
        Work::Execute(statement) => {
            if reply is Done {
                upsert(table, statement.target)
            } else {
                table
            }
        },
        _ => table,
    }
}

/// The idle connections after a call went from `before` to `after`: one
/// fewer when it took a connection, one more when it gave its own back.
pub open spec fn idle_after(idle: nat, before: Stage, after: Stage) -> nat {
    if !before.holds_connection() && after.holds_connection() {
        (idle - 1) as nat
    } else if before.holds_connection() && !after.holds_connection() {
        idle + 1
    } else {
        idle
    }
}

/// Three turns of the call `who` with no fault and no other call in between:
/// the call runs alone from its start to its end.
pub open spec fn alone(who: int) -> Seq<Turn> {
    seq![Turn { who, fault: false }, Turn { who, fault: false }, Turn { who, fault: false }]
}

/// The first `calls` calls, each run alone and in the order of their
/// indices: one call after the other.
pub open spec fn in_turn(calls: nat) -> Seq<Turn>
    decreases calls,
{
    if calls == 0 {
        Seq::empty()
    } else {
        in_turn((calls - 1) as nat) + alone(calls - 1)
    }
}

impl World {
    /// Whether `who` is the index of a call of this world.
    pub open spec fn has(self, who: int) -> bool {
        0 <= who < self.calls.len()
    }

    /// The world after the turn `t`. A turn for a call that is not there, or
    /// that is finished, changes nothing.
    pub open spec fn turn(self, t: Turn) -> World {
        if self.has(t.who) {
            let call = self.calls[t.who];
            let work = pending(call.target, call.stage);
            let reply = reply_to(self, work, t.fault);
            let stage = call.stage.after(reply);
            let table = table_after(self.table, work, reply);
            let wrote = if applies(work, reply) {
                Some(count_of(table, call.target))
            } else {
                call.wrote
            };
            World {
                table,
                idle: idle_after(self.idle, call.stage, stage),
                calls: self.calls.update(t.who, Call { target: call.target, stage, wrote }),
            }
        } else {
            self
        }
    }

    /// The world after the turns of `schedule`, taken in order.
    pub open spec fn run(self, schedule: Seq<Turn>) -> World
        decreases schedule.len(),
    {
        if schedule.len() == 0 {
            self
        } else {
            self.run(schedule.drop_last()).turn(schedule.last())
        }
    }

    /// Every call's stage agrees with whether its upsert is applied.
    pub open spec fn coherent(self) -> bool {
        forall|who: int| self.has(who) ==> (#[trigger] self.calls[who]).coherent()
    }

    /// Every call has just begun.
    pub open spec fn all_fresh(self) -> bool {
        forall|who: int|
            self.has(who) ==> #[trigger] self.calls[who] == Call::fresh(self.calls[who].target)
    }

    /// How many calls are for `target`.
    pub open spec fn calls_for(self, target: Seq<char>) -> nat {
        tally(self.calls, is_for(target))
    }

    /// How many of the calls before `who` are for `target`.
    pub open spec fn earlier_calls_for(self, who: int, target: Seq<char>) -> nat {
        tally(self.calls.take(who), is_for(target))
    }

    /// How many calls for `target` have had their upsert applied.
    pub open spec fn applied_count(self, target: Seq<char>) -> nat {
        tally(self.calls, has_applied(target))
    }

    /// How many calls hold a connection.
    pub open spec fn holding(self) -> nat {
        tally(self.calls, is_holding())
    }

    /// The bookkeeping for `target` from a count of `base`: the stored count
    /// is `base` plus one for each applied upsert; every count that an
    /// upsert for `target` has left lies above `base` and at or below the
    /// stored count; and every count that a call for `target` has returned
    /// lies at or above the one that its own upsert left, and at or below the
    /// stored count.
    pub open spec fn tracks(self, target: Seq<char>, base: int) -> bool {
        &&& self.coherent()
        &&& count_of(self.table, target) == base + self.applied_count(target)
        &&& forall|who: int|
            self.has(who) && self.calls[who].target == target && (#[trigger] self.wrote(who))
                is Some ==> base + 1 <= self.wrote(who).unwrap() <= count_of(self.table, target)
        &&& forall|who: int, count: i64|
            self.has(who) && self.calls[who].target == target && #[trigger] self.returned(
                who,
                count,
            ) ==> self.wrote(who) is Some && self.wrote(who).unwrap() <= count <= count_of(
                self.table,
                target,
            )
    }

    /// The count that the upsert of the call `who` left, once it is applied.
    pub open spec fn wrote(self, who: int) -> Option<int> {
        self.calls[who].wrote
    }

    /// Whether the call `who` has returned `count`.
    pub open spec fn returned(self, who: int, count: i64) -> bool {
        self.calls[who].stage == Stage::Finished(Ok(count))
    }

    /// Whether every call for `target` has returned a count.
    pub open spec fn all_returned(self, target: Seq<char>) -> bool {
        forall|who: int|
            self.has(who) && (#[trigger] self.calls[who]).target == target
                ==> self.calls[who].stage matches Stage::Finished(Ok(_))
    }

    /// No count is negative, and none is so large that these calls could
    /// raise it past 64 bits.
    pub open spec fn counts_fit(self) -> bool {
        forall|target: Seq<char>|
            0 <= #[trigger] count_of(self.table, target) && count_of(self.table, target)
                + self.calls.len() <= i64::MAX
    }

    /// The same calls as in `earlier`, by number and target.
    pub open spec fn same_calls(self, earlier: World) -> bool {
        &&& self.calls.len() == earlier.calls.len()
        &&& forall|who: int|
            earlier.has(who) ==> (#[trigger] self.calls[who]).target == earlier.calls[who].target
    }
}

} // verus!
