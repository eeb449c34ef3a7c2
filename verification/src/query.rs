//! One increment-and-read as a state machine.
//!
//! The caller holds the stage of a call and does the outside work: it
//! borrows the connection, sends the statements, and hands each reply to
//! `increase_hit_count`, which says where the call stands now and what is to
//! be done next. A call begins with `begin` and is over when the action is
//! `Action::Return`.

use vstd::prelude::*;
use crate::error::StoreError;
use crate::statement::{Statement, StatementView};

verus! {

/// How far one increment-and-read has come. The stage names the outside work
/// that is pending; a finished call carries what it returns.
#[derive(Clone, Copy, Debug, PartialEq, Eq)]
pub enum Stage {
    /// Waiting for a connection from the pool.
    Acquiring,
    /// A connection is held and the upsert is with the backend.
    Upserting,
    /// The upsert is applied and the read-back is with the backend.
    Reading,
    /// The call is over.
    Finished(Result<i64, StoreError>),
}

/// What came back from the outside work that was pending.
#[derive(Clone, Copy, Debug, PartialEq, Eq)]
pub enum Reply {
    /// The work failed: no connection, or the backend rejected the statement.
    Failed,
    /// The work was done and gave no row.
    Done,
    /// The work was done and gave one row, with this count.
    Row(i64),
}

/// The outside work that the caller has to do next.
#[derive(Debug, PartialEq, Eq)]
pub enum Action {
    /// Borrow a connection from the pool.
    Acquire,
    /// Run the statement on the borrowed connection; no row is expected.
    Execute(Statement),
    /// Run the statement on the borrowed connection and fetch the count of
    /// the one row that it gives.
    FetchOne(Statement),
    /// Give the connection back, if one is held, and return this result.
    Return(Result<i64, StoreError>),
}

/// What an `Action` says, over the characters of its statement.
pub ghost enum Work {
    /// A connection is to be borrowed.
    Acquire,
    /// The statement is to be run for its effect.
    Execute(StatementView),
    /// The statement is to be run for the count of its one row.
    FetchOne(StatementView),
    /// The call is over, with this result.
    Return(Result<i64, StoreError>),
}

impl View for Action {
    type V = Work;

    open spec fn view(&self) -> Work {
        match self {
            Action::Acquire => Work::Acquire,
            Action::Execute(statement) => Work::Execute(statement@),
            Action::FetchOne(statement) => Work::FetchOne(statement@),
            Action::Return(result) => Work::Return(*result),
        }
    }
}

impl Stage {
    /// The stage that follows `self` once `reply` has come back.
    ///
    /// Only a failure stops a call before its read-back, and only a row
    /// makes the read-back succeed. A finished call stays as it is.
    pub open spec fn after(self, reply: Reply) -> Stage {
        match self {
            Stage::Acquiring => match reply {
                Reply::Failed => Stage::Finished(Err(StoreError::ConnectionUnavailable)),
                _ => Stage::Upserting,
            },
            Stage::Upserting => match reply {
                Reply::Failed => Stage::Finished(Err(StoreError::QueryFailed)),
                _ => Stage::Reading,
            },
            Stage::Reading => match reply {
                Reply::Row(count) => Stage::Finished(Ok(count)),
                _ => Stage::Finished(Err(StoreError::QueryFailed)),
            },
            Stage::Finished(result) => Stage::Finished(result),
        }
    }

    /// Whether a call at this stage holds a connection of the pool.
    pub open spec fn holds_connection(self) -> bool {
        self is Upserting || self is Reading
    }
}

/// The work that a call for `target` at `stage` waits for.
pub open spec fn pending(target: Seq<char>, stage: Stage) -> Work {
    match stage {
        Stage::Acquiring => Work::Acquire,
        Stage::Upserting => Work::Execute(StatementView::upsert(target)),
        Stage::Reading => Work::FetchOne(StatementView::read_back(target)),
        Stage::Finished(result) => Work::Return(result),
    }
}

/// The action for a call for `target` that stands at `stage`.
pub fn action_at(target: &str, stage: Stage) -> (action: Action)
    ensures
        action@ == pending(target@, stage),
{
    match stage {
        Stage::Acquiring => Action::Acquire,
        Stage::Upserting => Action::Execute(Statement::upsert(target)),
        Stage::Reading => Action::FetchOne(Statement::read_back(target)),
        Stage::Finished(result) => Action::Return(result),
    }
}

/// Starts an increment-and-read for `target`: the call waits for a
/// connection, and nothing has been sent to the backend.
pub fn begin(target: &str) -> (first: (Stage, Action))
    ensures
        first.0 == Stage::Acquiring,
        first.1@ == Work::Acquire,
{
    (Stage::Acquiring, action_at(target, Stage::Acquiring))
}

/// Moves an increment-and-read for `target` on by one step: from the stage
/// it stood at and the reply to the work that was pending there, to the next
/// stage and the work to do now.
///
/// A call that cannot get a connection ends with `ConnectionUnavailable`
/// and sends nothing. A rejected upsert or read-back ends it with
/// `QueryFailed`. There is no retry: each statement is sent at most once.
pub fn increase_hit_count(target: &str, stage: Stage, reply: Reply) -> (next: (Stage, Action))
    ensures
        next.0 == stage.after(reply),
        next.1@ == pending(target@, next.0),
{
    let following = match stage {
        Stage::Acquiring => match reply {
            Reply::Failed => Stage::Finished(Err(StoreError::ConnectionUnavailable)),
            _ => Stage::Upserting,
        },
        Stage::Upserting => match reply {
            Reply::Failed => Stage::Finished(Err(StoreError::QueryFailed)),
            _ => Stage::Reading,
        },
        Stage::Reading => match reply {
            Reply::Row(count) => Stage::Finished(Ok(count)),
            _ => Stage::Finished(Err(StoreError::QueryFailed)),
        },
        Stage::Finished(result) => Stage::Finished(result),
    };
    (following, action_at(target, following))
}

/// There is no retry and no way back: a reply moves a call to the stage
/// that follows its own, or ends it. So the upsert is sent at most once in a
/// call, and so is the read-back.
pub proof fn lemma_no_way_back(stage: Stage, reply: Reply)
    ensures
        !(stage.after(reply) is Acquiring),
        stage.after(reply) is Upserting ==> stage is Acquiring,
        stage.after(reply) is Reading ==> stage is Upserting,
        stage is Finished ==> stage.after(reply) == stage,
{
}

/// A call is over after three replies, whatever they are.
pub proof fn lemma_over_in_three(stage: Stage, first: Reply, second: Reply, third: Reply)
    ensures
        stage.after(first).after(second).after(third) is Finished,
{
}

/// Which result ends a call, and when. A call ends with
/// `ConnectionUnavailable` exactly when it fails while it waits for a
/// connection; with `QueryFailed` exactly when the upsert fails or the
/// read-back gives no row; and with a count exactly when the read-back gives
/// a row, and then with the count of that row.
pub proof fn lemma_how_calls_end(stage: Stage, reply: Reply)
    requires
        !(stage is Finished),
    ensures
        stage.after(reply) == Stage::Finished(Err(StoreError::ConnectionUnavailable)) <==> stage
            is Acquiring && reply is Failed,
        stage.after(reply) == Stage::Finished(Err(StoreError::QueryFailed)) <==> (stage
            is Upserting && reply is Failed) || (stage is Reading && !(reply is Row)),
        forall|count: i64|
            stage.after(reply) == Stage::Finished(Ok(count)) <==> stage is Reading && reply
                == Reply::Row(count),
{
}

} // verus!
