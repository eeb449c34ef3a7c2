//! The statements that go to the backend.

use vstd::prelude::*;

verus! {

/// Inserts the row of a target with count 1, or adds 1 to the count of the
/// row that is already there, as one conditional statement. The one
/// parameter is the target.
pub const UPSERT_SQL: &'static str =
    "INSERT INTO hits(target, count) VALUES(?, 1) ON CONFLICT(target) DO UPDATE SET count=count + 1";

/// Reads the count of a target's row. The one parameter is the target.
pub const READ_BACK_SQL: &'static str = "SELECT count FROM hits WHERE target = ?";

/// A statement for the backend: its text and the value bound to its one
/// parameter.
#[derive(Debug, PartialEq, Eq)]
pub struct Statement {
    pub sql: &'static str,
    pub target: String,
}

/// What a `Statement` says: the characters of its text and of its parameter.
pub ghost struct StatementView {
    pub sql: Seq<char>,
    pub target: Seq<char>,
}

impl View for Statement {
    type V = StatementView;

    open spec fn view(&self) -> StatementView {
        StatementView { sql: self.sql@, target: self.target@ }
    }
}

impl StatementView {
    /// The upsert for `target`.
    pub open spec fn upsert(target: Seq<char>) -> StatementView {
        StatementView { sql: UPSERT_SQL@, target }
    }

    /// The read-back for `target`.
    pub open spec fn read_back(target: Seq<char>) -> StatementView {
        StatementView { sql: READ_BACK_SQL@, target }
    }
}

impl Statement {
    /// The upsert for `target`.
    pub fn upsert(target: &str) -> (statement: Statement)
        ensures
            statement@ == StatementView::upsert(target@),
    {
        Statement { sql: UPSERT_SQL, target: target.to_owned() }
    }

    /// The read-back for `target`.
    pub fn read_back(target: &str) -> (statement: Statement)
        ensures
            statement@ == StatementView::read_back(target@),
    {
        Statement { sql: READ_BACK_SQL, target: target.to_owned() }
    }
}

} // verus!
