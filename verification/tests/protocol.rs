//! The increment-and-read protocol, driven against a small store in memory
//! that answers as a faithful backend does, and fails on demand.

use std::collections::HashMap;

use hit_counter::error::StoreError;
use hit_counter::query::{action_at, begin, increase_hit_count, Action, Reply, Stage};
use hit_counter::statement::{Statement, READ_BACK_SQL, UPSERT_SQL};

/// Rows and a pool of connections, in memory.
struct Store {
    rows: HashMap<String, i64>,
    idle: usize,
    executed: usize,
}

impl Store {
    fn new(connections: usize) -> Store {
        Store { rows: HashMap::new(), idle: connections, executed: 0 }
    }

    fn count(&self, target: &str) -> Option<i64> {
        self.rows.get(target).copied()
    }

    /// Does the work of `action` and says what came back. With `fault` the
    /// work fails and changes nothing.
    fn answer(&mut self, action: &Action, fault: bool) -> Reply {
        match action {
            Action::Acquire => {
                if fault || self.idle == 0 {
                    Reply::Failed
                } else {
                    self.idle -= 1;
                    Reply::Done
                }
            }
            Action::Execute(statement) => {
                if fault || statement.sql != UPSERT_SQL {
                    Reply::Failed
                } else {
                    self.executed += 1;
                    *self.rows.entry(statement.target.clone()).or_insert(0) += 1;
                    Reply::Done
                }
            }
            Action::FetchOne(statement) => {
                if fault || statement.sql != READ_BACK_SQL {
                    Reply::Failed
                } else {
                    match self.rows.get(&statement.target) {
                        Some(count) => Reply::Row(*count),
                        None => Reply::Failed,
                    }
                }
            }
            Action::Return(_) => Reply::Done,
        }
    }
}

/// One call in flight: the stage it stands at and the work it waits for.
struct Call {
    target: String,
    stage: Stage,
    action: Action,
}

impl Call {
    fn start(target: &str) -> Call {
        let (stage, action) = begin(target);
        Call { target: target.to_string(), stage, action }
    }

    /// Lets the store answer the pending work and moves the call on. Gives
    /// the connection back when the call ends while it holds one.
    fn step(&mut self, store: &mut Store, fault: bool) {
        let held = matches!(self.stage, Stage::Upserting | Stage::Reading);
        let reply = store.answer(&self.action, fault);
        let (stage, action) = increase_hit_count(&self.target, self.stage, reply);
        if held && matches!(stage, Stage::Finished(_)) {
            store.idle += 1;
        }
        self.stage = stage;
        self.action = action;
    }

    fn result(&self) -> Option<Result<i64, StoreError>> {
        match self.stage {
            Stage::Finished(result) => Some(result),
            _ => None,
        }
    }
}

/// A whole call with nothing in between and no fault.
fn increment_and_fetch(store: &mut Store, target: &str) -> Result<i64, StoreError> {
    let mut call = Call::start(target);
    loop {
        if let Some(result) = call.result() {
            return result;
        }
        call.step(store, false);
    }
}

#[test]
fn begin_waits_for_a_connection() {
    let (stage, action) = begin("foo");
    assert_eq!(stage, Stage::Acquiring);
    assert_eq!(action, Action::Acquire);
}

#[test]
fn each_stage_names_its_work() {
    assert_eq!(action_at("foo", Stage::Acquiring), Action::Acquire);
    assert_eq!(
        action_at("foo", Stage::Upserting),
        Action::Execute(Statement { sql: UPSERT_SQL, target: "foo".to_string() })
    );
    assert_eq!(
        action_at("foo", Stage::Reading),
        Action::FetchOne(Statement { sql: READ_BACK_SQL, target: "foo".to_string() })
    );
    assert_eq!(action_at("foo", Stage::Finished(Ok(7))), Action::Return(Ok(7)));
    assert_eq!(
        action_at("foo", Stage::Finished(Err(StoreError::QueryFailed))),
        Action::Return(Err(StoreError::QueryFailed))
    );
}

#[test]
fn statements_carry_text_and_target() {
    let upsert = Statement::upsert("a/b c");
    assert_eq!(
        upsert.sql,
        "INSERT INTO hits(target, count) VALUES(?, 1) ON CONFLICT(target) DO UPDATE SET count=count + 1"
    );
    assert_eq!(upsert.target, "a/b c");
    let read_back = Statement::read_back("a/b c");
    assert_eq!(read_back.sql, "SELECT count FROM hits WHERE target = ?");
    assert_eq!(read_back.target, "a/b c");
}

#[test]
fn a_call_walks_through_its_stages() {
    let (stage, action) = increase_hit_count("foo", Stage::Acquiring, Reply::Done);
    assert_eq!(stage, Stage::Upserting);
    assert_eq!(action, Action::Execute(Statement::upsert("foo")));
    let (stage, action) = increase_hit_count("foo", stage, Reply::Done);
    assert_eq!(stage, Stage::Reading);
    assert_eq!(action, Action::FetchOne(Statement::read_back("foo")));
    let (stage, action) = increase_hit_count("foo", stage, Reply::Row(41));
    assert_eq!(stage, Stage::Finished(Ok(41)));
    assert_eq!(action, Action::Return(Ok(41)));
}

#[test]
fn no_connection_ends_with_connection_unavailable() {
    let (stage, action) = increase_hit_count("foo", Stage::Acquiring, Reply::Failed);
    assert_eq!(stage, Stage::Finished(Err(StoreError::ConnectionUnavailable)));
    assert_eq!(action, Action::Return(Err(StoreError::ConnectionUnavailable)));
}

#[test]
fn rejected_upsert_ends_with_query_failed() {
    let (stage, action) = increase_hit_count("foo", Stage::Upserting, Reply::Failed);
    assert_eq!(stage, Stage::Finished(Err(StoreError::QueryFailed)));
    assert_eq!(action, Action::Return(Err(StoreError::QueryFailed)));
}

#[test]
fn rejected_read_back_ends_with_query_failed() {
    let (stage, action) = increase_hit_count("foo", Stage::Reading, Reply::Failed);
    assert_eq!(stage, Stage::Finished(Err(StoreError::QueryFailed)));
    assert_eq!(action, Action::Return(Err(StoreError::QueryFailed)));
}

#[test]
fn read_back_without_a_row_ends_with_query_failed() {
    let (stage, _) = increase_hit_count("foo", Stage::Reading, Reply::Done);
    assert_eq!(stage, Stage::Finished(Err(StoreError::QueryFailed)));
}

#[test]
fn a_row_where_none_was_expected_counts_as_done() {
    let (stage, _) = increase_hit_count("foo", Stage::Acquiring, Reply::Row(9));
    assert_eq!(stage, Stage::Upserting);
    let (stage, _) = increase_hit_count("foo", Stage::Upserting, Reply::Row(9));
    assert_eq!(stage, Stage::Reading);
}

#[test]
fn a_finished_call_stays_finished() {
    for reply in [Reply::Failed, Reply::Done, Reply::Row(3)] {
        let (stage, action) = increase_hit_count("foo", Stage::Finished(Ok(5)), reply);
        assert_eq!(stage, Stage::Finished(Ok(5)));
        assert_eq!(action, Action::Return(Ok(5)));
        let ended = Stage::Finished(Err(StoreError::ConnectionUnavailable));
        let (stage, action) = increase_hit_count("foo", ended, reply);
        assert_eq!(stage, ended);
        assert_eq!(action, Action::Return(Err(StoreError::ConnectionUnavailable)));
    }
}

#[test]
fn any_three_replies_end_a_call() {
    let replies = [Reply::Failed, Reply::Done, Reply::Row(1)];
    for first in replies {
        for second in replies {
            for third in replies {
                let (stage, _) = increase_hit_count("k", Stage::Acquiring, first);
                let (stage, _) = increase_hit_count("k", stage, second);
                let (stage, _) = increase_hit_count("k", stage, third);
                assert!(matches!(stage, Stage::Finished(_)));
            }
        }
    }
}

#[test]
fn negative_and_extreme_counts_pass_through() {
    for count in [i64::MIN, -1, 0, 1, i64::MAX] {
        let (stage, action) = increase_hit_count("foo", Stage::Reading, Reply::Row(count));
        assert_eq!(stage, Stage::Finished(Ok(count)));
        assert_eq!(action, Action::Return(Ok(count)));
    }
}

#[test]
fn first_call_for_an_unseen_key_returns_one() {
    let mut store = Store::new(1);
    assert_eq!(store.count("fresh"), None);
    assert_eq!(increment_and_fetch(&mut store, "fresh"), Ok(1));
    assert_eq!(store.count("fresh"), Some(1));
}

#[test]
fn sequential_calls_count_up() {
    let mut store = Store::new(1);
    for expected in 1..=25 {
        assert_eq!(increment_and_fetch(&mut store, "k"), Ok(expected));
    }
    assert_eq!(store.count("k"), Some(25));
    assert_eq!(store.idle, 1);
}

#[test]
fn sequential_calls_continue_from_the_stored_count() {
    let mut store = Store::new(2);
    store.rows.insert("k".to_string(), 40);
    assert_eq!(increment_and_fetch(&mut store, "k"), Ok(41));
    assert_eq!(increment_and_fetch(&mut store, "k"), Ok(42));
}

#[test]
fn distinct_keys_do_not_affect_each_other() {
    let mut store = Store::new(1);
    assert_eq!(increment_and_fetch(&mut store, "k2"), Ok(1));
    for _ in 0..10 {
        increment_and_fetch(&mut store, "k1").unwrap();
        assert_eq!(store.count("k2"), Some(1));
    }
    assert_eq!(store.count("k1"), Some(10));
    assert_eq!(increment_and_fetch(&mut store, "k2"), Ok(2));
}

#[test]
fn keys_are_case_sensitive() {
    let mut store = Store::new(1);
    assert_eq!(increment_and_fetch(&mut store, "Foo"), Ok(1));
    assert_eq!(increment_and_fetch(&mut store, "foo"), Ok(1));
    assert_eq!(increment_and_fetch(&mut store, "Foo"), Ok(2));
}

#[test]
fn the_empty_key_is_counted_like_any_other() {
    let mut store = Store::new(1);
    assert_eq!(increment_and_fetch(&mut store, ""), Ok(1));
    assert_eq!(increment_and_fetch(&mut store, ""), Ok(2));
    assert_eq!(store.count(""), Some(2));
}

#[test]
fn repeated_calls_always_change_state() {
    let mut store = Store::new(1);
    let mut last = 0;
    for _ in 0..5 {
        let before = store.count("same");
        let got = increment_and_fetch(&mut store, "same").unwrap();
        assert_ne!(store.count("same"), before);
        assert!(got > last);
        last = got;
    }
}

#[test]
fn foo_foo_bar_foo() {
    let mut store = Store::new(1);
    assert_eq!(increment_and_fetch(&mut store, "foo"), Ok(1));
    assert_eq!(increment_and_fetch(&mut store, "foo"), Ok(2));
    assert_eq!(increment_and_fetch(&mut store, "bar"), Ok(1));
    assert_eq!(increment_and_fetch(&mut store, "foo"), Ok(3));
}

#[test]
fn exhausted_pool_gives_connection_unavailable_and_mutates_nothing() {
    let mut store = Store::new(1);
    assert_eq!(increment_and_fetch(&mut store, "foo"), Ok(1));
    // Another call takes the only connection and keeps it.
    let mut holder = Call::start("bar");
    holder.step(&mut store, false);
    assert_eq!(store.idle, 0);
    let rows = store.rows.clone();
    let executed = store.executed;
    assert_eq!(increment_and_fetch(&mut store, "foo"), Err(StoreError::ConnectionUnavailable));
    assert_eq!(store.rows, rows);
    assert_eq!(store.executed, executed);
    assert_eq!(store.idle, 0);
    // Once the connection is back, calls go through again.
    holder.step(&mut store, false);
    holder.step(&mut store, false);
    assert_eq!(holder.result(), Some(Ok(1)));
    assert_eq!(store.idle, 1);
    assert_eq!(increment_and_fetch(&mut store, "foo"), Ok(2));
}

#[test]
fn unreachable_backend_gives_connection_unavailable() {
    let mut store = Store::new(3);
    let mut call = Call::start("foo");
    call.step(&mut store, true);
    assert_eq!(call.result(), Some(Err(StoreError::ConnectionUnavailable)));
    assert_eq!(store.count("foo"), None);
    assert_eq!(store.idle, 3);
}

#[test]
fn failed_upsert_gives_query_failed_and_mutates_nothing() {
    let mut store = Store::new(1);
    assert_eq!(increment_and_fetch(&mut store, "foo"), Ok(1));
    let mut call = Call::start("foo");
    call.step(&mut store, false);
    call.step(&mut store, true);
    assert_eq!(call.result(), Some(Err(StoreError::QueryFailed)));
    assert_eq!(store.count("foo"), Some(1));
    assert_eq!(store.idle, 1);
}

#[test]
fn failed_read_back_gives_query_failed_and_keeps_the_increment() {
    let mut store = Store::new(1);
    let mut call = Call::start("foo");
    call.step(&mut store, false);
    call.step(&mut store, false);
    call.step(&mut store, true);
    assert_eq!(call.result(), Some(Err(StoreError::QueryFailed)));
    assert_eq!(store.count("foo"), Some(1));
    assert_eq!(store.idle, 1);
    assert_eq!(increment_and_fetch(&mut store, "foo"), Ok(2));
}

#[test]
fn a_failed_call_is_not_retried() {
    let mut store = Store::new(1);
    let mut call = Call::start("foo");
    call.step(&mut store, false);
    call.step(&mut store, true);
    for _ in 0..5 {
        call.step(&mut store, false);
    }
    assert_eq!(call.result(), Some(Err(StoreError::QueryFailed)));
    assert_eq!(store.executed, 0);
    assert_eq!(store.count("foo"), None);
}

#[test]
fn each_call_sends_its_upsert_once() {
    let mut store = Store::new(1);
    let mut call = Call::start("foo");
    for _ in 0..10 {
        call.step(&mut store, false);
    }
    assert_eq!(call.result(), Some(Ok(1)));
    assert_eq!(store.executed, 1);
    assert_eq!(store.count("foo"), Some(1));
}

#[test]
fn interleaved_calls_lose_no_update() {
    let mut store = Store::new(3);
    store.rows.insert("k".to_string(), 10);
    let mut a = Call::start("k");
    let mut b = Call::start("k");
    let mut c = Call::start("k");
    // All three take a connection, then upsert before anyone reads.
    a.step(&mut store, false);
    b.step(&mut store, false);
    c.step(&mut store, false);
    assert_eq!(store.idle, 0);
    b.step(&mut store, false);
    a.step(&mut store, false);
    // `a` reads before `c` has upserted: it sees its own and `b`'s.
    a.step(&mut store, false);
    c.step(&mut store, false);
    c.step(&mut store, false);
    b.step(&mut store, false);
    assert_eq!(a.result(), Some(Ok(12)));
    assert_eq!(b.result(), Some(Ok(13)));
    assert_eq!(c.result(), Some(Ok(13)));
    assert_eq!(store.count("k"), Some(13));
    assert_eq!(store.idle, 3);
}

#[test]
fn every_interleaving_of_two_calls_ends_two_higher() {
    // Each call takes three turns. Walk through every order of the six turns.
    for order in 0..64u32 {
        if order.count_ones() != 3 {
            continue;
        }
        let mut store = Store::new(2);
        store.rows.insert("k".to_string(), 5);
        let mut a = Call::start("k");
        let mut b = Call::start("k");
        for turn in 0..6 {
            if order & (1 << turn) != 0 {
                a.step(&mut store, false);
            } else {
                b.step(&mut store, false);
            }
        }
        assert_eq!(store.count("k"), Some(7));
        for call in [&a, &b] {
            let got = call.result().unwrap().unwrap();
            assert!(got == 6 || got == 7);
        }
        assert_eq!(store.idle, 2);
    }
}

#[test]
fn interleaved_calls_for_other_keys_leave_a_key_alone() {
    let mut store = Store::new(2);
    store.rows.insert("quiet".to_string(), 3);
    let mut a = Call::start("loud");
    let mut b = Call::start("louder");
    for _ in 0..3 {
        a.step(&mut store, false);
        assert_eq!(store.count("quiet"), Some(3));
        b.step(&mut store, false);
        assert_eq!(store.count("quiet"), Some(3));
    }
    assert_eq!(a.result(), Some(Ok(1)));
    assert_eq!(b.result(), Some(Ok(1)));
}

#[test]
fn a_call_that_stops_after_its_upsert_leaves_the_increment() {
    let mut store = Store::new(1);
    let mut call = Call::start("foo");
    call.step(&mut store, false);
    call.step(&mut store, false);
    assert_eq!(call.stage, Stage::Reading);
    // The call is given up here: the read-back never happens.
    assert_eq!(store.count("foo"), Some(1));
}

#[test]
fn holders_never_exceed_the_pool() {
    let mut store = Store::new(2);
    let mut calls: Vec<Call> = (0..5).map(|_| Call::start("k")).collect();
    for call in calls.iter_mut() {
        call.step(&mut store, false);
    }
    let holding = calls.iter().filter(|call| call.stage == Stage::Upserting).count();
    let refused = calls
        .iter()
        .filter(|call| call.stage == Stage::Finished(Err(StoreError::ConnectionUnavailable)))
        .count();
    assert_eq!(holding, 2);
    assert_eq!(refused, 3);
    assert_eq!(store.idle, 0);
    for call in calls.iter_mut() {
        call.step(&mut store, false);
        call.step(&mut store, false);
    }
    assert_eq!(store.idle, 2);
    assert_eq!(store.count("k"), Some(2));
}
