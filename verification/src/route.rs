//! What the request handlers answer.

use vstd::prelude::*;
use crate::decimal::{decimal, render_count};
use crate::error::StoreError;

verus! {

/// What the service answers at its root: how to use it.
pub const HELP_TEXT: &'static str = "Navigate to `/hit/foo` to increment the hit count for `foo`";

/// The answer to a request for the root path.
pub fn root() -> (text: &'static str)
    ensures
        text@ == HELP_TEXT@,
{
    HELP_TEXT
}

/// The answer to a request to count a hit, once the store has spoken: the
/// count in decimal as the body, or the store's error, passed on as it is.
pub fn hit(outcome: Result<i64, StoreError>) -> (response: Result<String, StoreError>)
    ensures
        match outcome {
            Ok(count) => response matches Ok(body) && body@ == decimal(count as int),
            Err(error) => response == Err::<String, StoreError>(error),
        },
{
    match outcome {
        Ok(count) => Ok(render_count(count)),
        Err(error) => Err(error),
    }
}

} // verus!
