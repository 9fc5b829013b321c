//! Updates that may meet a document that is in use.

use vstd::prelude::*;
use vstd::string::*;

use crate::text;
use crate::text::{occurs, optional, said};

verus! {

/// What an update came to.
pub enum UpdateOutcome<T> {
    Done(T),
    /// What was to be updated was in use; another time.
    Busy,
    /// There is nothing to update any more.
    Gone,
}

/// How an update ended.
pub enum Caught<T> {
    Value(T),
    Gone,
    /// It panicked; what the panic said, if it said anything.
    Panicked(Option<String>),
}

/// A panic says that something is in use, and no more than that.
pub open spec fn is_conflict(message: Option<Seq<char>>) -> bool {
    message matches Some(m) && occurs(m, "already borrowed"@)
}

/// Whether a panic says that something is in use.
pub fn is_borrow_conflict(message: Option<&str>) -> (r: bool)
    ensures
        r == is_conflict(said(message)),
{
    match message {
        Some(m) => text::contains(m, "already borrowed"),
        None => false,
    }
}

/// What an update came to; a panic that does not say that something is in use is handed
/// back, to go on.
pub fn outcome<T>(caught: Caught<T>) -> (r: Result<UpdateOutcome<T>, Option<String>>)
    ensures
        match caught {
            Caught::Value(v) => r == Ok::<UpdateOutcome<T>, Option<String>>(
                UpdateOutcome::Done(v),
            ),
            Caught::Gone => r matches Ok(UpdateOutcome::Gone),
            Caught::Panicked(m) => if is_conflict(optional(m)) {
                r matches Ok(UpdateOutcome::Busy)
            } else {
                r matches Err(e) && optional(e) == optional(m)
            },
        },
{
    match caught {
        Caught::Value(v) => Ok(UpdateOutcome::Done(v)),
        Caught::Gone => Ok(UpdateOutcome::Gone),
        Caught::Panicked(m) => {
            if is_borrow_conflict(text::borrowed(&m)) {
                Ok(UpdateOutcome::Busy)
            } else {
                Err(m)
            }
        },
    }
}

/// Whether the window may close: as the document says; not where it could not be asked;
/// and where there is none.
pub fn may_close(answer: &UpdateOutcome<bool>) -> (r: bool)
    ensures
        r == match *answer {
            UpdateOutcome::Done(allow) => allow,
            UpdateOutcome::Busy => false,
            UpdateOutcome::Gone => true,
        },
{
    match answer {
        UpdateOutcome::Done(allow) => *allow,
        UpdateOutcome::Busy => false,
        UpdateOutcome::Gone => true,
    }
}

/// How often an update is tried that must not be lost.
pub const ATTEMPTS: u32 = 8;

/// Whether an update is tried again after `tried` attempts.
pub fn try_again<T>(answer: &UpdateOutcome<T>, tried: u32) -> (r: bool)
    ensures
        r == (*answer is Busy && tried < ATTEMPTS),
{
    match answer {
        UpdateOutcome::Busy => tried < ATTEMPTS,
        _ => false,
    }
}

} // verus!
