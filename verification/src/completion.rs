//! Primitives for asynchronous completion.
//!
//! A completion signal reports the outcome of an operation whose result
//! becomes known later: here, whether an appended record reached durable
//! storage.  Two capability views are kept apart: [`Future`] for a result
//! that cannot fail, and [`FailableFuture`] for one that resolves to either
//! success or a failure description.
//!
//! A signal is shared between its producer and its consumer, so what a poll
//! returns depends on when the producer resolves it; no contract pins the
//! polled value, and the journal's durability guarantees are stated on the
//! journal's own state instead.

use vstd::prelude::*;
use std::sync::Arc;
use std::sync::Condvar;
use std::sync::Mutex;
use std::time::Duration as StdDuration;
use crate::journal::JournalError;

verus! {

/// A temporal duration in nanoseconds.
pub type Duration = i64;

/// The value an append's completion signal resolves to on success: the
/// record is durable.
#[derive(Clone, Copy, Debug, PartialEq, Eq, Structural)]
pub struct Committed;

/// The result of an asynchronous computation that cannot fail.
pub trait Future<T: Copy + Send> {
    /// Returns `Some(value)` if the future has been satisfied, else `None`,
    /// without blocking.
    fn get(&self) -> Option<T>;

    /// Waits until the future has been satisfied and returns its value.
    fn await_forever(&self) -> T;

    /// Waits until the future has been satisfied or the timeout has elapsed.
    /// `Some(value)` reports satisfaction; `None` reports that the wait
    /// timed out, which leaves the future itself unchanged.
    fn await_until(&self, timeout: Duration) -> Option<T>;
}

/// The result of an asynchronous computation that can fail.
pub trait FailableFuture<T: Copy + Send, E: Copy + Send>: Future<Result<T, E>> {
    /// Returns `Some(outcome)` if the future has been satisfied, else `None`.
    fn fget(&self) -> Option<Result<T, E>>;

    /// Waits until the future has been satisfied and returns its outcome.
    fn fawait_forever(&self) -> Result<T, E>;

    /// Waits until the future has been satisfied or the timeout has elapsed.
    fn fawait_until(&self, timeout: Duration) -> Option<Result<T, E>>;
}

#[verifier::external_type_specification]
#[verifier::external_body]
#[verifier::reject_recursive_types(T)]
pub struct ExMutex<T: ?Sized>(Mutex<T>);

#[verifier::external_type_specification]
#[verifier::external_body]
pub struct ExCondvar(Condvar);

/// A shared, set-once slot holding the outcome of an append.  The journal
/// keeps one handle and the caller's signal another, so the two alias the
/// same slot and nothing is promised of what a read returns.
pub struct SignalCell {
    slot: Arc<(Mutex<Option<Result<Committed, JournalError>>>, Condvar)>,
}

/// Relies on std::sync::Mutex::new and std::sync::Condvar::new (inside
/// std::sync::Arc::new) to build a slot holding `None`.  The slot is
/// aliased once shared, so no contract describes its contents.
#[verifier::external_body]
fn signal_cell_new() -> (c: SignalCell) {
    SignalCell { slot: Arc::new((Mutex::new(None), Condvar::new())) }
}

/// Relies on std::sync::Arc::clone: the new handle refers to the same slot.
#[verifier::external_body]
fn signal_cell_share(c: &SignalCell) -> (d: SignalCell) {
    SignalCell { slot: Arc::clone(&c.slot) }
}

/// Relies on std::sync::Mutex::lock to store `outcome` in the slot, unless
/// an outcome was already stored — a signal resolves at most once — and on
/// std::sync::Condvar::notify_all to wake the waiters.
#[verifier::external_body]
fn signal_cell_resolve(c: &SignalCell, outcome: Result<Committed, JournalError>) {
    let mut slot = match c.slot.0.lock() {
        Ok(guard) => guard,
        Err(poisoned) => poisoned.into_inner(),
    };
    if slot.is_none() {
        *slot = Some(outcome);
    }
    c.slot.1.notify_all();
}

/// Relies on std::sync::Mutex::lock to read the current contents of the
/// slot.  The slot is aliased and may be resolved between two reads, so
/// nothing is promised of the result.
#[verifier::external_body]
fn signal_cell_read(c: &SignalCell) -> (r: Option<Result<Committed, JournalError>>) {
    let slot = match c.slot.0.lock() {
        Ok(guard) => guard,
        Err(poisoned) => poisoned.into_inner(),
    };
    *slot
}

/// Relies on std::sync::Condvar::wait_while, which returns only once the
/// condition is false: the slot holds an outcome when this returns.
#[verifier::external_body]
fn signal_cell_wait(c: &SignalCell) -> (r: Option<Result<Committed, JournalError>>)
    ensures
        r is Some,
{
    let guard = match c.slot.0.lock() {
        Ok(guard) => guard,
        Err(poisoned) => poisoned.into_inner(),
    };
    let slot = match c.slot.1.wait_while(guard, |v| v.is_none()) {
        Ok(guard) => guard,
        Err(poisoned) => poisoned.into_inner(),
    };
    *slot
}

/// Relies on std::sync::Condvar::wait_timeout_while (with a bound built by
/// std::time::Duration::from_nanos): waits until the slot holds an outcome
/// or the timeout elapses, and returns what the slot then holds.
#[verifier::external_body]
fn signal_cell_wait_timeout(c: &SignalCell, nanos: u64) -> (r: Option<
    Result<Committed, JournalError>,
>) {
    let guard = match c.slot.0.lock() {
        Ok(guard) => guard,
        Err(poisoned) => poisoned.into_inner(),
    };
    let bound = StdDuration::from_nanos(nanos);
    let slot = match c.slot.1.wait_timeout_while(guard, bound, |v| v.is_none()) {
        Ok((guard, _)) => guard,
        Err(poisoned) => poisoned.into_inner().0,
    };
    *slot
}

/// The caller's side of an append's completion: resolves to
/// `Ok(Committed)` once the record is durable, or to an error if durability
/// could not be achieved.
pub struct AppendSignal {
    cell: SignalCell,
}

/// Builds a fresh unresolved signal and the journal-side handle that will
/// resolve it.
pub(crate) fn signal_pair() -> (AppendSignal, SignalCell) {
    let cell = signal_cell_new();
    let shared = signal_cell_share(&cell);
    (AppendSignal { cell }, shared)
}

/// Resolves the journal-side handle of a signal.  A signal resolves at most
/// once: a second outcome is ignored.
pub(crate) fn resolve_signal(cell: &SignalCell, outcome: Result<Committed, JournalError>) {
    signal_cell_resolve(cell, outcome);
}

impl Future<Result<Committed, JournalError>> for AppendSignal {
    fn get(&self) -> Option<Result<Committed, JournalError>> {
        signal_cell_read(&self.cell)
    }

    fn await_forever(&self) -> Result<Committed, JournalError> {
        match signal_cell_wait(&self.cell) {
            Option::Some(outcome) => outcome,
            Option::None => vstd::pervasive::unreached(),
        }
    }

    fn await_until(&self, timeout: Duration) -> Option<Result<Committed, JournalError>> {
        if timeout <= 0 {
            signal_cell_read(&self.cell)
        } else {
            signal_cell_wait_timeout(&self.cell, timeout as u64)
        }
    }
}

impl FailableFuture<Committed, JournalError> for AppendSignal {
    fn fget(&self) -> Option<Result<Committed, JournalError>> {
        self.get()
    }

    fn fawait_forever(&self) -> Result<Committed, JournalError> {
        self.await_forever()
    }

    fn fawait_until(&self, timeout: Duration) -> Option<Result<Committed, JournalError>> {
        self.await_until(timeout)
    }
}

} // verus!
