//! Metrics mechanisms intended to provide runtime visibility.
//!
//! Counters and gauges come in two forms each: a plain one for a single
//! owner, and one whose value lives behind a mutual-exclusion lock so that
//! it can serve from concurrent contexts.  Both forms meet the same
//! contracts: increments and decrements are never lost, and a read returns
//! the value the operations so far have produced.

use vstd::prelude::*;
use std::sync::Mutex;

verus! {

/// A 64 bit signed counter.
pub trait Counter {
    /// The current value of the counter.
    spec fn value(&self) -> int;

    /// Increment the counter by the given delta.
    ///
    /// The delta may be negative.
    fn inc(&mut self, delta: i64)
        requires
            i64::MIN <= old(self).value() + delta <= i64::MAX,
        ensures
            final(self).value() == old(self).value() + delta,
    ;

    /// Decrement the counter by the given delta.
    ///
    /// The delta may be negative: `dec(n)` is the equivalent of `inc(-n)`.
    fn dec(&mut self, delta: i64)
        requires
            i64::MIN <= old(self).value() - delta <= i64::MAX,
        ensures
            final(self).value() == old(self).value() - delta,
    ;

    /// Return the current value of the counter.
    fn get(&self) -> (v: i64)
        ensures
            v == self.value(),
    ;
}

/// A gauge has a single value at any given moment in time, and can only be
/// updated by providing an entirely new value, or cleared.
pub trait Gauge<T: Copy + Send> {
    /// The current value of the gauge.
    spec fn current(&self) -> Option<T>;

    /// Replace the gauge's value; `None` clears it.
    fn set(&mut self, value: Option<T>)
        ensures
            final(self).current() == value,
    ;

    /// Return the current value of the gauge.
    fn get(&self) -> (v: Option<T>)
        ensures
            v == self.current(),
    ;
}

/// A counter owned and mutated by a single holder.
pub struct SimpleCounter {
    value: i64,
}

impl SimpleCounter {
    /// A counter starting at `value`.
    pub fn new(value: i64) -> (c: SimpleCounter)
        ensures
            c.value() == value,
    {
        SimpleCounter { value }
    }
}

impl Counter for SimpleCounter {
    closed spec fn value(&self) -> int {
        self.value as int
    }

    fn inc(&mut self, delta: i64) {
        self.value = self.value + delta;
    }

    fn dec(&mut self, delta: i64) {
        self.value = self.value - delta;
    }

    fn get(&self) -> (v: i64) {
        self.value
    }
}

/// What the locked cell of a shared counter holds.
///
/// The cell is reached only through the one [`SharedCounter`] that owns it
/// — the type cannot be cloned and never hands the cell out — so its
/// contents are a function of the cell value alone.
pub uninterp spec fn locked_count(cell: Mutex<i64>) -> int;

/// Relies on std::sync::Mutex::new: the fresh cell holds `value`.
#[verifier::external_body]
fn counter_cell_new(value: i64) -> (cell: Mutex<i64>)
    ensures
        locked_count(cell) == value,
{
    Mutex::new(value)
}

/// Relies on std::sync::Mutex::lock, reached through an exclusive
/// reference: reads the value the cell holds.
#[verifier::external_body]
fn counter_cell_get(cell: &Mutex<i64>) -> (v: i64)
    ensures
        v == locked_count(*cell),
{
    match cell.lock() {
        Ok(guard) => *guard,
        Err(poisoned) => *poisoned.into_inner(),
    }
}

/// Relies on std::sync::Mutex::lock, reached through an exclusive
/// reference: the cell holds `value` afterwards.
#[verifier::external_body]
fn counter_cell_set(cell: &mut Mutex<i64>, value: i64)
    ensures
        locked_count(*final(cell)) == value,
{
    let mut guard = match cell.lock() {
        Ok(guard) => guard,
        Err(poisoned) => poisoned.into_inner(),
    };
    *guard = value;
}

/// A counter whose value lives behind a mutual-exclusion lock, so that it
/// may serve where a lock-guarded cell is required.
pub struct SharedCounter {
    value: Mutex<i64>,
}

impl SharedCounter {
    /// A counter starting at `value`.
    pub fn new(value: i64) -> (c: SharedCounter)
        ensures
            c.value() == value,
    {
        SharedCounter { value: counter_cell_new(value) }
    }
}

impl Counter for SharedCounter {
    closed spec fn value(&self) -> int {
        locked_count(self.value)
    }

    fn inc(&mut self, delta: i64) {
        let current: i64 = counter_cell_get(&self.value);
        counter_cell_set(&mut self.value, current + delta);
    }

    fn dec(&mut self, delta: i64) {
        let current: i64 = counter_cell_get(&self.value);
        counter_cell_set(&mut self.value, current - delta);
    }

    fn get(&self) -> (v: i64) {
        counter_cell_get(&self.value)
    }
}

/// A gauge owned and mutated by a single holder.
pub struct SimpleGauge<T: Copy + Send> {
    value: Option<T>,
}

impl<T: Copy + Send> SimpleGauge<T> {
    /// A gauge starting at `value`.
    pub fn new(value: Option<T>) -> (g: SimpleGauge<T>)
        ensures
            g.current() == value,
    {
        SimpleGauge { value }
    }
}

impl<T: Copy + Send> Gauge<T> for SimpleGauge<T> {
    closed spec fn current(&self) -> Option<T> {
        self.value
    }

    fn set(&mut self, new_value: Option<T>) {
        self.value = new_value;
    }

    fn get(&self) -> (v: Option<T>) {
        self.value
    }
}

/// What the locked cell of a shared gauge holds.
///
/// The cell is reached only through the one [`SharedGauge`] that owns it —
/// the type cannot be cloned and never hands the cell out — so its contents
/// are a function of the cell value alone.
pub uninterp spec fn locked_reading(cell: Mutex<Option<i64>>) -> Option<i64>;

/// Relies on std::sync::Mutex::new: the fresh cell holds `value`.
#[verifier::external_body]
fn gauge_cell_new(value: Option<i64>) -> (cell: Mutex<Option<i64>>)
    ensures
        locked_reading(cell) == value,
{
    Mutex::new(value)
}

/// Relies on std::sync::Mutex::lock, reached through an exclusive
/// reference: reads the value the cell holds.
#[verifier::external_body]
fn gauge_cell_get(cell: &Mutex<Option<i64>>) -> (v: Option<i64>)
    ensures
        v == locked_reading(*cell),
{
    match cell.lock() {
        Ok(guard) => *guard,
        Err(poisoned) => *poisoned.into_inner(),
    }
}

/// Relies on std::sync::Mutex::lock, reached through an exclusive
/// reference: the cell holds `value` afterwards.
#[verifier::external_body]
fn gauge_cell_set(cell: &mut Mutex<Option<i64>>, value: Option<i64>)
    ensures
        locked_reading(*final(cell)) == value,
{
    let mut guard = match cell.lock() {
        Ok(guard) => guard,
        Err(poisoned) => poisoned.into_inner(),
    };
    *guard = value;
}

/// A gauge whose value lives behind a mutual-exclusion lock, so that it may
/// serve where a lock-guarded cell is required.
pub struct SharedGauge {
    value: Mutex<Option<i64>>,
}

impl SharedGauge {
    /// A gauge starting at `value`.
    pub fn new(value: Option<i64>) -> (g: SharedGauge)
        ensures
            g.current() == value,
    {
        SharedGauge { value: gauge_cell_new(value) }
    }
}

impl Gauge<i64> for SharedGauge {
    closed spec fn current(&self) -> Option<i64> {
        locked_reading(self.value)
    }

    fn set(&mut self, new_value: Option<i64>) {
        gauge_cell_set(&mut self.value, new_value);
    }

    fn get(&self) -> (v: Option<i64>) {
        gauge_cell_get(&self.value)
    }
}

} // verus!
