//! Simple saturating-free counters over `u64`.
//!
//! `Counter` moves in both directions; `IncrementCounter` and
//! `DecrementCounter` restrict it to one direction each.  Callers must keep
//! the count inside the `u64` range, so none of these operations can wrap.

use vstd::prelude::*;

verus! {

/// A counter over `u64`.  Its view is the current count.
pub struct Counter {
    count: u64,
}

impl View for Counter {
    type V = u64;

    closed spec fn view(&self) -> u64 {
        self.count
    }
}

impl Counter {
    /// A fresh counter starts at zero.
    pub fn new() -> (c: Counter)
        ensures
            c@ == 0,
    {
        Counter { count: 0 }
    }

    /// Advances the count by one and returns the new count.
    pub fn increment(&mut self) -> (n: u64)
        requires
            old(self)@ < u64::MAX,
        ensures
            final(self)@ == old(self)@ + 1,
            n == final(self)@,
    {
        self.count = self.count + 1;
        self.count
    }

    /// Moves the count back by one and returns the new count.
    pub fn decrement(&mut self) -> (n: u64)
        requires
            old(self)@ > 0,
        ensures
            final(self)@ == old(self)@ - 1,
            n == final(self)@,
    {
        self.count = self.count - 1;
        self.count
    }

    /// Reads the current count.
    pub fn get_count(&self) -> (n: u64)
        ensures
            n == self@,
    {
        self.count
    }
}

/// A counter that only moves forward.
pub struct IncrementCounter {
    counter: Counter,
}

impl View for IncrementCounter {
    type V = u64;

    closed spec fn view(&self) -> u64 {
        self.counter@
    }
}

impl IncrementCounter {
    /// A fresh counter starts at zero.
    pub fn new() -> (c: IncrementCounter)
        ensures
            c@ == 0,
    {
        IncrementCounter { counter: Counter::new() }
    }

    /// Advances the count by one and returns the new count.
    pub fn increment(&mut self) -> (n: u64)
        requires
            old(self)@ < u64::MAX,
        ensures
            final(self)@ == old(self)@ + 1,
            n == final(self)@,
    {
        self.counter.increment()
    }

    /// Reads the current count.
    pub fn get_count(&self) -> (n: u64)
        ensures
            n == self@,
    {
        self.counter.get_count()
    }
}

/// A counter that only moves backward.
pub struct DecrementCounter {
    counter: Counter,
}

impl View for DecrementCounter {
    type V = u64;

    closed spec fn view(&self) -> u64 {
        self.counter@
    }
}

impl DecrementCounter {
    /// A fresh counter starts at zero.
    pub fn new() -> (c: DecrementCounter)
        ensures
            c@ == 0,
    {
        DecrementCounter { counter: Counter::new() }
    }

    /// Moves the count back by one and returns the new count.
    pub fn decrement(&mut self) -> (n: u64)
        requires
            old(self)@ > 0,
        ensures
            final(self)@ == old(self)@ - 1,
            n == final(self)@,
    {
        self.counter.decrement()
    }

    /// Reads the current count.
    pub fn get_count(&self) -> (n: u64)
        ensures
            n == self@,
    {
        self.counter.get_count()
    }
}

} // verus!
