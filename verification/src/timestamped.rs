//! A value paired with the time it was last set. Delta synchronization
//! filters on these timestamps: a value is "changed since `ts`" exactly when
//! its timestamp is greater than `ts`.

use crate::ids::TimestampMillis;
use vstd::prelude::*;

verus! {

/// A value together with the time it was last set.
pub struct Timestamped<T> {
    pub value: T,
    pub timestamp: TimestampMillis,
}

impl<T> Timestamped<T> {
    pub fn new(value: T, now: TimestampMillis) -> (r: Timestamped<T>)
        ensures
            r.value == value,
            r.timestamp == now,
    {
        Timestamped { value, timestamp: now }
    }

    /// The value, but only if it was set strictly after `ts`.
    pub fn if_set_after(&self, ts: TimestampMillis) -> (r: Option<&T>)
        ensures
            r is Some <==> self.timestamp > ts,
            r matches Some(v) ==> *v == self.value,
    {
        if self.timestamp > ts {
            Some(&self.value)
        } else {
            None
        }
    }
}

} // verus!
