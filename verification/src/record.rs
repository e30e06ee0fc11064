//! A stored record: the value, its kind names, and its time-to-live state.
//! A TTL is informational: reads and deletes never enforce expiry, they
//! only report it.

use vstd::prelude::*;
use crate::value::Value;
use crate::clock::now_secs;

verus! {

/// One stored value with its type tags and TTL state.  `stored_type_name`
/// is the name of the kind actually stored; `desired_type_name` is the tag the
/// writing client named, kept for diagnostics.
#[derive(Debug)]
pub struct Record {
    pub value: Value,
    pub ttl: Option<u64>,
    pub ttl_start: u64,
    pub stored_type_name: String,
    pub desired_type_name: String,
}

/// The seconds a record has left at time `now`: nothing when it never
/// expires, zero once the elapsed time has reached the TTL, the remainder
/// otherwise — never negative.  A clock that reads earlier than the
/// record's start counts as no time elapsed.
pub open spec fn remaining_ttl(ttl: Option<u64>, start: u64, now: u64) -> Option<u64> {
    match ttl {
        None => None,
        Some(t) => {
            let elapsed = if now >= start {
                now - start
            } else {
                0
            };
            if elapsed >= t {
                Some(0u64)
            } else {
                Some((t - elapsed) as u64)
            }
        },
    }
}

/// Computes the seconds left of `ttl` at time `now`, for a record written
/// at time `start`, exactly as `remaining_ttl` states it.
pub fn compute_remaining_ttl(ttl: Option<u64>, start: u64, now: u64) -> (r: Option<u64>)
    ensures
        r == remaining_ttl(ttl, start, now),
{
    match ttl {
        None => None,
        Some(t) => {
            let elapsed: u64 = if now >= start {
                now - start
            } else {
                0
            };
            if elapsed >= t {
                Some(0)
            } else {
                Some(t - elapsed)
            }
        },
    }
}

/// The TTL view of a record, read against the wall clock.
pub trait RecordLike {
    /// The record's TTL field.
    spec fn spec_ttl(&self) -> Option<u64>;

    /// The moment the record was written.
    spec fn spec_ttl_start(&self) -> u64;

    /// Whether the record's TTL has elapsed at the clock reading taken:
    /// true exactly when a TTL exists and no seconds remain of it.  A
    /// record without a TTL is never expired.
    fn is_expired(&self) -> (r: bool)
        ensures
            self.spec_ttl() is None ==> r == false,
            r ==> self.spec_ttl() is Some,
            exists|now: u64| r == (#[trigger] remaining_ttl(
                self.spec_ttl(),
                self.spec_ttl_start(),
                now,
            ) == Some(0u64)),
    ;

    /// The seconds the record has left: nothing when it never expires,
    /// otherwise some count no greater than the TTL itself, zero once
    /// elapsed — never negative.
    fn get_ttl(&self) -> (r: Option<u64>)
        ensures
            r is Some <==> self.spec_ttl() is Some,
            r matches Some(m) ==> self.spec_ttl() matches Some(t) && m <= t,
            exists|now: u64| r == remaining_ttl(self.spec_ttl(), self.spec_ttl_start(), now),
    ;
}

impl RecordLike for Record {
    open spec fn spec_ttl(&self) -> Option<u64> {
        self.ttl
    }

    open spec fn spec_ttl_start(&self) -> u64 {
        self.ttl_start
    }

    fn is_expired(&self) -> (r: bool) {
        let now = now_secs();
        let rem = compute_remaining_ttl(self.ttl, self.ttl_start, now);
        let r = match rem {
            Some(0u64) => true,
            _ => false,
        };
        proof {
            assert(r == (remaining_ttl(self.spec_ttl(), self.spec_ttl_start(), now) == Some(
                0u64,
            )));
        }
        r
    }

    fn get_ttl(&self) -> (r: Option<u64>) {
        let now = now_secs();
        let r = compute_remaining_ttl(self.ttl, self.ttl_start, now);
        proof {
            assert(r == remaining_ttl(self.spec_ttl(), self.spec_ttl_start(), now));
        }
        r
    }
}

} // verus!
