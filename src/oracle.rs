use vstd::prelude::*;

verus! {

/// Assigns timestamps to reads and writes, anchored to the wall clock that
/// the caller reads (`now`, in milliseconds since the epoch).
#[derive(Clone, Copy, Debug, PartialEq, Eq, Structural)]
pub struct TimestampOracle {
    /// The last timestamp assigned to a read, or the last write.
    pub read_lower_bound: u64,
    /// The timestamp that all local inputs have been advanced up to.
    pub closed_up_to: u64,
    /// Whether the most recent operation was a read.
    pub last_op_was_read: bool,
    /// Whether someone observed a timestamp since local inputs last advanced.
    pub need_advance: bool,
}

pub open spec fn max_u64(a: u64, b: u64) -> u64 {
    if a >= b {
        a
    } else {
        b
    }
}

pub open spec fn succ(a: u64) -> u64 {
    if a < u64::MAX {
        (a + 1) as u64
    } else {
        a
    }
}

/// The clock reading clamped up to the read lower bound.
pub open spec fn ts_spec(o: TimestampOracle, now: u64) -> u64 {
    max_u64(now, o.read_lower_bound)
}

/// The state and result of a read.
pub open spec fn read_spec(o: TimestampOracle, now: u64) -> (TimestampOracle, u64) {
    let ts = ts_spec(o, now);
    (TimestampOracle { read_lower_bound: ts, last_op_was_read: true, need_advance: true, ..o }, ts)
}

/// The state and result of a write: after a read it is strictly later than
/// that read, and never earlier than the closed local inputs.
pub open spec fn write_spec(o: TimestampOracle, now: u64) -> (TimestampOracle, u64) {
    let ts = if o.last_op_was_read {
        max_u64(ts_spec(o, now), succ(o.read_lower_bound))
    } else {
        ts_spec(o, now)
    };
    let r = max_u64(ts, o.closed_up_to);
    (TimestampOracle { read_lower_bound: r, last_op_was_read: false, need_advance: true, ..o }, r)
}

/// The time to which local inputs advance after a message, if they do: one
/// past the read lower bound at least, and only when a timestamp was observed
/// or the clock crossed into a new logging bucket of `granularity`
/// milliseconds (a zero granularity forms no buckets), and only forward.
pub open spec fn local_advance(o: TimestampOracle, now: u64, granularity: Option<u64>) -> Option<
    u64,
> {
    let next = max_u64(ts_spec(o, now), succ(o.read_lower_bound));
    let wanted = o.need_advance || match granularity {
        Some(g) => g > 0 && next / g > o.closed_up_to / g,
        None => false,
    };
    if wanted && next > o.closed_up_to {
        Some(next)
    } else {
        None
    }
}

impl TimestampOracle {
    /// The state at startup: local inputs closed up to time one.
    pub fn new() -> (r: TimestampOracle)
        ensures
            r.read_lower_bound == 1,
            r.closed_up_to == 1,
            !r.last_op_was_read,
            r.need_advance,
    {
        TimestampOracle {
            read_lower_bound: 1,
            closed_up_to: 1,
            last_op_was_read: false,
            need_advance: true,
        }
    }

    /// Fetches a new timestamp: the clock reading, never below the read
    /// lower bound. Local inputs will be advanced at the next chance.
    pub fn get_ts(&mut self, now: u64) -> (r: u64)
        ensures
            r == ts_spec(*old(self), now),
            *final(self) == (TimestampOracle { need_advance: true, ..*old(self) }),
    {
        self.need_advance = true;
        if now < self.read_lower_bound {
            self.read_lower_bound
        } else {
            now
        }
    }

    /// Assigns a timestamp for a read.
    pub fn get_read_ts(&mut self, now: u64) -> (r: u64)
        ensures
            (*final(self), r) == read_spec(*old(self), now),
    {
        let ts = self.get_ts(now);
        self.last_op_was_read = true;
        self.read_lower_bound = ts;
        ts
    }

    /// Assigns a timestamp for a write.
    pub fn get_write_ts(&mut self, now: u64) -> (r: u64)
        ensures
            (*final(self), r) == write_spec(*old(self), now),
    {
        let ts = if self.last_op_was_read {
            self.last_op_was_read = false;
            let t = self.get_ts(now);
            let bumped = self.read_lower_bound.saturating_add(1);
            if t >= bumped {
                t
            } else {
                bumped
            }
        } else {
            self.get_ts(now)
        };
        self.read_lower_bound = if ts >= self.closed_up_to {
            ts
        } else {
            self.closed_up_to
        };
        self.read_lower_bound
    }

    /// After a message was handled: decides whether all local inputs must be
    /// advanced, and to which time. They are advanced when a timestamp was
    /// observed, or when the clock crossed into a new logging bucket of
    /// `granularity` milliseconds (a zero granularity forms no buckets), and
    /// only ever forward.
    pub fn advance_local_inputs(&mut self, now: u64, granularity: Option<u64>) -> (r: Option<u64>)
        ensures
            r == local_advance(*old(self), now, granularity),
            ({
                let next = max_u64(ts_spec(*old(self), now), succ(old(self).read_lower_bound));
                let wanted = old(self).need_advance || match granularity {
                    Some(g) => g > 0 && next / g > old(self).closed_up_to / g,
                    None => false,
                };
                &&& r == (if wanted && next > old(self).closed_up_to {
                    Some(next)
                } else {
                    None
                })
                &&& final(self).closed_up_to == (if r.is_some() {
                    next
                } else {
                    old(self).closed_up_to
                })
                &&& !final(self).need_advance
                &&& final(self).read_lower_bound == old(self).read_lower_bound
                &&& final(self).last_op_was_read == old(self).last_op_was_read
            }),
    {
        let needed = self.need_advance;
        let mut next_ts = self.get_ts(now);
        self.need_advance = false;
        if next_ts <= self.read_lower_bound {
            next_ts = self.read_lower_bound.saturating_add(1);
        }
        let crossed = match granularity {
            Some(g) => g > 0 && next_ts / g > self.closed_up_to / g,
            None => false,
        };
        if (needed || crossed) && next_ts > self.closed_up_to {
            self.closed_up_to = next_ts;
            Some(next_ts)
        } else {
            None
        }
    }
}

/// Timestamps never go backwards: whatever the clock says, a read or a write
/// is assigned a time no earlier than any time assigned before it, and a write
/// that follows a read is assigned a strictly later time (short of the
/// largest representable time).
pub proof fn lemma_timestamps_monotone(o: TimestampOracle, now1: u64, now2: u64)
    ensures
        ({
            let (o1, r1) = read_spec(o, now1);
            &&& read_spec(o1, now2).1 >= r1
            &&& r1 < u64::MAX ==> write_spec(o1, now2).1 > r1
        }),
        ({
            let (o1, r1) = write_spec(o, now1);
            &&& read_spec(o1, now2).1 >= r1
            &&& write_spec(o1, now2).1 >= r1
        }),
        read_spec(o, now1).1 >= o.read_lower_bound,
        write_spec(o, now1).1 >= o.read_lower_bound,
{
}

/// Advancing local inputs leaves the read lower bound alone, so the times
/// assigned afterwards are still no earlier than those assigned before.
pub proof fn lemma_advance_keeps_bound(o: TimestampOracle, o2: TimestampOracle, now: u64)
    requires
        o2.read_lower_bound == o.read_lower_bound,
    ensures
        read_spec(o2, now).1 >= o.read_lower_bound,
        write_spec(o2, now).1 >= o.read_lower_bound,
{
}

} // verus!
