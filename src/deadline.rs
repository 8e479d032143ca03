use vstd::prelude::*;

verus! {

/// Nanoseconds in a second.
pub const NANOS_PER_SEC: u64 = 1_000_000_000;

/// What a read may do, given the deadline and the time now.
#[derive(Debug, PartialEq, Eq, Structural, Clone, Copy)]
pub enum ReadBudget {
    /// No deadline: the read blocks as long as the system lets it.
    Unbounded,
    /// The read must finish within this many nanoseconds.
    Remaining(u64),
    /// The deadline has passed: fail with a timeout, without reading.
    Expired,
}

/// The budget of a read that starts at `now`, both instants in nanoseconds
/// from one origin.
pub open spec fn spec_read_budget(deadline: Option<u64>, now: u64) -> ReadBudget {
    match deadline {
        None => ReadBudget::Unbounded,
        Some(d) => if d <= now {
            ReadBudget::Expired
        } else {
            ReadBudget::Remaining((d - now) as u64)
        },
    }
}

/// Decides how a read that starts at `now` is bounded. A deadline at or
/// before `now` gives `Expired`: the read fails at once and the source is
/// not touched.
pub fn read_budget(deadline: Option<u64>, now: u64) -> (r: ReadBudget)
    ensures
        r == spec_read_budget(deadline, now),
        deadline is None <==> r == ReadBudget::Unbounded,
        (deadline matches Some(d) && d <= now) <==> r == ReadBudget::Expired,
{
    match deadline {
        None => ReadBudget::Unbounded,
        Some(d) => if d <= now {
            ReadBudget::Expired
        } else {
            ReadBudget::Remaining(d - now)
        },
    }
}

/// The deadline of a request sent at `now` with a timeout of
/// `timeout_secs` seconds, in nanoseconds; the latest instant that fits
/// when the sum does not.
pub open spec fn spec_deadline(now: u64, timeout_secs: Option<u64>) -> Option<u64> {
    match timeout_secs {
        None => None,
        Some(t) => if now + t * NANOS_PER_SEC <= u64::MAX {
            Some((now + t * NANOS_PER_SEC) as u64)
        } else {
            Some(u64::MAX)
        },
    }
}

/// Computes the deadline of a request sent at `now`.
pub fn deadline_at(now: u64, timeout_secs: Option<u64>) -> (r: Option<u64>)
    ensures
        r == spec_deadline(now, timeout_secs),
{
    match timeout_secs {
        None => None,
        Some(t) => {
            let room = u64::MAX - now;
            if t <= room / NANOS_PER_SEC {
                assert(t * NANOS_PER_SEC <= room) by (nonlinear_arith)
                    requires
                        t <= room / NANOS_PER_SEC,
                        NANOS_PER_SEC > 0,
                ;
                Some(now + t * NANOS_PER_SEC)
            } else {
                assert(t * NANOS_PER_SEC > room) by (nonlinear_arith)
                    requires
                        t > room / NANOS_PER_SEC,
                        NANOS_PER_SEC > 0,
                ;
                Some(u64::MAX)
            }
        },
    }
}

} // verus!
