//! Points in time and spans of time.

use vstd::prelude::*;

verus! {

/// A point in time: whole seconds since the Unix epoch and the nanoseconds after them.
#[derive(Debug, Clone, Copy, PartialEq, Eq, Structural)]
pub struct Timestamp {
    pub secs: i64,
    pub nanos: u32,
}

/// A span of time: whole seconds and the nanoseconds after them.
#[derive(Debug, Clone, Copy, PartialEq, Eq, Structural)]
pub struct Span {
    pub secs: u64,
    pub nanos: u32,
}

/// The nanoseconds of a second.
pub const NANOS_PER_SEC: i128 = 1_000_000_000;

impl View for Timestamp {
    type V = int;

    /// The nanoseconds since the Unix epoch.
    open spec fn view(&self) -> int {
        self.secs * NANOS_PER_SEC + self.nanos
    }
}

impl View for Span {
    type V = nat;

    /// The span in nanoseconds.
    open spec fn view(&self) -> nat {
        (self.secs * NANOS_PER_SEC + self.nanos) as nat
    }
}

impl Timestamp {
    /// The nanoseconds since the Unix epoch.
    pub fn total_nanos(&self) -> (r: i128)
        ensures
            r == self@,
            -10_000_000_000_000_000_000_000_000_000 < r < 10_000_000_000_000_000_000_000_000_000,
    {
        self.secs as i128 * NANOS_PER_SEC + self.nanos as i128
    }
}

impl Span {
    /// The span in nanoseconds.
    pub fn total_nanos(&self) -> (r: i128)
        ensures
            r == self@,
            0 <= r < 20_000_000_000_000_000_000_000_000_000,
    {
        self.secs as i128 * NANOS_PER_SEC + self.nanos as i128
    }
}

/// How long before `now` the point `then` lies, in nanoseconds; nothing where it lies ahead.
pub open spec fn age(now: int, then: int) -> nat {
    if now > then {
        (now - then) as nat
    } else {
        0
    }
}

/// Whether `then` lies at least the given span before `now`. A point ahead of `now` counts as
/// `now` itself.
pub fn is_older(now: &Timestamp, then: &Timestamp, span: &Span) -> (r: bool)
    ensures
        r == (age(now@, then@) >= span@),
{
    let n: i128 = now.total_nanos();
    let t: i128 = then.total_nanos();
    let limit: i128 = span.total_nanos();
    if n > t {
        n - t >= limit
    } else {
        limit == 0
    }
}

/// Points in time and spans of time count in nanoseconds, and an age is the difference of two
/// points, or nothing where the later one comes first.
pub proof fn lemma_time_in_nanoseconds(t: Timestamp, s: Span, now: int, then: int)
    ensures
        t@ == t.secs * 1_000_000_000 + t.nanos,
        s@ == s.secs * 1_000_000_000 + s.nanos,
        then <= now ==> age(now, then) == now - then,
        now <= then ==> age(now, then) == 0,
{
}

} // verus!
