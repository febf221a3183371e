//! Spans of time, held as `std::time::Duration` holds them: whole seconds
//! and the nanoseconds past them.

use vstd::prelude::*;

verus! {

/// Nanoseconds in a second.
pub const NANOS_PER_SEC: u32 = 1_000_000_000;

/// `{:?}` of `std::time::Duration::new(secs, nanos)`: the span written in
/// the unit std picks for it (such as `300s`, `1.5s` or `300ms`).
pub uninterp spec fn duration_debug(secs: u64, nanos: u32) -> Seq<char>;

/// Writes `std::time::Duration::new(secs, nanos)` with `{:?}`; the contract
/// names the result. `Duration::new` panics only when the nanoseconds carry
/// into seconds past `u64::MAX`, which `nanos < NANOS_PER_SEC` rules out.
#[verifier::external_body]
fn debug_text(secs: u64, nanos: u32) -> (s: String)
    requires
        nanos < NANOS_PER_SEC,
    ensures
        s@ == duration_debug(secs, nanos),
{
    format!("{:?}", std::time::Duration::new(secs, nanos))
}

/// A span of time: whole seconds and the nanoseconds past them.
#[derive(Debug, Clone, Copy, PartialEq, Eq, Structural)]
pub struct Duration {
    secs: u64,
    nanos: u32,
}

impl View for Duration {
    /// The whole seconds and the nanoseconds past them.
    type V = (u64, u32);

    closed spec fn view(&self) -> (u64, u32) {
        (self.secs, self.nanos)
    }
}

impl Duration {
    #[verifier::type_invariant]
    spec fn well_formed(self) -> bool {
        self.nanos < NANOS_PER_SEC
    }

    /// `secs` whole seconds.
    pub fn from_secs(secs: u64) -> (d: Self)
        ensures
            d@ == (secs, 0u32),
    {
        Duration { secs, nanos: 0 }
    }

    /// `millis` milliseconds.
    pub fn from_millis(millis: u64) -> (d: Self)
        ensures
            d@ == ((millis / 1000) as u64, ((millis % 1000) * 1_000_000) as u32),
    {
        Duration { secs: millis / 1000, nanos: ((millis % 1000) as u32) * 1_000_000 }
    }

    /// `secs` seconds and `nanos` nanoseconds, the nanoseconds past a whole
    /// second carried into the seconds.
    pub fn new(secs: u64, nanos: u32) -> (d: Self)
        requires
            secs + nanos / NANOS_PER_SEC <= u64::MAX,
        ensures
            d@ == ((secs + nanos / NANOS_PER_SEC) as u64, (nanos % NANOS_PER_SEC) as u32),
    {
        Duration { secs: secs + (nanos / NANOS_PER_SEC) as u64, nanos: nanos % NANOS_PER_SEC }
    }

    /// The whole seconds.
    pub fn as_secs(&self) -> (s: u64)
        ensures
            s == self@.0,
    {
        self.secs
    }

    /// The nanoseconds past the whole seconds.
    pub fn subsec_nanos(&self) -> (n: u32)
        ensures
            n == self@.1,
            n < NANOS_PER_SEC,
    {
        proof {
            use_type_invariant(self);
        }
        self.nanos
    }

    /// The span as `{:?}` writes it.
    pub fn debug_text(&self) -> (s: String)
        ensures
            s@ == duration_debug(self@.0, self@.1),
    {
        proof {
            use_type_invariant(self);
        }
        debug_text(self.secs, self.nanos)
    }
}

} // verus!
