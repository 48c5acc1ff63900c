//! Instants, as the feed's entries are ordered by them.

use vstd::prelude::*;

verus! {

/// An instant on the UTC time line, and the clock it was read from.
///
/// The instant is `secs` whole seconds since the start of 1970 and `nanos`
/// nanoseconds past that second. During a leap second `nanos` runs on past a
/// thousand million, so two instants compare by `secs` first and by `nanos`
/// where the seconds agree. `offset` is what the clock was ahead of UTC, in
/// seconds; it changes how the instant is shown, not when it was.
#[derive(Clone, Copy, Debug, PartialEq, Eq)]
pub struct Timestamp {
    pub secs: i64,
    pub nanos: u32,
    pub offset: i32,
}

impl Timestamp {
    /// One integer for the instant, which grows exactly as the instant does.
    pub open spec fn ordinal(self) -> int {
        self.secs * 0x1_0000_0000 + self.nanos
    }

    /// Whether the two are the same instant, whatever clocks they were read from.
    pub open spec fn same_instant(self, other: Timestamp) -> bool {
        self.secs == other.secs && self.nanos == other.nanos
    }

    /// Whether `self` is the instant of `other` or comes after it.
    pub open spec fn at_or_after(self, other: Timestamp) -> bool {
        self.secs > other.secs || (self.secs == other.secs && self.nanos >= other.nanos)
    }

    /// Whether `self` is no earlier than `since`.
    pub fn is_at_or_after(&self, since: &Timestamp) -> (yes: bool)
        ensures
            yes == self.at_or_after(*since),
    {
        self.secs > since.secs || (self.secs == since.secs && self.nanos >= since.nanos)
    }
}

/// Where an optional instant stands among all of them: a missing one stands
/// before every instant there is.
pub open spec fn rank(at: Option<Timestamp>) -> int {
    match at {
        Some(t) => t.ordinal(),
        None => i64::MIN * 0x1_0000_0000 - 1,
    }
}

/// The rank of an optional instant.
pub fn rank_of(at: &Option<Timestamp>) -> (r: i128)
    ensures
        r == rank(*at),
{
    match at {
        Some(t) => {
            let secs: i128 = t.secs as i128;
            let nanos: i128 = t.nanos as i128;
            secs * 0x1_0000_0000 + nanos
        },
        None => -0x8000_0000_0000_0000_0000_0001i128,
    }
}

/// The ordinal orders instants by their seconds and, where these agree, by
/// their nanoseconds; distinct instants have distinct ordinals.
pub proof fn lemma_ordinal_orders(a: Timestamp, b: Timestamp)
    ensures
        a.ordinal() >= b.ordinal() <==> a.at_or_after(b),
        a.ordinal() == b.ordinal() <==> a.same_instant(b),
{
}

/// A missing instant ranks below every instant, and instants rank by their ordinal.
pub proof fn lemma_rank_orders(a: Option<Timestamp>, b: Timestamp)
    ensures
        rank(a) >= rank(Some(b)) <==> (a matches Some(t) && t.at_or_after(b)),
        rank(None) < rank(Some(b)),
{
    if let Some(t) = a {
        lemma_ordinal_orders(t, b);
    }
}

} // verus!
