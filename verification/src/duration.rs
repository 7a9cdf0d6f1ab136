//! The duration value: a signed count of whole seconds within the range that
//! `chrono::TimeDelta` can hold, with checked and saturating arithmetic.

use vstd::prelude::*;

verus! {

/// The largest duration, in whole seconds: `i64::MAX` milliseconds, truncated.
pub const MAX_SECONDS: i64 = 9_223_372_036_854_775;

/// The smallest duration, in whole seconds: `-i64::MAX` milliseconds, truncated.
pub const MIN_SECONDS: i64 = -9_223_372_036_854_775;

/// Whether a count of seconds lies between the two limits.
pub open spec fn representable(seconds: int) -> bool {
    MIN_SECONDS <= seconds <= MAX_SECONDS
}

/// The nearest representable count of seconds.
pub open spec fn clamped(seconds: int) -> int {
    if seconds < MIN_SECONDS {
        MIN_SECONDS as int
    } else if seconds > MAX_SECONDS {
        MAX_SECONDS as int
    } else {
        seconds
    }
}

/// `count` units of `unit` seconds each, where that is representable.
pub open spec fn scaled(count: int, unit: int) -> Option<i64> {
    if representable(count * unit) {
        Some((count * unit) as i64)
    } else {
        None
    }
}

/// The exact sum, where it is representable.
pub open spec fn checked_sum(a: int, b: int) -> Option<i64> {
    if representable(a + b) {
        Some((a + b) as i64)
    } else {
        None
    }
}

/// The exact difference, where it is representable.
pub open spec fn checked_difference(a: int, b: int) -> Option<i64> {
    if representable(a - b) {
        Some((a - b) as i64)
    } else {
        None
    }
}

/// The exact sum where it is representable, the upper limit otherwise.
pub open spec fn saturated_sum(a: int, b: int) -> int {
    if representable(a + b) {
        a + b
    } else {
        MAX_SECONDS as int
    }
}

/// The exact difference where it is representable, the lower limit otherwise.
pub open spec fn saturated_difference(a: int, b: int) -> int {
    if representable(a - b) {
        a - b
    } else {
        MIN_SECONDS as int
    }
}

/// `chrono::TimeDelta::try_seconds`, read back with `num_seconds`.
///
/// Not proved: that chrono accepts exactly the counts between the two limits
/// and stores them unchanged.
#[verifier::external_body]
fn chrono_try_seconds(seconds: i64) -> (r: Option<i64>)
    ensures
        r == scaled(seconds as int, 1),
{
    chrono::TimeDelta::try_seconds(seconds).map(|d| d.num_seconds())
}

/// `chrono::TimeDelta::try_minutes`, read back with `num_seconds`.
///
/// Not proved: that chrono multiplies by 60 and gives `None` exactly when the
/// product is outside the two limits.
#[verifier::external_body]
fn chrono_try_minutes(minutes: i64) -> (r: Option<i64>)
    ensures
        r == scaled(minutes as int, 60),
{
    chrono::TimeDelta::try_minutes(minutes).map(|d| d.num_seconds())
}

/// `chrono::TimeDelta::try_hours`, read back with `num_seconds`.
///
/// Not proved: that chrono multiplies by 3600 and gives `None` exactly when
/// the product is outside the two limits.
#[verifier::external_body]
fn chrono_try_hours(hours: i64) -> (r: Option<i64>)
    ensures
        r == scaled(hours as int, 3_600),
{
    chrono::TimeDelta::try_hours(hours).map(|d| d.num_seconds())
}

/// `chrono::TimeDelta::try_days`, read back with `num_seconds`.
///
/// Not proved: that chrono multiplies by 86400 and gives `None` exactly when
/// the product is outside the two limits.
#[verifier::external_body]
fn chrono_try_days(days: i64) -> (r: Option<i64>)
    ensures
        r == scaled(days as int, 86_400),
{
    chrono::TimeDelta::try_days(days).map(|d| d.num_seconds())
}

/// `chrono::TimeDelta::checked_add` on two counts of whole seconds.
///
/// Not proved: that chrono gives the exact sum, and `None` exactly when the
/// sum is outside the two limits.
#[verifier::external_body]
fn chrono_checked_add(a: i64, b: i64) -> (r: Option<i64>)
    requires
        representable(a as int),
        representable(b as int),
    ensures
        r == checked_sum(a as int, b as int),
{
    let sum = chrono::TimeDelta::seconds(a).checked_add(&chrono::TimeDelta::seconds(b));
    sum.map(|d| d.num_seconds())
}

/// `chrono::TimeDelta::checked_sub` on two counts of whole seconds.
///
/// Not proved: that chrono gives the exact difference, and `None` exactly when
/// the difference is outside the two limits.
#[verifier::external_body]
fn chrono_checked_sub(a: i64, b: i64) -> (r: Option<i64>)
    requires
        representable(a as int),
        representable(b as int),
    ensures
        r == checked_difference(a as int, b as int),
{
    let difference = chrono::TimeDelta::seconds(a).checked_sub(&chrono::TimeDelta::seconds(b));
    difference.map(|d| d.num_seconds())
}

/// A signed span of whole seconds, always between [`MIN_SECONDS`] and
/// [`MAX_SECONDS`].
#[derive(Clone, Copy, Debug, PartialEq, Eq, Structural, PartialOrd, Ord)]
pub struct Duration {
    seconds: i64,
}

impl View for Duration {
    type V = int;

    closed spec fn view(&self) -> int {
        self.seconds as int
    }
}

impl Duration {
    #[verifier::type_invariant]
    pub open spec fn in_range(&self) -> bool {
        representable(self@)
    }

    /// The empty span.
    pub fn zero() -> (r: Duration)
        ensures
            r@ == 0,
    {
        Duration { seconds: 0 }
    }

    /// The longest span.
    pub fn maximum() -> (r: Duration)
        ensures
            r@ == MAX_SECONDS,
    {
        Duration { seconds: MAX_SECONDS }
    }

    /// The longest span backwards.
    pub fn minimum() -> (r: Duration)
        ensures
            r@ == MIN_SECONDS,
    {
        Duration { seconds: MIN_SECONDS }
    }

    /// The limit on the side of the given sign.
    fn limit(negative: bool) -> (r: Duration)
        ensures
            r@ == if negative { MIN_SECONDS } else { MAX_SECONDS },
    {
        if negative {
            Duration::minimum()
        } else {
            Duration::maximum()
        }
    }

    /// A span of `seconds` seconds, clamped to the limits.
    pub fn seconds(seconds: i64) -> (r: Duration)
        ensures
            r@ == clamped(seconds as int),
    {
        match chrono_try_seconds(seconds) {
            Some(s) => Duration { seconds: s },
            None => Duration::limit(seconds < 0),
        }
    }

    /// A span of `minutes` minutes, clamped to the limits.
    pub fn minutes(minutes: i64) -> (r: Duration)
        ensures
            r@ == clamped(minutes * 60),
    {
        match chrono_try_minutes(minutes) {
            Some(s) => Duration { seconds: s },
            None => Duration::limit(minutes < 0),
        }
    }

    /// A span of `hours` hours, clamped to the limits.
    pub fn hours(hours: i64) -> (r: Duration)
        ensures
            r@ == clamped(hours * 3_600),
    {
        match chrono_try_hours(hours) {
            Some(s) => Duration { seconds: s },
            None => Duration::limit(hours < 0),
        }
    }

    /// A span of `days` days of 24 hours, clamped to the limits.
    pub fn days(days: i64) -> (r: Duration)
        ensures
            r@ == clamped(days * 86_400),
    {
        match chrono_try_days(days) {
            Some(s) => Duration { seconds: s },
            None => Duration::limit(days < 0),
        }
    }

    /// The span in whole seconds.
    pub fn num_seconds(&self) -> (r: i64)
        ensures
            r == self@,
            representable(r as int),
    {
        proof {
            use_type_invariant(self);
        }
        self.seconds
    }

    /// The exact sum, or `None` where it is outside the limits.
    pub fn checked_add(&self, rhs: &Duration) -> (r: Option<Duration>)
        ensures
            match checked_sum(self@, rhs@) {
                Some(s) => r matches Some(d) && d@ == s,
                None => r is None,
            },
    {
        proof {
            use_type_invariant(self);
            use_type_invariant(rhs);
        }
        match chrono_checked_add(self.seconds, rhs.seconds) {
            Some(s) => Some(Duration { seconds: s }),
            None => None,
        }
    }

    /// The exact difference, or `None` where it is outside the limits.
    pub fn checked_sub(&self, rhs: &Duration) -> (r: Option<Duration>)
        ensures
            match checked_difference(self@, rhs@) {
                Some(s) => r matches Some(d) && d@ == s,
                None => r is None,
            },
    {
        proof {
            use_type_invariant(self);
            use_type_invariant(rhs);
        }
        match chrono_checked_sub(self.seconds, rhs.seconds) {
            Some(s) => Some(Duration { seconds: s }),
            None => None,
        }
    }

    /// The sum, or the longest span where the sum is outside the limits.
    pub fn saturated_add(&self, rhs: &Duration) -> (r: Duration)
        ensures
            r@ == saturated_sum(self@, rhs@),
            self@ == MAX_SECONDS && rhs@ > 0 ==> r@ == MAX_SECONDS,
    {
        proof {
            use_type_invariant(rhs);
        }
        match self.checked_add(rhs) {
            Some(d) => d,
            None => Duration::maximum(),
        }
    }

    /// The difference, or the longest span backwards where the difference is
    /// outside the limits.
    pub fn saturated_sub(&self, rhs: &Duration) -> (r: Duration)
        ensures
            r@ == saturated_difference(self@, rhs@),
            self@ == MIN_SECONDS && rhs@ > 0 ==> r@ == MIN_SECONDS,
    {
        proof {
            use_type_invariant(rhs);
        }
        match self.checked_sub(rhs) {
            Some(d) => d,
            None => Duration::minimum(),
        }
    }
}

} // verus!
