//! Calendar dates, as far as the ledger needs them: an identity and an order.

use vstd::prelude::*;

verus! {

/// A calendar date without a time of day.
///
/// Dates are ordered by year, then month, then day. The ledger does not ask
/// whether the three numbers name a day that exists.
#[derive(Clone, Copy, Debug, PartialEq, Eq, Structural, Hash)]
pub struct Date {
    pub year: i32,
    pub month: u32,
    pub day: u32,
}

impl Date {
    /// `self` is strictly earlier than `other`.
    pub open spec fn earlier_than(self, other: Date) -> bool {
        ||| self.year < other.year
        ||| (self.year == other.year && self.month < other.month)
        ||| (self.year == other.year && self.month == other.month && self.day < other.day)
    }

    /// `self` is `other` or an earlier date.
    pub open spec fn not_after(self, other: Date) -> bool {
        !other.earlier_than(self)
    }

    /// Tells whether `self` is strictly earlier than `other`.
    pub fn is_before(&self, other: &Date) -> (r: bool)
        ensures
            r == self.earlier_than(*other),
    {
        if self.year != other.year {
            self.year < other.year
        } else if self.month != other.month {
            self.month < other.month
        } else {
            self.day < other.day
        }
    }
}

} // verus!
