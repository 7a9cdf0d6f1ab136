//! The running total of a run: the lines piped in, then the arguments.

use vstd::prelude::*;
use crate::duration::{Duration, saturated_sum};
use crate::grammar::parsed_seconds;
use crate::parse::ParseError;

verus! {

/// A total that starts at nothing and grows by saturating addition, and
/// whether the total of the piped lines has been handed out.
pub struct Accumulator {
    total: Duration,
    piped: bool,
}

impl Accumulator {
    /// The total so far, in seconds.
    pub closed spec fn total_seconds(&self) -> int {
        self.total@
    }

    /// Whether the total of the piped lines has been handed out.
    pub closed spec fn piped_is_out(&self) -> bool {
        self.piped
    }

    /// A total of nothing, with no piped lines seen.
    pub fn new() -> (r: Accumulator)
        ensures
            r.total_seconds() == 0,
            !r.piped_is_out(),
    {
        Accumulator { total: Duration::zero(), piped: false }
    }

    /// The total so far.
    pub fn total(&self) -> (r: Duration)
        ensures
            r@ == self.total_seconds(),
    {
        self.total
    }

    /// Reads a line and adds what it is worth. A line that cannot be read
    /// leaves the total as it was.
    pub fn add_line(&mut self, line: &str) -> (r: Result<(), ParseError>)
        ensures
            final(self).piped_is_out() == old(self).piped_is_out(),
            match parsed_seconds(line@) {
                Some(seconds) => r is Ok && final(self).total_seconds() == saturated_sum(
                    old(self).total_seconds(),
                    seconds,
                ),
                None => r matches Err(ParseError::InvalidExpression(text)) && text@ == line@
                    && final(self).total_seconds() == old(self).total_seconds(),
            },
    {
        match Duration::from_str(line) {
            Ok(duration) => {
                self.total = self.total.saturated_add(&duration);
                Ok(())
            },
            Err(error) => Err(error),
        }
    }

    /// The total of the piped lines, to be written out once they are all in.
    pub fn piped_total(&mut self) -> (r: Duration)
        ensures
            r@ == old(self).total_seconds(),
            final(self).total_seconds() == old(self).total_seconds(),
            final(self).piped_is_out(),
    {
        self.piped = true;
        self.total
    }

    /// Reads the arguments as one line and adds what they are worth. The
    /// grand total is to be written out, unless the arguments are worth
    /// nothing and the total of the piped lines is out already: then there is
    /// `None`.
    pub fn grand_total(&mut self, arguments: &str) -> (r: Result<Option<Duration>, ParseError>)
        ensures
            final(self).piped_is_out() == old(self).piped_is_out(),
            match parsed_seconds(arguments@) {
                Some(seconds) => if seconds != 0 || !old(self).piped_is_out() {
                    &&& final(self).total_seconds() == saturated_sum(
                        old(self).total_seconds(),
                        seconds,
                    )
                    &&& r matches Ok(Some(total)) && total@ == final(self).total_seconds()
                } else {
                    &&& final(self).total_seconds() == old(self).total_seconds()
                    &&& r matches Ok(None)
                },
                None => r matches Err(ParseError::InvalidExpression(text)) && text@ == arguments@
                    && final(self).total_seconds() == old(self).total_seconds(),
            },
    {
        match Duration::from_str(arguments) {
            Ok(duration) => {
                if duration.num_seconds() != 0 || !self.piped {
                    self.total = self.total.saturated_add(&duration);
                    Ok(Some(self.total))
                } else {
                    Ok(None)
                }
            },
            Err(error) => Err(error),
        }
    }
}

} // verus!
