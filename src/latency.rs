//! The `Latency` line of the thread statistics.
use vstd::prelude::*;
use crate::decimal::{Decimal, Numeral, is_zero_numeral, zero_numeral};
use crate::text::{chars_of, split_tokens, tokens};
use crate::units::{duration_of, duration_ms};

verus! {

/// Latency statistics in milliseconds, and the share of requests within one
/// standard deviation, in percent.
#[derive(Clone, Debug, PartialEq, Eq)]
pub struct Latency {
    pub avg: Decimal,
    pub stddev: Decimal,
    pub max: Decimal,
    pub stddev_percent: Decimal,
}

impl View for Latency {
    type V = (Numeral, Numeral, Numeral, Numeral);

    open spec fn view(&self) -> Self::V {
        (self.avg@, self.stddev@, self.max@, self.stddev_percent@)
    }
}

/// The statistics of a line such as `Latency 6.60ms 1.92ms 12.50ms 68.46%`:
/// the four tokens after the label, each read as a duration; all zero where
/// the line has fewer.
pub open spec fn latency_of(line: Seq<char>) -> (Numeral, Numeral, Numeral, Numeral) {
    let t = tokens(line);
    if t.len() >= 5 {
        (duration_ms(t[1]), duration_ms(t[2]), duration_ms(t[3]), duration_ms(t[4]))
    } else {
        (zero_numeral(), zero_numeral(), zero_numeral(), zero_numeral())
    }
}

impl Latency {
    pub open spec fn wf(&self) -> bool {
        self.avg.wf() && self.stddev.wf() && self.max.wf() && self.stddev_percent.wf()
    }

    /// All four figures zero.
    pub fn zero() -> (r: Latency)
        ensures
            r@ == (zero_numeral(), zero_numeral(), zero_numeral(), zero_numeral()),
            r.wf(),
    {
        Latency {
            avg: Decimal::zero(),
            stddev: Decimal::zero(),
            max: Decimal::zero(),
            stddev_percent: Decimal::zero(),
        }
    }

    pub fn is_empty(&self) -> (r: bool)
        ensures
            r == (is_zero_numeral(self.avg@) && is_zero_numeral(self.stddev@) && is_zero_numeral(
                self.max@,
            ) && is_zero_numeral(self.stddev_percent@)),
    {
        self.avg.is_zero() && self.stddev.is_zero() && self.max.is_zero()
            && self.stddev_percent.is_zero()
    }

    /// Reads the statistics from the characters of a latency line.
    pub fn from_chars(line: &Vec<char>) -> (r: Latency)
        ensures
            r@ == latency_of(line@),
            r.wf(),
    {
        let t = split_tokens(line);
        if t.len() >= 5 {
            Latency {
                avg: duration_of(&t[1]),
                stddev: duration_of(&t[2]),
                max: duration_of(&t[3]),
                stddev_percent: duration_of(&t[4]),
            }
        } else {
            Latency::zero()
        }
    }

    /// Reads the statistics from a latency line.
    pub fn from(line: &str) -> (r: Latency)
        ensures
            r@ == latency_of(line@),
            r.wf(),
    {
        Latency::from_chars(&chars_of(line))
    }
}

} // verus!
