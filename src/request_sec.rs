//! The `Req/Sec` line of the thread statistics.
use vstd::prelude::*;
use crate::decimal::{Decimal, Numeral, is_zero_numeral, zero_numeral};
use crate::text::{chars_of, split_tokens, tokens};
use crate::units::{count_of, count_value};

verus! {

/// Requests per second per thread, and the share of requests within one
/// standard deviation, in percent.
#[derive(Clone, Debug, PartialEq, Eq)]
pub struct RequestSec {
    pub avg: Decimal,
    pub stddev: Decimal,
    pub max: Decimal,
    pub stddev_percent: Decimal,
}

impl View for RequestSec {
    type V = (Numeral, Numeral, Numeral, Numeral);

    open spec fn view(&self) -> Self::V {
        (self.avg@, self.stddev@, self.max@, self.stddev_percent@)
    }
}

/// The statistics of a line such as `Req/Sec 56.20k 8.07k 62.00k 86.54%`:
/// the four tokens after the label, each read as a count; all zero where
/// the line has fewer.
pub open spec fn request_sec_of(line: Seq<char>) -> (Numeral, Numeral, Numeral, Numeral) {
    let t = tokens(line);
    if t.len() >= 5 {
        (count_value(t[1]), count_value(t[2]), count_value(t[3]), count_value(t[4]))
    } else {
        (zero_numeral(), zero_numeral(), zero_numeral(), zero_numeral())
    }
}

impl RequestSec {
    pub open spec fn wf(&self) -> bool {
        self.avg.wf() && self.stddev.wf() && self.max.wf() && self.stddev_percent.wf()
    }

    /// All four figures zero.
    pub fn zero() -> (r: RequestSec)
        ensures
            r@ == (zero_numeral(), zero_numeral(), zero_numeral(), zero_numeral()),
            r.wf(),
    {
        RequestSec {
            avg: Decimal::zero(),
            stddev: Decimal::zero(),
            max: Decimal::zero(),
            stddev_percent: Decimal::zero(),
        }
    }

    pub fn is_empty(&self) -> (r: bool)
        ensures
            r == (is_zero_numeral(self.avg@) && is_zero_numeral(self.stddev@) && is_zero_numeral(
                self.max@,
            ) && is_zero_numeral(self.stddev_percent@)),
    {
        self.avg.is_zero() && self.stddev.is_zero() && self.max.is_zero()
            && self.stddev_percent.is_zero()
    }

    /// Reads the statistics from the characters of a request-rate line.
    pub fn from_chars(line: &Vec<char>) -> (r: RequestSec)
        ensures
            r@ == request_sec_of(line@),
            r.wf(),
    {
        let t = split_tokens(line);
        if t.len() >= 5 {
            RequestSec {
                avg: count_of(&t[1]),
                stddev: count_of(&t[2]),
                max: count_of(&t[3]),
                stddev_percent: count_of(&t[4]),
            }
        } else {
            RequestSec::zero()
        }
    }

    /// Reads the statistics from a request-rate line.
    pub fn from(line: &str) -> (r: RequestSec)
        ensures
            r@ == request_sec_of(line@),
            r.wf(),
    {
        RequestSec::from_chars(&chars_of(line))
    }
}

} // verus!
