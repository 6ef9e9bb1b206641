//! The HdrHistogram "Detailed Percentile spectrum" block of a wrk2 report.
use vstd::prelude::*;
use crate::decimal::{parse_u32, parse_u64, u32_of, u64_of};
use crate::number::{Real, RealView, parse_real, parse_real_exec, real_or_zero, zero_real};
use crate::text::{
    chars_of, find_containing, find_prefixed, first_containing, first_prefixed, report_lines,
    lemma_first_containing_bounds, lemma_first_prefixed_bounds, split_lines, split_tokens, strip_trailing, strip_trailing_len,
    tokens, views,
};

verus! {

/// One row of the spectrum.
#[derive(Clone, Debug, PartialEq, Eq)]
pub struct PercentileBucket {
    /// The latency, in milliseconds.
    pub value: Real,
    /// The share of samples at or below `value`, in `[0, 1]`.
    pub percentile: Real,
    /// The number of samples at or below `value`.
    pub total_count: u64,
    /// `1/(1-percentile)`, infinite at the last row.
    pub inverse_percentile: Real,
}

pub type BucketView = (RealView, RealView, u64, RealView);

impl View for PercentileBucket {
    type V = BucketView;

    open spec fn view(&self) -> BucketView {
        (self.value@, self.percentile@, self.total_count, self.inverse_percentile@)
    }
}

/// Why a row is not a bucket.
#[derive(Clone, Copy, Debug, PartialEq, Eq)]
pub enum BucketError {
    MissingColumn,
    InvalidValue,
    InvalidPercentile,
    InvalidTotalCount,
    InvalidInversePercentile,
}

/// A row `Value Percentile TotalCount 1/(1-Percentile)` read as a bucket:
/// the count as a `u64`, the other columns as numbers in any form that `f64`
/// parsing reads (`inf` among them); the first column that cannot be read
/// gives the error.
pub open spec fn bucket_of(line: Seq<char>) -> Result<BucketView, BucketError> {
    let t = tokens(line);
    if t.len() < 4 {
        Err(BucketError::MissingColumn)
    } else if parse_real(t[0]) is None {
        Err(BucketError::InvalidValue)
    } else if parse_real(t[1]) is None {
        Err(BucketError::InvalidPercentile)
    } else if u64_of(t[2]) is None {
        Err(BucketError::InvalidTotalCount)
    } else if parse_real(t[3]) is None {
        Err(BucketError::InvalidInversePercentile)
    } else {
        Ok((parse_real(t[0])->0, parse_real(t[1])->0, u64_of(t[2])->0, parse_real(t[3])->0))
    }
}

/// The buckets of the rows `from..to`, in order; rows that are not buckets
/// are left out.
pub open spec fn bucket_rows(lines: Seq<Seq<char>>, from: int, to: int) -> Seq<BucketView>
    decreases to - from,
{
    if to <= from {
        Seq::empty()
    } else {
        let before = bucket_rows(lines, from, to - 1);
        match bucket_of(lines[to - 1]) {
            Ok(b) => before.push(b),
            Err(_) => before,
        }
    }
}

/// The token `i` of a summary line without trailing `c`, read as a number;
/// zero where there is none.
pub open spec fn summary_number(t: Seq<Seq<char>>, i: int, c: char) -> RealView {
    if i < t.len() {
        real_or_zero(strip_trailing(t[i], c))
    } else {
        zero_real()
    }
}

pub open spec fn summary_u64(t: Seq<Seq<char>>, i: int, c: char) -> u64 {
    if i < t.len() && u64_of(strip_trailing(t[i], c)) is Some {
        u64_of(strip_trailing(t[i], c))->0
    } else {
        0
    }
}

pub open spec fn summary_u32(t: Seq<Seq<char>>, i: int, c: char) -> u32 {
    if i < t.len() && u32_of(strip_trailing(t[i], c)) is Some {
        u32_of(strip_trailing(t[i], c))->0
    } else {
        0
    }
}

/// The tokens of the line that `found` points at; none where it points at
/// none.
pub open spec fn tokens_at(lines: Seq<Seq<char>>, found: Option<int>) -> Seq<Seq<char>> {
    match found {
        Some(i) => tokens(lines[i]),
        None => Seq::empty(),
    }
}

/// The aggregate figures and the buckets of the spectrum.
#[derive(Clone, Debug, PartialEq, Eq)]
pub struct PercentileSpectrum {
    pub mean: Real,
    pub std_deviation: Real,
    pub max: Real,
    pub total_count: u64,
    pub buckets: u32,
    pub sub_buckets: u32,
    pub percentiles: Vec<PercentileBucket>,
}

pub struct SpectrumView {
    pub mean: RealView,
    pub std_deviation: RealView,
    pub max: RealView,
    pub total_count: u64,
    pub buckets: u32,
    pub sub_buckets: u32,
    pub percentiles: Seq<BucketView>,
}

impl View for PercentileSpectrum {
    type V = SpectrumView;

    open spec fn view(&self) -> SpectrumView {
        SpectrumView {
            mean: self.mean@,
            std_deviation: self.std_deviation@,
            max: self.max@,
            total_count: self.total_count,
            buckets: self.buckets,
            sub_buckets: self.sub_buckets,
            percentiles: Seq::new(self.percentiles@.len(), |i: int| self.percentiles@[i]@),
        }
    }
}

pub open spec fn empty_spectrum() -> SpectrumView {
    SpectrumView {
        mean: zero_real(),
        std_deviation: zero_real(),
        max: zero_real(),
        total_count: 0,
        buckets: 0,
        sub_buckets: 0,
        percentiles: Seq::empty(),
    }
}

/// The spectrum of a report's lines. Absent its marker line, the empty
/// spectrum. Otherwise the summary lines `#[Mean`, `#[Max` and `#[Buckets`
/// are looked for from the marker up to the next line that begins with
/// `Latency`, and the bucket rows run from the second line after the marker
/// up to the first line that begins with `#[`.
pub open spec fn spectrum_of(lines: Seq<Seq<char>>) -> SpectrumView {
    match first_containing(lines, "Detailed Percentile spectrum"@, 0, lines.len() as int) {
        None => empty_spectrum(),
        Some(m) => {
            let stop = match first_prefixed(lines, "Latency"@, m + 1, lines.len() as int) {
                Some(i) => i,
                None => lines.len() as int,
            };
            let mean = tokens_at(lines, first_prefixed(lines, "#[Mean"@, m + 1, stop));
            let max = tokens_at(lines, first_prefixed(lines, "#[Max"@, m + 1, stop));
            let buckets = tokens_at(lines, first_prefixed(lines, "#[Buckets"@, m + 1, stop));
            let start = if m + 2 <= lines.len() { m + 2 } else { lines.len() as int };
            let end = match first_prefixed(lines, "#["@, start, lines.len() as int) {
                Some(i) => i,
                None => lines.len() as int,
            };
            SpectrumView {
                mean: summary_number(mean, 2, ','),
                std_deviation: summary_number(mean, 5, ']'),
                max: summary_number(max, 2, ','),
                total_count: summary_u64(max, 6, ']'),
                buckets: summary_u32(buckets, 2, ','),
                sub_buckets: summary_u32(buckets, 5, ']'),
                percentiles: bucket_rows(lines, start, end),
            }
        },
    }
}

impl PercentileBucket {
    /// Reads a bucket from the characters of a spectrum row.
    pub fn from_chars(line: &Vec<char>) -> (r: Result<PercentileBucket, BucketError>)
        ensures
            match r {
                Ok(b) => bucket_of(line@) == Ok::<BucketView, BucketError>(b@) && b.wf(),
                Err(e) => bucket_of(line@) == Err::<BucketView, BucketError>(e),
            },
    {
        let t = split_tokens(line);
        if t.len() < 4 {
            return Err(BucketError::MissingColumn);
        }
        proof {
            assert(t@[0]@ == tokens(line@)[0]);
            assert(t@[1]@ == tokens(line@)[1]);
            assert(t@[2]@ == tokens(line@)[2]);
            assert(t@[3]@ == tokens(line@)[3]);
            assert(t[0]@.subrange(0, t[0]@.len() as int) =~= t[0]@);
            assert(t[1]@.subrange(0, t[1]@.len() as int) =~= t[1]@);
            assert(t[2]@.subrange(0, t[2]@.len() as int) =~= t[2]@);
            assert(t[3]@.subrange(0, t[3]@.len() as int) =~= t[3]@);
        }
        let value = match parse_real_exec(&t[0], 0, t[0].len()) {
            Some(d) => d,
            None => return Err(BucketError::InvalidValue),
        };
        let percentile = match parse_real_exec(&t[1], 0, t[1].len()) {
            Some(d) => d,
            None => return Err(BucketError::InvalidPercentile),
        };
        let total_count = match parse_u64(&t[2], 0, t[2].len()) {
            Some(n) => n,
            None => return Err(BucketError::InvalidTotalCount),
        };
        let inverse_percentile = match parse_real_exec(&t[3], 0, t[3].len()) {
            Some(d) => d,
            None => return Err(BucketError::InvalidInversePercentile),
        };
        Ok(PercentileBucket { value, percentile, total_count, inverse_percentile })
    }

    /// Reads a bucket from a spectrum row such as `6.671 0.500000 19783 2.00`.
    pub fn try_from(line: &str) -> (r: Result<PercentileBucket, BucketError>)
        ensures
            match r {
                Ok(b) => bucket_of(line@) == Ok::<BucketView, BucketError>(b@) && b.wf(),
                Err(e) => bucket_of(line@) == Err::<BucketView, BucketError>(e),
            },
    {
        PercentileBucket::from_chars(&chars_of(line))
    }

    pub open spec fn wf(&self) -> bool {
        self.value.wf() && self.percentile.wf() && self.inverse_percentile.wf()
    }
}

/// Token `i` of `t` without trailing `c`, read as a number; zero where there
/// is none.
fn summary_number_exec(t: &Vec<Vec<char>>, i: usize, c: char) -> (r: Real)
    ensures
        r@ == summary_number(views(t@), i as int, c),
        r.wf(),
{
    if i >= t.len() {
        return Real::zero();
    }
    assert(views(t@)[i as int] == t@[i as int]@);
    let n = strip_trailing_len(&t[i], c);
    match parse_real_exec(&t[i], 0, n) {
        Some(d) => d,
        None => Real::zero(),
    }
}

fn summary_u64_exec(t: &Vec<Vec<char>>, i: usize, c: char) -> (r: u64)
    ensures
        r == summary_u64(views(t@), i as int, c),
{
    if i >= t.len() {
        return 0;
    }
    assert(views(t@)[i as int] == t@[i as int]@);
    let n = strip_trailing_len(&t[i], c);
    match parse_u64(&t[i], 0, n) {
        Some(v) => v,
        None => 0,
    }
}

fn summary_u32_exec(t: &Vec<Vec<char>>, i: usize, c: char) -> (r: u32)
    ensures
        r == summary_u32(views(t@), i as int, c),
{
    if i >= t.len() {
        return 0;
    }
    assert(views(t@)[i as int] == t@[i as int]@);
    let n = strip_trailing_len(&t[i], c);
    match parse_u32(&t[i], 0, n) {
        Some(v) => v,
        None => 0,
    }
}

/// The tokens of the line that `found` points at.
fn tokens_at_exec(lines: &Vec<Vec<char>>, found: Option<usize>) -> (r: Vec<Vec<char>>)
    requires
        match found {
            Some(i) => i < lines@.len(),
            None => true,
        },
    ensures
        views(r@) == tokens_at(
            views(lines@),
            match found {
                Some(i) => Some(i as int),
                None => None,
            },
        ),
{
    match found {
        Some(i) => {
            assert(views(lines@)[i as int] == lines@[i as int]@);
            split_tokens(&lines[i])
        },
        None => {
            let r: Vec<Vec<char>> = Vec::new();
            assert(views(r@) =~= Seq::<Seq<char>>::empty());
            r
        },
    }
}

impl PercentileSpectrum {
    pub open spec fn wf(&self) -> bool {
        &&& self.mean.wf()
        &&& self.std_deviation.wf()
        &&& self.max.wf()
        &&& forall|i: int| 0 <= i < self.percentiles@.len() ==> (#[trigger] self.percentiles@[i]).wf()
    }

    /// The empty spectrum: zero figures and no buckets.
    pub fn empty() -> (r: PercentileSpectrum)
        ensures
            r@ == empty_spectrum(),
            r.wf(),
    {
        let r = PercentileSpectrum {
            mean: Real::zero(),
            std_deviation: Real::zero(),
            max: Real::zero(),
            total_count: 0,
            buckets: 0,
            sub_buckets: 0,
            percentiles: Vec::new(),
        };
        assert(r@.percentiles =~= Seq::<BucketView>::empty());
        r
    }

    /// The spectrum of a report's trimmed, non-empty lines.
    pub fn from_lines(lines: &Vec<Vec<char>>) -> (r: PercentileSpectrum)
        ensures
            r@ == spectrum_of(views(lines@)),
            r.wf(),
    {
        let ghost ls = views(lines@);
        let n = lines.len();
        let marker = find_containing(lines, &chars_of("Detailed Percentile spectrum"), 0, n);
        let m = match marker {
            None => return PercentileSpectrum::empty(),
            Some(m) => m,
        };
        let stop = match find_prefixed(lines, &chars_of("Latency"), m + 1, n) {
            Some(i) => i,
            None => n,
        };
        let mean = tokens_at_exec(lines, find_prefixed(lines, &chars_of("#[Mean"), m + 1, stop));
        let max = tokens_at_exec(lines, find_prefixed(lines, &chars_of("#[Max"), m + 1, stop));
        let buckets = tokens_at_exec(
            lines,
            find_prefixed(lines, &chars_of("#[Buckets"), m + 1, stop),
        );
        let start = if m + 1 < n { m + 2 } else { n };
        let end = match find_prefixed(lines, &chars_of("#["), start, n) {
            Some(i) => i,
            None => n,
        };
        let mut percentiles: Vec<PercentileBucket> = Vec::new();
        let mut i = start;
        while i < end
            invariant
                start <= i <= end <= n == lines@.len(),
                ls == views(lines@),
                Seq::new(percentiles@.len(), |k: int| percentiles@[k]@) == bucket_rows(
                    ls,
                    start as int,
                    i as int,
                ),
                forall|k: int| 0 <= k < percentiles@.len() ==> (#[trigger] percentiles@[k]).wf(),
            decreases end - i,
        {
            assert(ls[i as int] == lines@[i as int]@);
            let ghost before = percentiles@;
            match PercentileBucket::from_chars(&lines[i]) {
                Ok(b) => {
                    percentiles.push(b);
                    assert(Seq::new(percentiles@.len(), |k: int| percentiles@[k]@) =~= Seq::new(
                        before.len(),
                        |k: int| before[k]@,
                    ).push(b@));
                },
                Err(_) => {},
            }
            i = i + 1;
        }
        let r = PercentileSpectrum {
            mean: summary_number_exec(&mean, 2, ','),
            std_deviation: summary_number_exec(&mean, 5, ']'),
            max: summary_number_exec(&max, 2, ','),
            total_count: summary_u64_exec(&max, 6, ']'),
            buckets: summary_u32_exec(&buckets, 2, ','),
            sub_buckets: summary_u32_exec(&buckets, 5, ']'),
            percentiles,
        };
        proof {
            lemma_first_containing_bounds(ls, "Detailed Percentile spectrum"@, 0, n as int);
            lemma_first_prefixed_bounds(ls, "Latency"@, m + 1, n as int);
            lemma_first_prefixed_bounds(ls, "#[Mean"@, m + 1, stop as int);
            lemma_first_prefixed_bounds(ls, "#[Max"@, m + 1, stop as int);
            lemma_first_prefixed_bounds(ls, "#[Buckets"@, m + 1, stop as int);
            lemma_first_prefixed_bounds(ls, "#["@, start as int, n as int);
        }
        let ghost want = spectrum_of(ls);
        assert(r@.percentiles == want.percentiles);
        assert(r@.mean == want.mean);
        assert(r@.std_deviation == want.std_deviation);
        assert(r@.max == want.max);
        assert(r@.total_count == want.total_count);
        assert(r@.buckets == want.buckets);
        assert(r@.sub_buckets == want.sub_buckets);
        r
    }

    /// The spectrum of a report.
    pub fn from(output: &str) -> (r: PercentileSpectrum)
        ensures
            r@ == spectrum_of(report_lines(output@)),
            r.wf(),
    {
        PercentileSpectrum::from_lines(&split_lines(&chars_of(output)))
    }
}

} // verus!
