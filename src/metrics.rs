//! The whole report: every section located and read into one record.
use vstd::prelude::*;
use crate::decimal::{
    Decimal, Numeral, lemma_shift_up_value, lemma_times_digit_value, numeral_wf,
    numerator, parse_decimal, parse_numeral, parse_u32, parse_u64, pow10, shift_up,
    times_digit_numeral, u32_of, u64_of, zero_numeral,
};
use crate::number::{Real, RealView, parse_real_exec, real_or_zero, zero_real};
use crate::distribution::{LatencyDistribution, entries_map};
use crate::latency::{Latency, latency_of};
use crate::percentile::{PercentileSpectrum, SpectrumView, spectrum_of};
use crate::request_sec::{RequestSec, request_sec_of};
use crate::text::{
    chars_of, contains, contains_seq, copy_range, find_containing, find_prefixed,
    first_containing, first_prefixed, lemma_first_containing_bounds, lemma_first_prefixed_bounds,
    report_lines, split_lines, split_tokens, string_of, strip_trailing, strip_trailing_len, tokens,
    trim, trim_range, views,
};
use crate::units::{
    duration_ms, duration_of, numeric_chars, partition_numeric, unit_chars, unit_equals, unit_is,
};

verus! {

/// The first index from `from` on at which `l` holds `c`.
pub open spec fn first_char(l: Seq<char>, c: char, from: int) -> Option<int>
    decreases l.len() - from,
{
    if from < 0 || from >= l.len() {
        None
    } else if l[from] == c {
        Some(from)
    } else {
        first_char(l, c, from + 1)
    }
}

/// The text after the first `@` of a `Running ... @ <url>` line, trimmed.
pub open spec fn endpoint_of(line: Seq<char>) -> Seq<char> {
    match first_char(line, '@', 0) {
        Some(i) => trim(line.subrange(i + 1, line.len() as int)),
        None => Seq::empty(),
    }
}

/// Threads and connections of a `<t> threads and <c> connections` line:
/// its first and fourth tokens, or both zero where either is missing or is
/// not a `u32`.
pub open spec fn threads_of(line: Seq<char>) -> (u32, u32) {
    let t = tokens(line);
    if t.len() >= 4 && u32_of(t[0]) is Some && u32_of(t[3]) is Some {
        (u32_of(t[0])->0, u32_of(t[3])->0)
    } else {
        (0, 0)
    }
}

/// A duration in seconds with a unit letter: `h` scales by 3600, `m` by 60,
/// any other unit or none leaves the number in seconds.
pub open spec fn seconds_of(m: Numeral, unit: Seq<char>) -> Numeral {
    if unit_is(unit, seq!['h']) {
        shift_up(times_digit_numeral(times_digit_numeral(m, 6), 6), 2)
    } else if unit_is(unit, seq!['m']) {
        shift_up(times_digit_numeral(m, 6), 1)
    } else {
        m
    }
}

/// The total requests and the duration of `<n> requests in <d>, <size> read`:
/// the first token as a `u64` and the fourth, without trailing commas, as a
/// duration; `None` where either cannot be read.
pub open spec fn requests_line_of(line: Seq<char>) -> Option<(u64, Numeral)> {
    let t = tokens(line);
    if t.len() < 4 || u64_of(t[0]) is None {
        None
    } else {
        let d = strip_trailing(t[3], ',');
        match parse_numeral(numeric_chars(d)) {
            None => None,
            Some(m) => Some((u64_of(t[0])->0, seconds_of(m, trim(unit_chars(d))))),
        }
    }
}

/// A line of the simple distribution block that gives an entry: one that
/// holds `%` and has two tokens at least, the first the label and the second
/// a duration.
pub open spec fn distribution_entry(line: Seq<char>) -> Option<(Seq<char>, Numeral)> {
    let t = tokens(line);
    if contains(line, seq!['%']) && t.len() >= 2 {
        Some((t[0], duration_ms(t[1])))
    } else {
        None
    }
}

/// The entries of the lines `from..to`, in order.
pub open spec fn distribution_entries(lines: Seq<Seq<char>>, from: int, to: int) -> Seq<
    (Seq<char>, Numeral),
>
    decreases to - from,
{
    if to <= from {
        Seq::empty()
    } else {
        let before = distribution_entries(lines, from, to - 1);
        match distribution_entry(lines[to - 1]) {
            Some(e) => before.push(e),
            None => before,
        }
    }
}

/// The first index from `from` on whose line is empty; the number of lines
/// where there is none.
pub open spec fn block_end(lines: Seq<Seq<char>>, from: int) -> int
    decreases lines.len() - from,
{
    if from >= lines.len() {
        lines.len() as int
    } else if lines[from].len() == 0 {
        from
    } else {
        block_end(lines, from + 1)
    }
}

/// The distribution of a report's lines: the entries of the lines after the
/// first one that contains `Latency Distribution`, up to the first empty
/// line; empty without such a line.
pub open spec fn distribution_of(lines: Seq<Seq<char>>) -> Map<Seq<char>, Numeral> {
    match first_containing(lines, "Latency Distribution"@, 0, lines.len() as int) {
        Some(i) => entries_map(distribution_entries(lines, i + 1, block_end(lines, i + 1))),
        None => Map::empty(),
    }
}

/// The second token of the line that `found` points at; `None` where there
/// is none.
pub open spec fn second_token(lines: Seq<Seq<char>>, found: Option<int>) -> Option<Seq<char>> {
    match found {
        Some(i) => if tokens(lines[i]).len() >= 2 {
            Some(tokens(lines[i])[1])
        } else {
            None
        },
        None => None,
    }
}

/// Everything that a report says.
#[derive(Clone, Debug, PartialEq, Eq)]
pub struct WrkMetrics {
    pub endpoint: String,
    pub threads: u32,
    pub connections: u32,
    pub latency: Latency,
    pub latency_distribution: LatencyDistribution,
    pub percentile_spectrum: PercentileSpectrum,
    pub req: RequestSec,
    pub total_requests: u64,
    /// The length of the test, in seconds.
    pub duration: Decimal,
    pub requests_per_sec: Real,
    /// The transfer rate as the report writes it (`"656.56KB"`).
    pub transfer_per_sec: String,
}

pub struct MetricsView {
    pub endpoint: Seq<char>,
    pub threads: u32,
    pub connections: u32,
    pub latency: (Numeral, Numeral, Numeral, Numeral),
    pub latency_distribution: Map<Seq<char>, Numeral>,
    pub percentile_spectrum: SpectrumView,
    pub req: (Numeral, Numeral, Numeral, Numeral),
    pub total_requests: u64,
    pub duration: Numeral,
    pub requests_per_sec: RealView,
    pub transfer_per_sec: Seq<char>,
}

impl View for WrkMetrics {
    type V = MetricsView;

    open spec fn view(&self) -> MetricsView {
        MetricsView {
            endpoint: self.endpoint@,
            threads: self.threads,
            connections: self.connections,
            latency: self.latency@,
            latency_distribution: self.latency_distribution@,
            percentile_spectrum: self.percentile_spectrum@,
            req: self.req@,
            total_requests: self.total_requests,
            duration: self.duration@,
            requests_per_sec: self.requests_per_sec@,
            transfer_per_sec: self.transfer_per_sec@,
        }
    }
}

/// The record of a report's trimmed, non-empty lines. Each field comes from
/// the first line that its marker picks, and is zero or empty without one.
pub open spec fn metrics_of_lines(lines: Seq<Seq<char>>) -> MetricsView {
    let n = lines.len() as int;
    let zero4 = (zero_numeral(), zero_numeral(), zero_numeral(), zero_numeral());
    let tc = match first_containing(lines, "threads and"@, 0, n) {
        Some(i) => threads_of(lines[i]),
        None => (0u32, 0u32),
    };
    let rq = match first_containing(lines, "requests in"@, 0, n) {
        Some(i) => match requests_line_of(lines[i]) {
            Some(p) => p,
            None => (0u64, zero_numeral()),
        },
        None => (0u64, zero_numeral()),
    };
    MetricsView {
        endpoint: match first_prefixed(lines, "Running"@, 0, n) {
            Some(i) => endpoint_of(lines[i]),
            None => Seq::empty(),
        },
        threads: tc.0,
        connections: tc.1,
        latency: match first_prefixed(lines, "Latency"@, 0, n) {
            Some(i) => latency_of(lines[i]),
            None => zero4,
        },
        latency_distribution: distribution_of(lines),
        percentile_spectrum: spectrum_of(lines),
        req: match first_prefixed(lines, "Req/Sec"@, 0, n) {
            Some(i) => request_sec_of(lines[i]),
            None => zero4,
        },
        total_requests: rq.0,
        duration: rq.1,
        requests_per_sec: match second_token(lines, first_containing(lines, "Requests/sec:"@, 0, n)) {
            Some(t) => real_or_zero(t),
            None => zero_real(),
        },
        transfer_per_sec: match second_token(lines, first_containing(lines, "Transfer/sec:"@, 0, n)) {
            Some(t) => t,
            None => Seq::empty(),
        },
    }
}

/// The record of a report.
pub open spec fn metrics_of(output: Seq<char>) -> MetricsView {
    metrics_of_lines(report_lines(output))
}

pub proof fn lemma_first_char_bounds(l: Seq<char>, c: char, from: int)
    ensures
        match first_char(l, c, from) {
            Some(i) => from <= i < l.len() && l[i] == c,
            None => true,
        },
    decreases l.len() - from,
{
    if 0 <= from < l.len() && l[from] != c {
        lemma_first_char_bounds(l, c, from + 1);
    }
}

/// Parsing depends on the text alone: two records read from the same text
/// are equal, field by field.
pub proof fn lemma_parse_deterministic(output: Seq<char>, a: WrkMetrics, b: WrkMetrics)
    requires
        a@ == metrics_of(output),
        b@ == metrics_of(output),
    ensures
        a@ == b@,
{
}

/// The scale that a duration unit gives: 3600 for `h`, 60 for `m`, 1 for
/// any other.
pub open spec fn unit_seconds(unit: Seq<char>) -> nat {
    if unit_is(unit, seq!['h']) {
        3600
    } else if unit_is(unit, seq!['m']) {
        60
    } else {
        1
    }
}

/// A duration read with its unit is the number times that unit's seconds
/// (the two fractions cross-multiplied).
pub proof fn lemma_seconds_value(m: Numeral, unit: Seq<char>)
    requires
        numeral_wf(m),
    ensures
        numerator(seconds_of(m, unit)) * pow10(m.1.len()) == numerator(m) * unit_seconds(unit)
            * pow10(seconds_of(m, unit).1.len()),
{
    let n = numerator(m);
    let f = m.1.len();
    if unit_is(unit, seq!['h']) {
        let a = times_digit_numeral(m, 6);
        lemma_times_digit_value(m, 6);
        let b = times_digit_numeral(a, 6);
        lemma_times_digit_value(a, 6);
        lemma_shift_up_value(b, 2);
        let r = shift_up(b, 2);
        assert(pow10(2) == 100) by {
            assert(pow10(0) == 1);
            assert(pow10(1) == 10);
        }
        assert(numerator(b) == n * 36) by (nonlinear_arith)
            requires
                numerator(b) == numerator(a) * 6,
                numerator(a) == n * 6,
        ;
        assert(numerator(r) * pow10(f) == n * 3600 * pow10(r.1.len())) by (nonlinear_arith)
            requires
                numerator(r) * pow10(f) == numerator(b) * 100 * pow10(r.1.len()),
                numerator(b) == n * 36,
        ;
    } else if unit_is(unit, seq!['m']) {
        let a = times_digit_numeral(m, 6);
        lemma_times_digit_value(m, 6);
        lemma_shift_up_value(a, 1);
        let r = shift_up(a, 1);
        assert(pow10(1) == 10) by {
            assert(pow10(0) == 1);
        }
        assert(numerator(r) * pow10(f) == n * 60 * pow10(r.1.len())) by (nonlinear_arith)
            requires
                numerator(r) * pow10(f) == numerator(a) * 10 * pow10(r.1.len()),
                numerator(a) == n * 6,
        ;
    } else {
        assert(n * 1 * pow10(f) == n * pow10(f)) by (nonlinear_arith);
    }
}

fn find_char(l: &Vec<char>, c: char) -> (r: Option<usize>)
    ensures
        r == (match first_char(l@, c, 0) {
            Some(i) => Some(i as usize),
            None => None::<usize>,
        }),
        match r {
            Some(i) => i < l@.len(),
            None => true,
        },
{
    let mut i: usize = 0;
    while i < l.len()
        invariant
            i <= l@.len(),
            first_char(l@, c, 0) == first_char(l@, c, i as int),
        decreases l@.len() - i,
    {
        if l[i] == c {
            return Some(i);
        }
        i = i + 1;
    }
    None
}

fn empty_string() -> (r: String)
    ensures
        r@ == Seq::<char>::empty(),
{
    let v: Vec<char> = Vec::new();
    string_of(v.as_slice())
}

/// The endpoint of a `Running` line.
pub fn parse_endpoint(line: &Vec<char>) -> (r: String)
    ensures
        r@ == endpoint_of(line@),
{
    let n = line.len();
    proof {
        lemma_first_char_bounds(line@, '@', 0);
    }
    match find_char(line, '@') {
        Some(i) => {
            let (a, b) = trim_range(line, i + 1, n);
            let t = copy_range(line, a, b);
            string_of(t.as_slice())
        },
        None => empty_string(),
    }
}

/// Threads and connections of a `threads and` line.
pub fn parse_threads(line: &Vec<char>) -> (r: (u32, u32))
    ensures
        r == threads_of(line@),
{
    let t = split_tokens(line);
    if t.len() < 4 {
        return (0, 0);
    }
    assert(t[0]@.subrange(0, t[0]@.len() as int) =~= t[0]@);
    assert(t[3]@.subrange(0, t[3]@.len() as int) =~= t[3]@);
    assert(views(t@)[0] == t@[0]@ && views(t@)[3] == t@[3]@);
    match (parse_u32(&t[0], 0, t[0].len()), parse_u32(&t[3], 0, t[3].len())) {
        (Some(a), Some(b)) => (a, b),
        _ => (0, 0),
    }
}

/// Parses the line with the total requests and the duration, in seconds.
pub fn parse_requests_line(line: &Vec<char>) -> (r: Option<(u64, Decimal)>)
    ensures
        match r {
            Some(p) => requests_line_of(line@) == Some((p.0, p.1@)) && p.1.wf(),
            None => requests_line_of(line@) is None,
        },
{
    let t = split_tokens(line);
    if t.len() < 4 {
        return None;
    }
    assert(t[0]@.subrange(0, t[0]@.len() as int) =~= t[0]@);
    assert(views(t@)[0] == t@[0]@ && views(t@)[3] == t@[3]@);
    let requests = match parse_u64(&t[0], 0, t[0].len()) {
        Some(n) => n,
        None => return None,
    };
    let n = strip_trailing_len(&t[3], ',');
    let (num, unit) = partition_numeric(&t[3], 0, n);
    assert(num@.subrange(0, num@.len() as int) =~= num@);
    assert(unit@.subrange(0, unit@.len() as int) =~= unit@);
    let m = match parse_decimal(&num, 0, num.len()) {
        Some(d) => d,
        None => return None,
    };
    let (a, b) = trim_range(&unit, 0, unit.len());
    let seconds = if unit_equals(&unit, a, b, &['h']) {
        m.times_digit(6).times_digit(6).shifted_up(2)
    } else if unit_equals(&unit, a, b, &['m']) {
        m.times_digit(6).shifted_up(1)
    } else {
        m
    };
    Some((requests, seconds))
}

/// The entries of the simple distribution block of `lines`, which ends at
/// the first empty line.
pub fn parse_latency_distribution(lines: &Vec<Vec<char>>) -> (r: LatencyDistribution)
    ensures
        r@ == distribution_of(views(lines@)),
        r.wf(),
{
    let ghost ls = views(lines@);
    let n = lines.len();
    let mut dist = LatencyDistribution::new();
    let start = match find_containing(lines, &chars_of("Latency Distribution"), 0, n) {
        Some(i) => i + 1,
        None => {
            proof {
                lemma_first_containing_bounds(ls, "Latency Distribution"@, 0, n as int);
            }
            return dist;
        },
    };
    proof {
        lemma_first_containing_bounds(ls, "Latency Distribution"@, 0, n as int);
    }
    let percent = chars_of("%");
    proof {
        reveal_strlit("%");
        assert(percent@ =~= seq!['%']);
    }
    let mut i = start;
    while i < n && lines[i].len() > 0
        invariant
            start <= i <= n == lines@.len(),
            ls == views(lines@),
            block_end(ls, start as int) == block_end(ls, i as int),
            percent@ == seq!['%'],
            dist.wf(),
            dist@ == entries_map(distribution_entries(ls, start as int, i as int)),
        decreases n - i,
    {
        assert(ls[i as int] == lines@[i as int]@);
        if contains_seq(&lines[i], &percent) {
            let t = split_tokens(&lines[i]);
            if t.len() >= 2 {
                assert(views(t@)[0] == t@[0]@ && views(t@)[1] == t@[1]@);
                let label = string_of(t[0].as_slice());
                let latency = duration_of(&t[1]);
                let ghost before = distribution_entries(ls, start as int, i as int);
                let ghost e = (label@, latency@);
                assert(distribution_entry(ls[i as int]) == Some(e));
                assert(distribution_entries(ls, start as int, i + 1) == before.push(e));
                assert(before.push(e).drop_last() =~= before);
                dist.insert(label, latency);
            }
        }
        i = i + 1;
    }
    dist
}

/// The second token of the line at `found`, if any.
fn second_token_exec(lines: &Vec<Vec<char>>, found: Option<usize>) -> (r: Option<Vec<char>>)
    requires
        match found {
            Some(i) => i < lines@.len(),
            None => true,
        },
    ensures
        match r {
            Some(t) => second_token(
                views(lines@),
                match found {
                    Some(i) => Some(i as int),
                    None => None,
                },
            ) == Some(t@),
            None => second_token(
                views(lines@),
                match found {
                    Some(i) => Some(i as int),
                    None => None,
                },
            ) is None,
        },
{
    match found {
        Some(i) => {
            assert(views(lines@)[i as int] == lines@[i as int]@);
            let mut t = split_tokens(&lines[i]);
            if t.len() >= 2 {
                assert(views(t@)[1] == t@[1]@);
                Some(t.swap_remove(1))
            } else {
                None
            }
        },
        None => None,
    }
}

impl WrkMetrics {
    /// Reads the record from a report's trimmed, non-empty lines.
    pub fn from_lines(lines: &Vec<Vec<char>>) -> (r: WrkMetrics)
        ensures
            r@ == metrics_of_lines(views(lines@)),
    {
        let ghost ls = views(lines@);
        let n = lines.len();
        let running = find_prefixed(lines, &chars_of("Running"), 0, n);
        let endpoint = match running {
            Some(i) => {
                assert(ls[i as int] == lines@[i as int]@);
                parse_endpoint(&lines[i])
            },
            None => empty_string(),
        };
        let threads_line = find_containing(lines, &chars_of("threads and"), 0, n);
        let (threads, connections) = match threads_line {
            Some(i) => {
                assert(ls[i as int] == lines@[i as int]@);
                parse_threads(&lines[i])
            },
            None => (0, 0),
        };
        let latency_line = find_prefixed(lines, &chars_of("Latency"), 0, n);
        let latency = match latency_line {
            Some(i) => {
                assert(ls[i as int] == lines@[i as int]@);
                Latency::from_chars(&lines[i])
            },
            None => Latency::zero(),
        };
        let req_line = find_prefixed(lines, &chars_of("Req/Sec"), 0, n);
        let req = match req_line {
            Some(i) => {
                assert(ls[i as int] == lines@[i as int]@);
                RequestSec::from_chars(&lines[i])
            },
            None => RequestSec::zero(),
        };
        let requests_line = find_containing(lines, &chars_of("requests in"), 0, n);
        let (total_requests, duration) = match requests_line {
            Some(i) => {
                assert(ls[i as int] == lines@[i as int]@);
                match parse_requests_line(&lines[i]) {
                    Some(p) => p,
                    None => (0, Decimal::zero()),
                }
            },
            None => (0, Decimal::zero()),
        };
        let rps_line = find_containing(lines, &chars_of("Requests/sec:"), 0, n);
        let requests_per_sec = match second_token_exec(lines, rps_line) {
            Some(t) => {
                assert(t@.subrange(0, t@.len() as int) =~= t@);
                match parse_real_exec(&t, 0, t.len()) {
                    Some(d) => d,
                    None => Real::zero(),
                }
            },
            None => Real::zero(),
        };
        let transfer_line = find_containing(lines, &chars_of("Transfer/sec:"), 0, n);
        let transfer_per_sec = match second_token_exec(lines, transfer_line) {
            Some(t) => string_of(t.as_slice()),
            None => empty_string(),
        };
        let latency_distribution = parse_latency_distribution(lines);
        let percentile_spectrum = PercentileSpectrum::from_lines(lines);
        proof {
            lemma_first_prefixed_bounds(ls, "Running"@, 0, n as int);
            lemma_first_containing_bounds(ls, "threads and"@, 0, n as int);
            lemma_first_prefixed_bounds(ls, "Latency"@, 0, n as int);
            lemma_first_prefixed_bounds(ls, "Req/Sec"@, 0, n as int);
            lemma_first_containing_bounds(ls, "requests in"@, 0, n as int);
            lemma_first_containing_bounds(ls, "Requests/sec:"@, 0, n as int);
            lemma_first_containing_bounds(ls, "Transfer/sec:"@, 0, n as int);
        }
        let r = WrkMetrics {
            endpoint,
            threads,
            connections,
            latency,
            latency_distribution,
            percentile_spectrum,
            req,
            total_requests,
            duration,
            requests_per_sec,
            transfer_per_sec,
        };
        let ghost want = metrics_of_lines(ls);
        assert(r@.endpoint == want.endpoint);
        assert(r@.threads == want.threads && r@.connections == want.connections);
        assert(r@.latency == want.latency);
        assert(r@.req == want.req);
        assert(r@.total_requests == want.total_requests && r@.duration == want.duration);
        assert(r@.requests_per_sec == want.requests_per_sec);
        assert(r@.transfer_per_sec == want.transfer_per_sec);
        r
    }

    /// Reads the record from a report. Never fails: what cannot be found or
    /// read is zero or empty.
    pub fn from(output: &str) -> (r: WrkMetrics)
        ensures
            r@ == metrics_of(output@),
    {
        WrkMetrics::from_lines(&split_lines(&chars_of(output)))
    }
}

} // verus!
