use wrk_report::{Decimal, Latency, Real, RealKind, RequestSec, WrkMetrics};

fn num(d: &Decimal) -> f64 {
    d.to_text().parse::<f64>().unwrap()
}

fn float_of(r: &Real) -> f64 {
    r.to_text().parse::<f64>().unwrap()
}

const FRAGMENT: &str = "Running 10s test @ http://localhost:8080
2 threads and 100 connections
Latency 125.12ms 25.31ms 450.00ms 90.12%
Req/Sec 400.12 50.23 550.00 85.45%
8000 requests in 10.00s, 6.42MB read
Requests/sec: 800.12
Transfer/sec: 656.56KB";

#[test]
fn fragment_fields() {
    let m = WrkMetrics::from(FRAGMENT);
    assert_eq!(m.endpoint, "http://localhost:8080");
    assert_eq!(m.threads, 2);
    assert_eq!(m.connections, 100);
    assert_eq!(m.latency.avg.to_text(), "125.12");
    assert_eq!(m.total_requests, 8000);
    assert_eq!(num(&m.duration), 10.0);
    assert_eq!(m.requests_per_sec.to_text(), "800.12");
    assert_eq!(m.transfer_per_sec, "656.56KB");
    assert!(m.latency_distribution.is_empty());
    assert_eq!(m.percentile_spectrum.percentiles.len(), 0);
}

#[test]
fn microsecond_latency_line() {
    let l = Latency::from("Latency 635.91us 0.89ms 12.92ms 93.69%");
    assert_eq!(l.avg.to_text(), "0.63591");
    assert_eq!(l.max.to_text(), "12.92");
    assert_eq!(l.stddev_percent.to_text(), "93.69");
    assert!(!l.is_empty());
}

#[test]
fn short_summary_lines_are_zero() {
    assert!(Latency::from("Latency 1ms 2ms 3ms").is_empty());
    assert!(RequestSec::from("Req/Sec 1k").is_empty());
    let r = RequestSec::from("Req/Sec 1.05k 265.56 5.40k 89.45%");
    assert_eq!(r.avg.to_text(), "1050");
    assert_eq!(r.max.to_text(), "5400");
    assert_eq!(r.stddev.to_text(), "265.56");
}

#[test]
fn invalid_output_is_all_default() {
    let m = WrkMetrics::from("invalid output");
    assert_eq!(m.endpoint, "");
    assert_eq!((m.threads, m.connections), (0, 0));
    assert!(m.latency.is_empty());
    assert!(m.req.is_empty());
    assert_eq!(m.total_requests, 0);
    assert!(m.duration.is_zero());
    assert_eq!(float_of(&m.requests_per_sec), 0.0);
    assert_eq!(m.transfer_per_sec, "");
    assert!(m.latency_distribution.is_empty());
    assert_eq!(m.percentile_spectrum.total_count, 0);
    assert_eq!(m.percentile_spectrum.percentiles.len(), 0);
}

#[test]
fn empty_input_is_all_default() {
    let m = WrkMetrics::from("");
    assert_eq!(m.endpoint, "");
    assert_eq!(m.total_requests, 0);
    assert!(m.latency_distribution.is_empty());
}

#[test]
fn parsing_twice_gives_equal_records() {
    let a = WrkMetrics::from(FRAGMENT);
    let b = WrkMetrics::from(FRAGMENT);
    assert_eq!(a, b);
}

#[test]
fn duration_in_minutes_and_hours() {
    let m = WrkMetrics::from("119802 requests in 1.00m, 22.05MB read");
    assert_eq!(m.total_requests, 119_802);
    assert_eq!(num(&m.duration), 60.0);
    let h = WrkMetrics::from("5 requests in 1.5h, 1MB read");
    assert_eq!(num(&h.duration), 5400.0);
    let s = WrkMetrics::from("5 requests in 30, 1MB read");
    assert_eq!(num(&s.duration), 30.0);
}

#[test]
fn unreadable_requests_line_gives_zero() {
    let m = WrkMetrics::from("many requests in 10.00s, 6.42MB read");
    assert_eq!(m.total_requests, 0);
    assert!(m.duration.is_zero());
    let n = WrkMetrics::from("8000 requests in xs, 6.42MB read");
    assert_eq!(n.total_requests, 0);
}

#[test]
fn threads_line_needs_both_numbers() {
    let m = WrkMetrics::from("two threads and 100 connections");
    assert_eq!((m.threads, m.connections), (0, 0));
    let n = WrkMetrics::from("+4 threads and 64 connections");
    assert_eq!((n.threads, n.connections), (4, 64));
}

#[test]
fn endpoint_is_everything_after_the_first_at() {
    let m = WrkMetrics::from("Running 10s test @  http://user@host:8080/x  ");
    assert_eq!(m.endpoint, "http://user@host:8080/x");
    let n = WrkMetrics::from("Running 10s test without target");
    assert_eq!(n.endpoint, "");
}

#[test]
fn distribution_later_label_wins() {
    let m = WrkMetrics::from("Latency Distribution\n50% 1ms\n50% 2s\n90% 3us\nno percent here\n");
    let d = &m.latency_distribution;
    assert_eq!(d.entries().len(), 2);
    assert_eq!(d.get("50%").unwrap().to_text(), "2000");
    assert_eq!(d.get("90%").unwrap().to_text(), "0.003");
    assert!(d.get("99%").is_none());
}

#[test]
fn detailed_spectrum_in_report() {
    let report = "Running 1m test @ http://127.0.0.1:8080/sys/ping
  Detailed Percentile spectrum:
       Value   Percentile   TotalCount 1/(1-Percentile)

       1.060     0.400000        39813         1.67
       1.183     0.500000        49762         2.00
      44.095     1.000000        99500          inf
#[Mean    =        1.458, StdDeviation   =        2.240]
#[Max     =       44.064, Total count    =        99500]
#[Buckets =           27, SubBuckets     =         2048]
----------------------------------------------------------
  119802 requests in 1.00m, 22.05MB read";
    let m = WrkMetrics::from(report);
    let s = &m.percentile_spectrum;
    assert_eq!(s.percentiles.len(), 3);
    let median = s
        .percentiles
        .iter()
        .find(|b| float_of(&b.percentile) == 0.5)
        .unwrap();
    assert_eq!(median.value.to_text(), "1.183");
    assert_eq!(median.total_count, 49762);
    assert_eq!(median.inverse_percentile, Real::parse("2.00").unwrap());
    assert_eq!(s.percentiles[2].inverse_percentile.kind, RealKind::Infinite);
    assert_eq!(s.mean.to_text(), "1.458");
    assert_eq!(s.std_deviation.to_text(), "2.240");
    assert_eq!(s.max.to_text(), "44.064");
    assert_eq!(s.total_count, 99500);
    assert_eq!((s.buckets, s.sub_buckets), (27, 2048));
    assert_eq!(m.total_requests, 119_802);
}

#[test]
fn distribution_stops_at_blank_line() {
    let lines = vec![
        "Latency Distribution".chars().collect::<Vec<char>>(),
        "50% 1ms".chars().collect(),
        Vec::new(),
        "% 1".chars().collect(),
    ];
    let d = wrk_report::metrics::parse_latency_distribution(&lines);
    assert_eq!(d.entries().len(), 1);
    assert!(d.get("%").is_none());
    assert_eq!(d.get("50%").unwrap().to_text(), "1");
}

#[test]
fn requests_per_sec_in_exponent_form() {
    let m = WrkMetrics::from("Requests/sec: 1e3");
    assert_eq!(float_of(&m.requests_per_sec), 1000.0);
}
