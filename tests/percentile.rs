use wrk_report::{BucketError, PercentileBucket, PercentileSpectrum, Real, RealKind};

fn num(r: &Real) -> f64 {
    r.to_text().parse::<f64>().unwrap()
}

fn assert_float_eq(a: f64, b: f64) {
    const EPSILON: f64 = 1e-6;
    assert!(
        (a - b).abs() < EPSILON,
        "Expected {a} to be approximately equal to {b}"
    );
}

const SAMPLE_SPECTRUM: &str = r"
Detailed Percentile spectrum:
     Value   Percentile   TotalCount 1/(1-Percentile)

     0.921     0.000000            1         1.00
     4.053     0.100000         3951         1.11
     4.935     0.200000         7921         1.25
     5.627     0.300000        11858         1.43
     6.179     0.400000        15803         1.67
     6.671     0.500000        19783         inf
#[Mean    =        6.602, StdDeviation   =        1.919]
#[Max     =       12.496, Total count    =        39500]
#[Buckets =           27, SubBuckets     =         2048]
";

#[test]
fn test_parse_percentile_spectrum() {
    let spectrum = PercentileSpectrum::from(SAMPLE_SPECTRUM);

    assert_float_eq(num(&spectrum.mean), 6.602);
    assert_float_eq(num(&spectrum.std_deviation), 1.919);
    assert_float_eq(num(&spectrum.max), 12.496);
    assert_eq!(spectrum.total_count, 39500);

    assert_float_eq(num(&spectrum.percentiles[0].value), 0.921);
    assert_float_eq(num(&spectrum.percentiles[0].percentile), 0.0);

    // The percentile column is a share in [0, 1], kept as written.
    assert_float_eq(num(&spectrum.percentiles[5].value), 6.671);
    assert_float_eq(num(&spectrum.percentiles[5].percentile), 0.5);
}

#[test]
fn spectrum_summary_and_buckets() {
    let spectrum = PercentileSpectrum::from(SAMPLE_SPECTRUM);
    assert_eq!(spectrum.buckets, 27);
    assert_eq!(spectrum.sub_buckets, 2048);
    assert_eq!(spectrum.percentiles.len(), 6);
    let median = &spectrum.percentiles[5];
    assert_eq!(median.value.to_text(), "6.671");
    assert_eq!(median.percentile.to_text(), "0.500000");
    assert_eq!(median.total_count, 19783);
    assert_eq!(median.inverse_percentile.kind, RealKind::Infinite);
    assert!(!median.inverse_percentile.negative);
    assert_eq!(num(&median.inverse_percentile), f64::INFINITY);
    assert_eq!(spectrum.percentiles[1].inverse_percentile.to_text(), "1.11");
}

#[test]
fn spectrum_absent_is_empty() {
    let spectrum = PercentileSpectrum::from("Running 10s test @ http://x\n#[Mean = 1.0, StdDeviation = 2.0]");
    assert_eq!(spectrum.percentiles.len(), 0);
    assert_eq!(spectrum.total_count, 0);
    assert_eq!(spectrum.mean.to_text(), "0");
}

#[test]
fn spectrum_drops_unreadable_rows() {
    let text = "Detailed Percentile spectrum:\nValue Percentile TotalCount 1/(1-Percentile)\n1.0 0.1 5 1.11\nx 0.2 6 1.25\n2.0 0.3 7\n3.0 0.4 8 2.00\n#[Mean = 2.0, StdDeviation = 1.0]\n";
    let spectrum = PercentileSpectrum::from(text);
    assert_eq!(spectrum.percentiles.len(), 2);
    assert_eq!(spectrum.percentiles[0].total_count, 5);
    assert_eq!(spectrum.percentiles[1].total_count, 8);
    assert_eq!(spectrum.mean.to_text(), "2.0");
    assert_eq!(spectrum.std_deviation.to_text(), "1.0");
}

#[test]
fn bucket_errors() {
    assert_eq!(PercentileBucket::try_from("1.0 0.5").unwrap_err(), BucketError::MissingColumn);
    assert_eq!(PercentileBucket::try_from("a 0.5 1 2.0").unwrap_err(), BucketError::InvalidValue);
    assert_eq!(PercentileBucket::try_from("1.0 b 1 2.0").unwrap_err(), BucketError::InvalidPercentile);
    assert_eq!(PercentileBucket::try_from("1.0 0.5 c 2.0").unwrap_err(), BucketError::InvalidTotalCount);
    assert_eq!(
        PercentileBucket::try_from("1.0 0.5 1 d").unwrap_err(),
        BucketError::InvalidInversePercentile
    );
    let b = PercentileBucket::try_from("  44.095 1.000000 99500 inf ").unwrap();
    assert_eq!(b.value.to_text(), "44.095");
    assert_eq!(b.total_count, 99500);
    assert_eq!(b.inverse_percentile.kind, RealKind::Infinite);
}

#[test]
fn bucket_reads_every_float_form() {
    let b = PercentileBucket::try_from("1e3 5E-1 7 +INF").unwrap();
    assert_eq!(num(&b.value), 1000.0);
    assert_eq!(b.value.to_text(), "1e3");
    assert_eq!(num(&b.percentile), 0.5);
    assert_eq!(b.percentile.to_text(), "5e-1");
    assert_eq!(num(&b.inverse_percentile), f64::INFINITY);
    let c = PercentileBucket::try_from("-2.5 .5 0 Infinity").unwrap();
    assert_eq!(num(&c.value), -2.5);
    assert_eq!(num(&c.inverse_percentile), f64::INFINITY);
    let d = PercentileBucket::try_from("NaN 1. 3 2e+2").unwrap();
    assert!(num(&d.value).is_nan());
    assert_eq!(num(&d.percentile), 1.0);
    assert_eq!(num(&d.inverse_percentile), 200.0);
    assert_eq!(PercentileBucket::try_from("1e 0.5 1 2").unwrap_err(), BucketError::InvalidValue);
    assert_eq!(PercentileBucket::try_from("1.0 0.5 1 infinit").unwrap_err(), BucketError::InvalidInversePercentile);
    assert_eq!(PercentileBucket::try_from("1.0 e5 1 2").unwrap_err(), BucketError::InvalidPercentile);
}

#[test]
fn number_parse_and_text() {
    assert_eq!(Real::parse("-1.5e-3").unwrap().to_text(), "-1.5e-3");
    assert_eq!(Real::parse("nan").unwrap().to_text(), "NaN");
    assert_eq!(Real::parse("-inf").unwrap().to_text(), "-inf");
    assert!(Real::parse("").is_none());
    assert!(Real::parse("1.2.3").is_none());
    assert!(Real::parse("1e2e3").is_none());
    assert_eq!(Real::zero().to_text(), "0");
}
