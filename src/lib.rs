//! Parsing of wrk / wrk2 load-test reports into structured, exact metrics.
//!
//! Numbers are kept exactly: figures with unit suffixes as decimals
//! (`decimal::Decimal`), and plain figures in every form that `f64` parsing
//! reads (`number::Real`). Durations are in milliseconds, except the length
//! of the test, which is in seconds.

pub mod codec;
pub mod decimal;
pub mod distribution;
pub mod latency;
pub mod metrics;
pub mod percentile;
pub mod number;
pub mod request_sec;
pub mod text;
pub mod units;

pub use codec::{Error, Loadtest, decode_payload, encode_payload};
pub use decimal::Decimal;
pub use distribution::{DistributionEntry, LatencyDistribution};
pub use latency::Latency;
pub use metrics::WrkMetrics;
pub use number::{Real, RealKind};
pub use percentile::{BucketError, PercentileBucket, PercentileSpectrum};
pub use request_sec::RequestSec;
pub use units::{parse_count, parse_to_milliseconds};
