//! Power, frequency, bandwidth and temperature metrics of Apple silicon, computed from
//! the raw counters that the operating system reports.
//!
//! The library holds the rules: which report channels matter, how residencies become a
//! frequency, how counters become rates, and how several short samples are smoothed into
//! one set of metrics. Reading the counters is left to the caller, who hands over plain
//! values. Numbers with a fraction are abstract here: see [`arith::Floats`].
//!
//! The contracts say which operations lead to a result. What the results amount to is
//! proved beside them: with integers outright, and with fractions where the arithmetic
//! does not round, see `arith::exact`.
pub mod arith;
pub mod channel;
pub mod freq;
pub mod histogram;
pub mod metrics;
pub mod sample;
pub mod sampler;
pub mod smc;
pub mod summary;
pub mod temperature;
pub mod text;

pub use arith::zero_div;
pub use histogram::MetricHistogram;
pub use metrics::{MemMetrics, Metrics};
pub use sampler::Sampler;
pub use temperature::TempMetrics;
