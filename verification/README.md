# macmon

Power, frequency, bandwidth and temperature metrics of Apple silicon, with the rules that
lead from raw counters to metrics verified in Verus.

- `src/` is the library.
  - `channel`: which report channels are subscribed to and what each one reports.
  - `freq`: how residencies become the frequency of a core and of a cluster.
  - `histogram`: bandwidth histograms, their sums and means.
  - `sample`: what one sample of the channels says of the machine.
  - `summary`: how several samples are smoothed into one set of metrics.
  - `smc`, `temperature`: sensors of the system management controller and of the input
    subsystem.
  - `sampler`, `metrics`: the sampler and what it reports.
  - `arith`, `text`: arithmetic with fractions, and comparing texts.
- `tests/` runs the library on concrete values.
- `app/` connects the library to the machine. `app/sources.rs` lists the system calls that
  a platform has to offer.

The library does not name a floating-point type. It computes with the two types of an
implementation of `arith::Floats`, and its contracts say which operations of these types
lead to each result, in which order. `app/` supplies `f32` and `f64`.
