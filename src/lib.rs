//! Integer core of a stochastic ray tracer: how scanlines are shared out
//! among workers, how the consumer assembles the rows it receives into a
//! frame, and the bounce decisions of the radiance estimator.

pub mod frame;
pub mod path;
pub mod schedule;
