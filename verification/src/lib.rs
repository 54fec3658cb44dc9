//! An in-process metrics registry with a dashboard query surface.
//!
//! Counters, gauges and histograms are registered by name, mutated through
//! slot handles, and read back as sorted metadata, point-in-time values and a
//! resolved list of charts. Every function carries a contract over a
//! mathematical model of the registry, and the laws that relate the
//! operations to each other are proved in [`laws`].
pub mod charts;
pub mod laws;
pub mod middleware;
pub mod model;
pub mod names;
pub mod query;
pub mod recorder;
pub mod sorting;

pub use charts::{ChartKind, ChartType, DashboardOptions};
pub use middleware::{HttpMetricMiddleware, HttpMetricMiddlewareEndpoint};
