//! Dense integer matrix multiplication, with the work split into one task per
//! output cell, tasks routed to a fixed number of workers, and index-tagged
//! replies assembled into the result.

pub mod error;
pub mod matrix;
pub mod metrics;
pub mod task;
pub mod vector;

pub use error::MatrixError;
pub use matrix::Matrix;
pub use metrics::{AmapMetrics, MetricsError};
pub use task::{assemble, multiply, multiply_with_workers, plan_tasks, run_task, worker_for};
pub use task::{MsgInput, MsgOutput, NUM_WORKERS};

pub use vector::{dot_product, Vector};
