//! Camera latency measurement: the stimulus that is shown, the detection of its
//! transitions in camera frames, the bookkeeping of measurement runs, and the
//! analysis of the recorded events.
//!
//! The computations on measured values (timestamps, brightness, normalised
//! coordinates) are generic over the arithmetic that carries them out, see
//! [`arithmetic`].

pub mod alignment;
pub mod analysis;
pub mod arithmetic;
pub mod capture;
pub mod decoding;
pub mod detection;
pub mod figures;
pub mod imaging;
pub mod layout;
pub mod light;
pub mod logs;
pub mod preview;
pub mod readback;
pub mod regions;
pub mod results;
pub mod roi;
pub mod session;
pub mod stable_sort;
pub mod statistics;
pub mod stimulus;
pub mod timing;
pub mod warmup;

pub use analysis::{LatencyReport, LatencySample, MeasurementMethod, MeasurementRun, SummaryStats};
