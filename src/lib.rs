//! Phase dispersion minimisation: the decisions of the period search that can
//! be stated over integers, proved, and a diagnostics timer.

pub mod binning;
pub mod error;
pub mod float_order;
pub mod significance;
pub mod timing;
