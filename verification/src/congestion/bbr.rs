//! Parts of the BBR controller.

pub mod bw_estimation;
