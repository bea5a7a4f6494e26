//! The signal-path building blocks, as far as they decide and compute.

pub mod dedup;
pub mod frame_sink;
pub mod tx_dispatch;
pub mod soapy_direct;
pub mod iio_direct;
pub mod cad;
pub mod multi_bw;
pub mod multi_sf;
