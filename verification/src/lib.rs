//! Probes of platform behaviour, with their findings as verified values.

pub mod report;
pub mod text;
pub mod fingerprint;
pub mod order;
pub mod core_affinity;
pub mod long_path;
pub mod long_path_report;
pub mod queue_contention;
pub mod error_mode;
pub mod handle_state;
pub mod device_map;
pub mod ioring;
pub mod completion_port;
pub mod cancel_io;
pub mod pool_growth;
