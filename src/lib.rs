//! Rewrites hardware-monitor sensor references in a conky configuration so
//! that they point at the index the kernel assigned on this machine.
pub mod config;
pub mod patch;
pub mod rewrite;
pub mod sensor;
pub mod text;

pub use config::{CliError, Config};
pub use patch::replace_hwmon_path;
pub use rewrite::{classify, LineAction};
pub use sensor::{locate, SensorKind};
