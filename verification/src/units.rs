//! Sizes and times as people write and read them.

pub mod data;
pub mod time;

pub use self::data::DataSize;
pub use self::time::HRDuration;
