//! Tracking of the bytes that sit in a write pipeline, so that a write that
//! fails for want of space can be taken up again on another volume.

pub mod laws;
pub mod sink;
pub mod stream;
pub mod zone;

pub use self::stream::DataZoneStream;
pub use self::stream::StreamView;
pub use self::zone::DataZone;
pub use self::zone::ZoneView;
pub use self::sink::ByteSink;
pub use self::sink::RecoverableWrite;
pub use self::sink::SinkError;
pub use self::sink::LimitingWriter;
pub use self::sink::MemorySink;
pub use self::sink::UnbufferedWriter;
