//! Building blocks of a tar archiver that writes to record-oriented media and
//! can span one archive over several volumes.
//!
//! The crate holds the accounting that tells which bytes of which file have
//! reached the device, the stage that cuts a byte stream into fixed-size
//! records, and the encoder for USTAR and PAX headers. Every function carries
//! a contract that Verus proves.

pub mod blocking;
pub mod bytes;
pub mod changer;
pub mod concurrentbuf;
pub mod digits;
pub mod driver;
pub mod fs;
pub mod result;
pub mod spanning;
pub mod stream;
pub mod tape;
pub mod tar;
mod text;
pub mod traverse;
pub mod tuning;
pub mod units;
