//! The numbers that trade memory for speed.

use vstd::prelude::*;

verus! {

/// How much the archiver may keep in flight.
#[derive(Copy, Clone, Debug)]
pub struct Configuration {
    /// How many entries may wait between traversal and writing.
    pub channel_queue_depth: usize,
    /// How many threads may read files at once.
    pub parallel_io_limit: usize,
    /// The length of a tape record, in units of 512 bytes.
    pub blocking_factor: usize,
    /// How many bytes may wait between the archiver and the device.
    pub serial_buffer_limit: u64,
}

impl Default for Configuration {
    /// Room for 1024 entries, 32 readers, records of 10 KiB as other tars
    /// read them, and a buffer of 1 GiB.
    fn default() -> (configuration: Self)
        ensures
            configuration.channel_queue_depth == 1024,
            configuration.parallel_io_limit == 32,
            configuration.blocking_factor == 20,
            configuration.serial_buffer_limit == 1024 * 1024 * 1024,
    {
        Configuration {
            channel_queue_depth: 1024,
            parallel_io_limit: 32,
            blocking_factor: 20,
            serial_buffer_limit: 1024 * 1024 * 1024,
        }
    }
}

} // verus!
