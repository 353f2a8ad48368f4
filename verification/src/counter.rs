//! Counters of the bytes that payload operations read and write.

use vstd::prelude::*;

verus! {

/// A count after so many more bytes. It starts again from zero when it does not fit 64 bits.
pub open spec fn counted(count: u64, delta: nat) -> u64 {
    ((count + delta) % 0x1_0000_0000_0000_0000) as u64
}

/// The bytes of payload that were read and written.
#[derive(Debug)]
pub struct HardwareCounterCell {
    pub payload_io_read: u64,
    pub payload_io_write: u64,
}

impl HardwareCounterCell {
    /// Counters that stand at zero.
    pub fn new() -> (counter: HardwareCounterCell)
        ensures
            counter.payload_io_read == 0,
            counter.payload_io_write == 0,
    {
        HardwareCounterCell { payload_io_read: 0, payload_io_write: 0 }
    }

    /// Counts bytes that were read.
    pub fn incr_payload_io_read(&mut self, delta: usize)
        ensures
            final(self).payload_io_read == counted(old(self).payload_io_read, delta as nat),
            final(self).payload_io_write == old(self).payload_io_write,
    {
        self.payload_io_read = self.payload_io_read.wrapping_add(delta as u64);
    }

    /// Counts bytes that were written.
    pub fn incr_payload_io_write(&mut self, delta: usize)
        ensures
            final(self).payload_io_write == counted(old(self).payload_io_write, delta as nat),
            final(self).payload_io_read == old(self).payload_io_read,
    {
        self.payload_io_write = self.payload_io_write.wrapping_add(delta as u64);
    }
}

}
