//! The probe of a device's memory: buffers are allocated until none of at
//! least 64 MiB fits, and their sizes are added up. The probe decides the
//! size of each attempt; the caller makes the attempt and reports how it
//! went.

use vstd::prelude::*;

verus! {

/// The smallest buffer that the probe asks for: 64 MiB.
pub const MIN_ALLOCATION: u32 = 0x400_0000;

/// What the probe asks of the caller.
#[derive(Clone, Copy, Debug, PartialEq, Eq, Structural)]
pub enum ProbeAction {
    /// Try to allocate a buffer of this many bytes.
    Allocate(u32),
    /// Stop: this many bytes were allocated in all.
    Finish(u64),
}

/// The state of a probe.
#[derive(Clone, Copy, Debug)]
pub struct VramProbe {
    /// The largest buffer that the device binds.
    pub max_buffer_size: u32,
    /// The size of the next attempt.
    pub allocation_size: u32,
    /// The bytes allocated so far.
    pub total: u64,
}

impl VramProbe {
    /// A probe that starts at the largest buffer.
    pub fn new(max_buffer_size: u32) -> (r: Self)
        ensures
            r.max_buffer_size == max_buffer_size,
            r.allocation_size == max_buffer_size,
            r.total == 0,
    {
        VramProbe { max_buffer_size, allocation_size: max_buffer_size, total: 0 }
    }

    /// The next step: another attempt while its size is at least 64 MiB,
    /// else the end.
    pub fn action(&self) -> (r: ProbeAction)
        ensures
            r == if self.allocation_size >= MIN_ALLOCATION {
                ProbeAction::Allocate(self.allocation_size)
            } else {
                ProbeAction::Finish(self.total)
            },
    {
        if self.allocation_size >= MIN_ALLOCATION {
            ProbeAction::Allocate(self.allocation_size)
        } else {
            ProbeAction::Finish(self.total)
        }
    }

    /// Takes note of how the attempt went. After a buffer that fitted, the
    /// next attempt is at the largest size again; after one that did not, at
    /// half the size.
    pub fn record(&mut self, allocated: bool)
        requires
            old(self).allocation_size >= MIN_ALLOCATION,
            old(self).total + old(self).allocation_size <= u64::MAX,
        ensures
            final(self).max_buffer_size == old(self).max_buffer_size,
            final(self).total == if allocated {
                old(self).total + old(self).allocation_size
            } else {
                old(self).total as int
            },
            final(self).allocation_size == if allocated {
                old(self).max_buffer_size
            } else {
                old(self).allocation_size / 2
            },
    {
        if allocated {
            self.total = self.total + self.allocation_size as u64;
            self.allocation_size = self.max_buffer_size;
        } else {
            self.allocation_size = self.allocation_size / 2;
        }
    }
}

} // verus!
