//! What one user has used.

use vstd::prelude::*;

verus! {

/// Bytes moved by one user, in the direction names a panel expects.
#[derive(Clone, Copy, Debug, PartialEq, Eq, Structural)]
pub struct Usage {
    /// Bytes sent by the client.
    pub uplink: u64,
    /// Bytes sent to the client.
    pub downlink: u64,
}

impl Usage {
    /// No traffic in either direction.
    pub open spec fn zero() -> Usage {
        Usage { uplink: 0, downlink: 0 }
    }

    /// Tells whether there is nothing to report.
    pub fn is_zero(&self) -> (zero: bool)
        ensures
            zero == (*self == Usage::zero()),
            zero == (self.uplink == 0 && self.downlink == 0),
    {
        self.uplink == 0 && self.downlink == 0
    }
}

impl Default for Usage {
    /// A usage of no bytes at all.
    fn default() -> (usage: Usage)
        ensures
            usage == Usage::zero(),
            usage.uplink == 0 && usage.downlink == 0,
    {
        Usage { uplink: 0, downlink: 0 }
    }
}

/// What a counter shows after `n` more bytes: counters wrap round at `2^64`.
pub open spec fn counted(count: u64, n: u64) -> u64 {
    ((count + n) % 0x1_0000_0000_0000_0000) as u64
}

/// A counter counts every byte: it shows the sum, or what the sum has left over `2^64`.
pub proof fn law_counters_wrap_round(count: u64, n: u64)
    ensures
        count + n <= u64::MAX ==> counted(count, n) == count + n,
        count + n > u64::MAX ==> counted(count, n) == count + n - 0x1_0000_0000_0000_0000,
{
}

/// One user's counters.
///
/// A connection finds them once and then only adds to them. That matters: this sits on the path
/// every byte takes.
#[derive(Debug)]
pub struct UserCounter {
    uplink: u64,
    downlink: u64,
}

impl View for UserCounter {
    type V = Usage;

    closed spec fn view(&self) -> Usage {
        Usage { uplink: self.uplink, downlink: self.downlink }
    }
}

impl Default for UserCounter {
    /// A counter that has seen no traffic.
    fn default() -> (counter: UserCounter)
        ensures
            counter@ == Usage::zero(),
            counter@.uplink == 0 && counter@.downlink == 0,
    {
        UserCounter { uplink: 0, downlink: 0 }
    }
}

impl UserCounter {
    /// Counts `n` bytes sent by the client.
    pub fn add_uplink(&mut self, n: u64)
        ensures
            final(self)@ == (Usage { uplink: counted(old(self)@.uplink, n), ..old(self)@ }),
            final(self)@.uplink == (old(self)@.uplink + n) % 0x1_0000_0000_0000_0000,
            final(self)@.downlink == old(self)@.downlink,
    {
        self.uplink = self.uplink.wrapping_add(n);
    }

    /// Counts `n` bytes sent to the client.
    pub fn add_downlink(&mut self, n: u64)
        ensures
            final(self)@ == (Usage { downlink: counted(old(self)@.downlink, n), ..old(self)@ }),
            final(self)@.downlink == (old(self)@.downlink + n) % 0x1_0000_0000_0000_0000,
            final(self)@.uplink == old(self)@.uplink,
    {
        self.downlink = self.downlink.wrapping_add(n);
    }

    /// Reads the counters and resets them to zero in one step.
    pub(crate) fn take(&mut self) -> (usage: Usage)
        ensures
            usage == old(self)@,
            final(self)@ == Usage::zero(),
            final(self)@.uplink == 0 && final(self)@.downlink == 0,
    {
        let usage = Usage { uplink: self.uplink, downlink: self.downlink };
        self.uplink = 0;
        self.downlink = 0;
        usage
    }

    /// Reads the counters without resetting them.
    pub(crate) fn read(&self) -> (usage: Usage)
        ensures
            usage == self@,
    {
        Usage { uplink: self.uplink, downlink: self.downlink }
    }
}

} // verus!
