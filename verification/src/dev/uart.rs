use vstd::prelude::*;

use crate::dev::Dev;

verus! {

/// Byte counts of a serial port.
#[derive(Clone, Copy, Debug)]
pub struct Stats {
    pub bytes_rx: u32,
    pub bytes_tx: u32,
}

/// A serial port.
pub trait Uart: Dev {
    /// Sends bytes.
    fn write(&mut self, data: &[u8]);

    /// The byte counts so far.
    fn get_stats(&self) -> Stats;
}

impl Stats {
    /// No bytes received or sent.
    pub fn new() -> (s: Stats)
        ensures
            s.bytes_rx == 0,
            s.bytes_tx == 0,
    {
        Stats { bytes_rx: 0, bytes_tx: 0 }
    }

    /// Counts `n` received bytes.
    pub fn record_rx(&mut self, n: u32)
        requires
            old(self).bytes_rx + n <= u32::MAX,
        ensures
            final(self).bytes_rx == old(self).bytes_rx + n,
            final(self).bytes_tx == old(self).bytes_tx,
    {
        self.bytes_rx = self.bytes_rx + n;
    }

    /// Counts what one write to the port returned: the number of bytes
    /// sent, taken as a `u32`, or a negative value for an error, which
    /// counts nothing.
    pub fn record_tx(&mut self, written: isize)
        requires
            written >= 0 ==> old(self).bytes_tx + (written as u32) <= u32::MAX,
        ensures
            final(self).bytes_rx == old(self).bytes_rx,
            final(self).bytes_tx == if written >= 0 {
                old(self).bytes_tx + (written as u32)
            } else {
                old(self).bytes_tx as int
            },
    {
        if written >= 0 {
            self.bytes_tx = self.bytes_tx + written as u32;
        }
    }
}

/// What a serial port's reader does with one read of up to 8 bytes.
#[derive(Debug, PartialEq, Eq, Structural, Clone, Copy)]
pub enum RxAction {
    /// Nothing was read.
    Ignore,
    /// A Ctrl-C (byte 3) was read: the program stops at once.
    Abort,
    /// The first `len` bytes go to the event queue.
    Deliver(u8),
}

/// The reader's decision on a read that returned `len` (a negative value
/// for an error) into `data`.
pub fn rx_action(data: &[u8; 8], len: isize) -> (r: RxAction)
    requires
        len <= 8,
    ensures
        len <= 0 ==> r == RxAction::Ignore,
        len > 0 && (exists|i: int| 0 <= i < len && data@[i] == 3) ==> r == RxAction::Abort,
        len > 0 && (forall|i: int| 0 <= i < len ==> data@[i] != 3) ==> r == RxAction::Deliver(
            len as u8,
        ),
{
    if len <= 0 {
        return RxAction::Ignore;
    }
    let n = len as usize;
    let mut i: usize = 0;
    while i < n
        invariant
            n == len,
            n <= 8,
            i <= n,
            forall|j: int| 0 <= j < i ==> data@[j] != 3,
        decreases n - i,
    {
        if data[i] == 3 {
            return RxAction::Abort;
        }
        i = i + 1;
    }
    RxAction::Deliver(len as u8)
}

} // verus!
