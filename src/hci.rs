//! The read policy of the HCI port. The test suite opens its serial port
//! late: until the first byte arrives, reads fail with EIO and the port
//! waits for a peer; after that, EIO means the peer closed it.
use vstd::prelude::*;

verus! {

/// What one read of the pseudo-terminal gave.
#[derive(Debug, PartialEq, Eq, Structural, Clone, Copy)]
pub enum ReadOutcome {
    /// That many bytes.
    Data(usize),
    /// EIO: no peer has the port open.
    NotConnected,
    /// Any other error.
    Failed,
}

/// What the port does about it.
#[derive(Debug, PartialEq, Eq, Structural, Clone, Copy)]
pub enum ReadAction {
    /// Hands the bytes to the reader.
    Deliver(usize),
    /// Reports the end of the stream: the peer went away.
    EndOfStream,
    /// Waits until the port is readable and reads again.
    WaitReadable,
    /// Reports the error.
    Fail,
}

/// Whether a peer has been seen on the port.
pub struct ConnectWait {
    connected: bool,
}

impl ConnectWait {
    pub closed spec fn is_connected(&self) -> bool {
        self.connected
    }

    pub fn new() -> (r: Self)
        ensures
            !r.is_connected(),
    {
        ConnectWait { connected: false }
    }

    /// Decides what a read outcome means: data marks the port connected;
    /// EIO waits before the first data and ends the stream after it.
    pub fn on_read(&mut self, outcome: ReadOutcome) -> (r: ReadAction)
        ensures
            match outcome {
                ReadOutcome::Data(n) => r == ReadAction::Deliver(n) && final(self).is_connected(),
                ReadOutcome::NotConnected => final(self).is_connected() == old(self).is_connected()
                    && r == if old(self).is_connected() {
                    ReadAction::EndOfStream
                } else {
                    ReadAction::WaitReadable
                },
                ReadOutcome::Failed => r == ReadAction::Fail && final(self).is_connected()
                    == old(self).is_connected(),
            },
    {
        match outcome {
            ReadOutcome::Data(n) => {
                self.connected = true;
                ReadAction::Deliver(n)
            },
            ReadOutcome::NotConnected => if self.connected {
                ReadAction::EndOfStream
            } else {
                ReadAction::WaitReadable
            },
            ReadOutcome::Failed => ReadAction::Fail,
        }
    }
}

} // verus!
