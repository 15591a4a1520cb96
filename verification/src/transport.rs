//! What the client asks of the byte stream under it.

use crate::server::ServerView;
use vstd::prelude::*;

verus! {

/// How a transport failed.
#[derive(Debug, PartialEq, Eq, Clone, Copy, Structural)]
pub enum IoError {
    /// Nothing could be moved within the time the transport allows.
    TimedOut,
    /// Any other failure, such as a connection reset.
    Failed,
}

/// A byte stream that can be written to and read from. A socket qualifies,
/// and so does a scripted stand-in for a device.
///
/// Neither call has to move all the bytes it is offered: the caller loops.
/// A call that moves no bytes although some were offered reports that the
/// peer has closed the stream.
///
/// Of a transport in general nothing is known in advance. One that plays
/// back a script says so through `scripted`, and is then held to the script
/// in every call: what it takes, what it delivers, when it hangs up, and
/// what it answers once it has.
pub trait Transport {
    /// The scripted device that this transport is, if it is one.
    open spec fn scripted(&self) -> Option<ServerView> {
        None
    }

    /// Takes some bytes from the front of `buf` and says how many.
    fn write(&mut self, buf: &[u8]) -> (written: Result<usize, IoError>)
        ensures
            written matches Ok(n) ==> n <= buf@.len(),
            old(self).scripted() matches Some(device) ==> {
                &&& written == device.write_outcome(buf@)
                &&& final(self).scripted() == Some(device.after_write(buf@))
            },
    ;

    /// Puts some bytes at the front of `buf` and says how many.
    fn read(&mut self, buf: &mut [u8]) -> (got: Result<usize, IoError>)
        ensures
            final(buf)@.len() == old(buf)@.len(),
            got matches Ok(n) ==> n <= old(buf)@.len(),
            old(self).scripted() matches Some(device) ==> {
                &&& got == device.read_outcome(old(buf)@.len())
                &&& final(self).scripted() == Some(device.after_read(old(buf)@.len()))
                &&& final(buf)@ == device.delivered(old(buf)@.len()) + old(buf)@.skip(
                    device.read_count(old(buf)@.len()) as int,
                )
            },
    ;

    /// Pushes out what earlier writes may have held back.
    fn flush(&mut self) -> (done: Result<(), IoError>)
        ensures
            old(self).scripted() matches Some(device) ==> {
                &&& done == device.flush_outcome()
                &&& final(self).scripted() == Some(device.after_flush())
            },
    ;
}

} // verus!
