//! A scripted stand-in for a device. It holds one reply for each request to
//! come, hands a reply out a few bytes per read, takes a request a few bytes
//! per write, and keeps what was written to it and whether it was flushed.

use crate::transport::{IoError, Transport};
use vstd::prelude::*;

verus! {

/// Where the scripted device stands.
#[derive(Debug, PartialEq, Eq, Clone, Copy, Structural)]
pub enum PTPServerState {
    /// No reply is owed: the device waits for a request.
    Listening,
    /// A request has arrived whole; what is left of its reply is owed.
    Replying,
    /// The device has hung up.
    Disconnected,
}

/// What a call gets that the device cannot serve.
#[derive(Debug, PartialEq, Eq, Clone, Copy, Structural)]
pub enum Ending {
    /// No bytes are moved: the stream has closed.
    Closes,
    /// The call times out.
    TimesOut,
    /// The call fails.
    Fails,
}

/// A device that plays back a script.
pub struct PTPServer {
    hung_up: bool,
    replies: Vec<Vec<u8>>,
    begun: usize,
    cursor: usize,
    chunk: usize,
    gulp: usize,
    ending: Ending,
    inbox: Vec<u8>,
    flushed: usize,
    read_unflushed: bool,
}

/// A scripted device as a mathematical value.
#[verifier::ext_equal]
pub struct ServerView {
    /// Whether the device has hung up.
    pub hung_up: bool,
    /// What is left of the reply that the device owes.
    pub owed: Seq<u8>,
    /// The replies to the requests to come, one for each.
    pub replies: Seq<Seq<u8>>,
    /// The most bytes one read delivers.
    pub chunk: nat,
    /// The most bytes one write takes.
    pub gulp: nat,
    /// What a call gets that the device cannot serve.
    pub ending: Ending,
    /// Every byte written to the device so far.
    pub inbox: Seq<u8>,
    /// How many bytes of the inbox had arrived when the device was last
    /// flushed.
    pub flushed: nat,
    /// Whether a read ever came while written bytes waited to be flushed.
    pub read_unflushed: bool,
}

/// The one reply of the stock device: a frame of twelve bytes and type
/// five, with one word of payload.
pub open spec fn stock_reply() -> Seq<u8> {
    seq![0x0cu8, 0x00u8, 0x00u8, 0x00u8, 0x05u8, 0x00u8, 0x00u8, 0x00u8, 0x20u8, 0x1eu8, 0x00u8, 0x00u8]
}

/// The stock device hands out its reply one word per read.
pub const STOCK_CHUNK: usize = 4;

/// The smaller of two numbers.
pub open spec fn least(a: nat, b: nat) -> nat {
    if a < b {
        a
    } else {
        b
    }
}

impl ServerView {
    /// Where the device stands.
    pub open spec fn state(self) -> PTPServerState {
        if self.hung_up {
            PTPServerState::Disconnected
        } else if self.owed.len() > 0 {
            PTPServerState::Replying
        } else {
            PTPServerState::Listening
        }
    }

    /// The device once it has hung up.
    pub open spec fn hangs_up(self) -> ServerView {
        ServerView { hung_up: true, ..self }
    }

    /// What a write or a read of one byte or more gets that the device
    /// cannot serve.
    pub open spec fn stalled(self) -> Result<usize, IoError> {
        match self.ending {
            Ending::Closes => Ok(0),
            Ending::TimesOut => Err(IoError::TimedOut),
            Ending::Fails => Err(IoError::Failed),
        }
    }

    /// The device once a request has arrived whole: it owes the next reply
    /// of its script, and hangs up if the script has none.
    pub open spec fn answers(self) -> ServerView {
        if self.replies.len() > 0 {
            ServerView { owed: self.replies[0], replies: self.replies.skip(1), ..self }
        } else {
            self.hangs_up()
        }
    }

    /// How many of the bytes `offered` a write takes: none where the device
    /// has hung up or still owes a reply, else as many as `gulp` allows.
    pub open spec fn write_count(self, offered: Seq<u8>) -> nat {
        if self.state() == PTPServerState::Listening {
            least(offered.len(), self.gulp)
        } else {
            0
        }
    }

    /// What a write of `offered` returns.
    pub open spec fn write_outcome(self, offered: Seq<u8>) -> Result<usize, IoError> {
        if self.hung_up || (self.state() == PTPServerState::Listening && offered.len() > 0
            && self.gulp == 0) {
            self.stalled()
        } else {
            Ok(self.write_count(offered) as usize)
        }
    }

    /// The device after a write of `offered`.
    ///
    /// A device that has hung up stays as it is. One that still owes a
    /// reply hangs up: a request before the answer to the last one ends the
    /// session. One that listens takes what `gulp` allows; if that is all
    /// that was offered, the request is whole and the reply is owed. One
    /// that can take nothing of what is offered hangs up.
    pub open spec fn after_write(self, offered: Seq<u8>) -> ServerView {
        if self.hung_up {
            self
        } else if self.state() == PTPServerState::Replying {
            self.hangs_up()
        } else if offered.len() > 0 && self.gulp == 0 {
            self.hangs_up()
        } else {
            let taken = ServerView {
                inbox: self.inbox + offered.take(self.write_count(offered) as int),
                ..self
            };
            if self.write_count(offered) == offered.len() {
                taken.answers()
            } else {
                taken
            }
        }
    }

    /// How many bytes a read into a buffer of `room` bytes delivers: as
    /// many as the buffer, the chunk size and the reply owed all allow.
    pub open spec fn read_count(self, room: nat) -> nat {
        if self.hung_up {
            0
        } else {
            least(room, least(self.chunk, self.owed.len()))
        }
    }

    /// The bytes that a read into a buffer of `room` bytes delivers: the
    /// next ones of the reply owed.
    pub open spec fn delivered(self, room: nat) -> Seq<u8> {
        self.owed.take(self.read_count(room) as int)
    }

    /// What a read into a buffer of `room` bytes returns.
    pub open spec fn read_outcome(self, room: nat) -> Result<usize, IoError> {
        if room > 0 && self.read_count(room) == 0 {
            self.stalled()
        } else {
            Ok(self.read_count(room) as usize)
        }
    }

    /// The device with the note taken of a read: whether written bytes
    /// waited to be flushed when it came.
    pub open spec fn noted(self) -> ServerView {
        ServerView {
            read_unflushed: self.read_unflushed || self.inbox.len() > self.flushed,
            ..self
        }
    }

    /// The device after a read into a buffer of `room` bytes. A read that
    /// asks for bytes where none are owed ends the session: the device
    /// hangs up.
    pub open spec fn after_read(self, room: nat) -> ServerView {
        if room > 0 && self.read_count(room) == 0 {
            self.noted().hangs_up()
        } else {
            ServerView { owed: self.owed.skip(self.read_count(room) as int), ..self.noted() }
        }
    }

    /// The bytes that the device hands over to a client that keeps
    /// reading: the reply it owes, if it has not hung up and delivers at
    /// all.
    pub open spec fn forthcoming(self) -> Seq<u8> {
        if !self.hung_up && self.chunk > 0 {
            self.owed
        } else {
            Seq::empty()
        }
    }

    /// The device after a client has read from it until it had `count`
    /// bytes, or until the device hung up because no more were owed.
    pub open spec fn after_reading(self, count: nat) -> ServerView {
        if self.forthcoming().len() >= count {
            ServerView { owed: self.owed.skip(count as int), ..self.noted() }
        } else {
            ServerView {
                owed: self.owed.skip(self.forthcoming().len() as int),
                ..self.noted().hangs_up()
            }
        }
    }

    /// What the write returns at which a client that offers a request
    /// again and again, every time what is left of it, gives up: none where
    /// the device takes the request whole in the end.
    pub open spec fn request_stall(self) -> Option<Result<usize, IoError>> {
        if self.hung_up {
            Some(self.stalled())
        } else if self.state() == PTPServerState::Replying {
            Some(Ok(0))
        } else if self.gulp == 0 {
            Some(self.stalled())
        } else {
            None
        }
    }

    /// The device after a client has offered it the non-empty `request`
    /// again and again, every time what was left of it: it has the request
    /// whole and owes the reply, or has hung up without taking a byte.
    pub open spec fn after_request(self, request: Seq<u8>) -> ServerView {
        if self.hung_up {
            self
        } else if self.state() == PTPServerState::Replying || self.gulp == 0 {
            self.hangs_up()
        } else {
            (ServerView { inbox: self.inbox + request, ..self }).answers()
        }
    }

    /// All the bytes that the device may still send: the reply owed and
    /// the replies to come.
    pub open spec fn unsent(self) -> Seq<u8> {
        self.owed + self.replies.flatten()
    }

    /// What a flush returns: a device that has hung up answers as its
    /// ending says, any other is flushed.
    pub open spec fn flush_outcome(self) -> Result<(), IoError> {
        if self.hung_up {
            match self.ending {
                Ending::Closes => Ok(()),
                Ending::TimesOut => Err(IoError::TimedOut),
                Ending::Fails => Err(IoError::Failed),
            }
        } else {
            Ok(())
        }
    }

    /// The device after a flush: all of its inbox counts as flushed, unless
    /// it has hung up.
    pub open spec fn after_flush(self) -> ServerView {
        if self.hung_up {
            self
        } else {
            ServerView { flushed: self.inbox.len(), ..self }
        }
    }
}

impl View for PTPServer {
    type V = ServerView;

    closed spec fn view(&self) -> ServerView {
        ServerView {
            hung_up: self.hung_up,
            owed: if 0 < self.begun <= self.replies@.len() && self.cursor
                <= self.replies@[self.begun - 1]@.len() {
                self.replies@[self.begun - 1]@.skip(self.cursor as int)
            } else {
                Seq::empty()
            },
            replies: if self.begun <= self.replies@.len() {
                Seq::new(
                    (self.replies@.len() - self.begun) as nat,
                    |i: int| self.replies@[self.begun + i]@,
                )
            } else {
                Seq::empty()
            },
            chunk: self.chunk as nat,
            gulp: self.gulp as nat,
            ending: self.ending,
            inbox: self.inbox@,
            flushed: self.flushed as nat,
            read_unflushed: self.read_unflushed,
        }
    }
}

impl PTPServer {
    /// The stock device: it has one reply, a status frame, for the first
    /// request, hands it out one word per read, takes every write whole,
    /// and closes the stream when it can serve no more.
    pub fn new() -> (server: Self)
        ensures
            server@ == (ServerView {
                hung_up: false,
                owed: Seq::empty(),
                replies: seq![stock_reply()],
                chunk: STOCK_CHUNK as nat,
                gulp: usize::MAX as nat,
                ending: Ending::Closes,
                inbox: Seq::empty(),
                flushed: 0,
                read_unflushed: false,
            }),
    {
        let reply: Vec<u8> = vec![0x0c, 0x00, 0x00, 0x00, 0x05, 0x00, 0x00, 0x00, 0x20, 0x1e, 0x00, 0x00];
        assert(reply@ =~= stock_reply());
        let mut replies: Vec<Vec<u8>> = Vec::new();
        replies.push(reply);
        let server = PTPServer::with_script(replies, STOCK_CHUNK);
        assert(server@.replies =~= seq![stock_reply()]);
        server
    }

    /// A device that answers the requests to come with `replies`, one
    /// each, at most `chunk` bytes per read. It takes every write whole and
    /// closes the stream when it can serve no more.
    pub fn with_script(replies: Vec<Vec<u8>>, chunk: usize) -> (server: Self)
        ensures
            server@ == (ServerView {
                hung_up: false,
                owed: Seq::empty(),
                replies: Seq::new(replies@.len(), |i: int| replies@[i]@),
                chunk: chunk as nat,
                gulp: usize::MAX as nat,
                ending: Ending::Closes,
                inbox: Seq::empty(),
                flushed: 0,
                read_unflushed: false,
            }),
    {
        let server = PTPServer {
            hung_up: false,
            replies,
            begun: 0,
            cursor: 0,
            chunk,
            gulp: usize::MAX,
            ending: Ending::Closes,
            inbox: Vec::new(),
            flushed: 0,
            read_unflushed: false,
        };
        assert(server@.replies =~= Seq::new(replies@.len(), |i: int| replies@[i]@));
        server
    }

    /// The same device, taking at most `gulp` bytes per write.
    pub fn taking(self, gulp: usize) -> (server: Self)
        ensures
            server@ == (ServerView { gulp: gulp as nat, ..self@ }),
    {
        let mut server = self;
        server.gulp = gulp;
        server
    }

    /// The same device, answering what it cannot serve as `ending` says.
    pub fn ending_with(self, ending: Ending) -> (server: Self)
        ensures
            server@ == (ServerView { ending, ..self@ }),
    {
        let mut server = self;
        server.ending = ending;
        server
    }

    /// Where the device stands.
    pub fn state(&self) -> (state: PTPServerState)
        ensures
            state == self@.state(),
    {
        if self.hung_up {
            PTPServerState::Disconnected
        } else if self.remaining() > 0 {
            PTPServerState::Replying
        } else {
            PTPServerState::Listening
        }
    }

    /// Every byte written to the device so far, in order.
    pub fn written(&self) -> (bytes: &[u8])
        ensures
            bytes@ == self@.inbox,
    {
        self.inbox.as_slice()
    }

    /// How many bytes of the reply owed are still to be sent.
    pub fn remaining(&self) -> (left: usize)
        ensures
            left == self@.owed.len(),
    {
        if 0 < self.begun && self.begun <= self.replies.len() {
            let reply: &Vec<u8> = &self.replies[self.begun - 1];
            if self.cursor <= reply.len() {
                reply.len() - self.cursor
            } else {
                0
            }
        } else {
            0
        }
    }

    /// How many bytes had been written when the device was last flushed.
    pub fn flushed(&self) -> (count: usize)
        ensures
            count == self@.flushed,
    {
        self.flushed
    }

    /// Whether a read ever came while written bytes waited to be flushed.
    pub fn read_unflushed(&self) -> (rash: bool)
        ensures
            rash == self@.read_unflushed,
    {
        self.read_unflushed
    }

    /// The answer to a write or a read that cannot be served.
    fn stall(&self) -> (outcome: Result<usize, IoError>)
        ensures
            outcome == self@.stalled(),
    {
        match self.ending {
            Ending::Closes => Ok(0),
            Ending::TimesOut => Err(IoError::TimedOut),
            Ending::Fails => Err(IoError::Failed),
        }
    }
}

impl Transport for PTPServer {
    /// This transport is a scripted device: the one it is the view of.
    open spec fn scripted(&self) -> Option<ServerView> {
        Some(self@)
    }

    /// Takes what `after_write` says of the bytes offered.
    fn write(&mut self, buf: &[u8]) -> (written: Result<usize, IoError>)
        ensures
            written == old(self)@.write_outcome(buf@),
            final(self)@ == old(self)@.after_write(buf@),
    {
        if self.hung_up {
            return self.stall();
        }
        if self.remaining() > 0 {
            self.hung_up = true;
            return Ok(0);
        }
        let count: usize = if buf.len() < self.gulp {
            buf.len()
        } else {
            self.gulp
        };
        if count == 0 && buf.len() > 0 {
            self.hung_up = true;
            return self.stall();
        }
        self.inbox.extend_from_slice(&buf[0..count]);
        if count == buf.len() {
            if self.begun < self.replies.len() {
                self.begun = self.begun + 1;
                self.cursor = 0;
                assert(self@.owed =~= old(self)@.replies[0]);
                assert(self@.replies =~= old(self)@.replies.skip(1));
            } else {
                self.hung_up = true;
            }
        }
        assert(self@ =~= old(self)@.after_write(buf@));
        Ok(count)
    }

    /// Delivers the next bytes of the reply owed, as many as `read_count`
    /// says, and leaves the rest of `buf` alone.
    fn read(&mut self, buf: &mut [u8]) -> (got: Result<usize, IoError>)
        ensures
            got == old(self)@.read_outcome(old(buf)@.len()),
            final(self)@ == old(self)@.after_read(old(buf)@.len()),
            final(buf)@ == old(self)@.delivered(old(buf)@.len()) + old(buf)@.skip(
                old(self)@.read_count(old(buf)@.len()) as int,
            ),
    {
        let room: usize = buf.len();
        if self.inbox.len() > self.flushed {
            self.read_unflushed = true;
        }
        let left: usize = if self.hung_up {
            0
        } else {
            self.remaining()
        };
        let most: usize = if self.chunk < left {
            self.chunk
        } else {
            left
        };
        let count: usize = if room < most {
            room
        } else {
            most
        };
        if count == 0 {
            assert(buf@ =~= old(self)@.delivered(room as nat) + old(buf)@.skip(0));
            if room > 0 {
                self.hung_up = true;
                assert(self@ =~= old(self)@.after_read(room as nat));
                return self.stall();
            }
            assert(self@.owed.skip(0) =~= self@.owed);
            assert(self@ =~= old(self)@.after_read(room as nat));
            return Ok(0);
        }
        assert(self@.owed.len() >= count > 0);
        assert(0 < self.begun <= self.replies@.len() && self.cursor <= self.replies@[self.begun
            - 1]@.len());
        let start: usize = self.cursor;
        let reply: &Vec<u8> = &self.replies[self.begun - 1];
        let total: usize = reply.len();
        assert(reply@.skip(start as int).len() >= count);
        let mut j: usize = 0;
        while j < count
            invariant
                j <= count <= room,
                room == buf@.len(),
                room == old(buf)@.len(),
                start + count <= total == reply@.len(),
                forall|i: int| 0 <= i < j ==> buf@[i] == reply@[start + i],
                forall|i: int| j <= i < room ==> buf@[i] == old(buf)@[i],
            decreases count - j,
        {
            buf[j] = reply[start + j];
            j = j + 1;
        }
        self.cursor = start + count;
        assert(self@ =~= old(self)@.after_read(room as nat));
        assert(buf@ =~= old(self)@.delivered(room as nat) + old(buf)@.skip(count as int));
        Ok(count)
    }

    /// Notes how much has been written, unless the device has hung up.
    fn flush(&mut self) -> (done: Result<(), IoError>)
        ensures
            done == old(self)@.flush_outcome(),
            final(self)@ == old(self)@.after_flush(),
    {
        if self.hung_up {
            return match self.ending {
                Ending::Closes => Ok(()),
                Ending::TimesOut => Err(IoError::TimedOut),
                Ending::Fails => Err(IoError::Failed),
            };
        }
        self.flushed = self.inbox.len();
        Ok(())
    }
}

} // verus!
