use vstd::prelude::*;
use crate::bytes_util::{first_from, find_from, append_bytes, copy_range};
use crate::framing::NEWLINE;
use crate::pdu::Pdu;

verus! {

/// A combined buffer is handed to the writer once it holds this many bytes.
pub const SEND_THRESHOLD: usize = 10 * 1024;
/// Initial capacity of a combining buffer.
pub const INITIAL_BUF_CAPACITY: usize = SEND_THRESHOLD + 1024;
/// Delay between ticks that flush a non-empty buffer (ms).
pub const SEND_DELAY_MS: u64 = 500;
/// Delay before another connection attempt (ms).
pub const RECONNECT_DELAY_MS: u64 = 5000;
/// Time allowed for one connection attempt (ms).
pub const CONNECT_TIMEOUT_MS: u64 = 15000;

/// What a sender task is woken by.
pub enum SenderEvent {
    /// A line arrived on the receive queue.
    Line(Pdu),
    /// The ticker fired.
    Tick,
    /// Every handle to the receive queue was dropped.
    Closed,
}

/// What a sender task does next.
pub enum SenderAction {
    /// Keep combining.
    Wait,
    /// Hand these bytes to the writer, then keep combining.
    Flush(Vec<u8>),
    /// Hand these bytes to the writer, then stop.
    FlushAndExit(Vec<u8>),
    /// Stop.
    Exit,
}

/// The buffer after one more line, and whether it is handed to the writer.
pub open spec fn combine(buf: Seq<u8>, line: Seq<u8>) -> (Seq<u8>, bool) {
    let b = buf + line.push(NEWLINE);
    if b.len() < SEND_THRESHOLD {
        (b, false)
    } else {
        (b, true)
    }
}

/// Lines, each followed by a newline.
pub open spec fn joined(lines: Seq<Seq<u8>>) -> Seq<u8>
    decreases lines.len(),
{
    if lines.len() == 0 {
        Seq::empty()
    } else {
        joined(lines.drop_last()) + lines.last().push(NEWLINE)
    }
}

/// The buffer after a run of lines, with no flush, or `None` if one of them
/// fills the buffer.
pub open spec fn combine_all(buf: Seq<u8>, lines: Seq<Seq<u8>>) -> Option<Seq<u8>>
    decreases lines.len(),
{
    if lines.len() == 0 {
        Some(buf)
    } else {
        match combine_all(buf, lines.drop_last()) {
            Some(b) => if combine(b, lines.last()).1 {
                None
            } else {
                Some(combine(b, lines.last()).0)
            },
            None => None,
        }
    }
}

/// A run of lines whose bytes and newlines stay under the threshold is
/// combined without a flush into one buffer, which the next tick hands to the
/// writer in a single piece.
pub proof fn lemma_write_combining(lines: Seq<Seq<u8>>)
    requires
        joined(lines).len() < SEND_THRESHOLD,
    ensures
        combine_all(Seq::empty(), lines) == Some(joined(lines)),
    decreases lines.len(),
{
    if lines.len() > 0 {
        let init = lines.drop_last();
        assert(joined(lines).len() >= joined(init).len());
        lemma_write_combining(init);
        assert(Seq::<u8>::empty() + joined(init) =~= joined(init));
    }
}

/// The write-combining buffer of one sender task.
pub struct CombineBuffer {
    buf: Vec<u8>,
}

impl View for CombineBuffer {
    type V = Seq<u8>;

    closed spec fn view(&self) -> Seq<u8> {
        self.buf@
    }
}

impl CombineBuffer {
    /// The buffer never holds a threshold's worth between events.
    pub open spec fn wf(&self) -> bool {
        self@.len() < SEND_THRESHOLD
    }

    /// An empty buffer.
    pub fn new() -> (r: CombineBuffer)
        ensures
            r@ == Seq::<u8>::empty(),
            r.wf(),
    {
        CombineBuffer { buf: Vec::with_capacity(INITIAL_BUF_CAPACITY) }
    }

    /// Takes the buffer's bytes, leaving a fresh empty buffer.
    fn take(&mut self) -> (r: Vec<u8>)
        ensures
            r@ == old(self)@,
            final(self)@ == Seq::<u8>::empty(),
    {
        let mut fresh: Vec<u8> = Vec::with_capacity(INITIAL_BUF_CAPACITY);
        std::mem::swap(&mut self.buf, &mut fresh);
        fresh
    }

    /// The decision of a sender task on one event. A line is appended with a
    /// newline, and the buffer is flushed once it reaches the threshold; a tick
    /// flushes a non-empty buffer; a closed queue flushes what is left and stops.
    pub fn on_event(&mut self, ev: SenderEvent) -> (r: SenderAction)
        requires
            old(self).wf(),
            ev matches SenderEvent::Line(p) ==> p@.bytes.len() < usize::MAX - SEND_THRESHOLD,
        ensures
            final(self).wf(),
            match ev {
                SenderEvent::Line(p) => {
                    let (b, flush) = combine(old(self)@, p@.bytes);
                    if flush {
                        r matches SenderAction::Flush(v) && v@ == b && final(self)@ == Seq::<u8>::empty()
                    } else {
                        r is Wait && final(self)@ == b
                    }
                },
                SenderEvent::Tick => if old(self)@.len() == 0 {
                    r is Wait && final(self)@ == old(self)@
                } else {
                    r matches SenderAction::Flush(v) && v@ == old(self)@ && final(self)@ == Seq::<u8>::empty()
                },
                SenderEvent::Closed => if old(self)@.len() == 0 {
                    r is Exit && final(self)@ == old(self)@
                } else {
                    r matches SenderAction::FlushAndExit(v) && v@ == old(self)@ && final(self)@ == Seq::<u8>::empty()
                },
            },
    {
        match ev {
            SenderEvent::Line(p) => {
                append_bytes(&mut self.buf, p.as_bytes());
                self.buf.push(NEWLINE);
                proof {
                    assert(self@ =~= old(self)@ + p@.bytes.push(NEWLINE));
                }
                if self.buf.len() < SEND_THRESHOLD {
                    SenderAction::Wait
                } else {
                    SenderAction::Flush(self.take())
                }
            },
            SenderEvent::Tick => {
                if self.buf.len() == 0 {
                    SenderAction::Wait
                } else {
                    SenderAction::Flush(self.take())
                }
            },
            SenderEvent::Closed => {
                if self.buf.len() == 0 {
                    SenderAction::Exit
                } else {
                    SenderAction::FlushAndExit(self.take())
                }
            },
        }
    }
}

/// What is left of a buffer after the connection died mid-write: everything
/// after its first newline, the partly sent line being lost; a buffer without
/// a newline is kept whole.
pub open spec fn trim_next_newline(s: Seq<u8>) -> Seq<u8> {
    let k = first_from(s, NEWLINE, 0);
    if k == -1 {
        s
    } else {
        s.subrange(k + 1, s.len() as int)
    }
}

/// Drops the front of `buf` up to and including its first newline.
pub fn trim_to_next_newline(buf: &mut Vec<u8>)
    ensures
        final(buf)@ == trim_next_newline(old(buf)@),
{
    let n = buf.len();
    match find_from(NEWLINE, buf.as_slice(), 0) {
        None => {},
        Some(pos) => {
            let rest = copy_range(buf.as_slice(), pos + 1, n);
            *buf = rest;
        },
    }
}

/// How one write call on the connection ended.
pub enum WriteOutcome {
    /// The call accepted this many bytes.
    Wrote(usize),
    /// The call failed.
    Failed,
}

/// What the writer does after a write call.
#[derive(PartialEq, Eq, Structural, Debug)]
pub enum WriteStep {
    /// The buffer is sent; take the next one.
    Done,
    /// Write the rest on the same connection.
    Continue,
    /// Drop the connection, connect again, then write the rest.
    Reconnect,
}

/// A buffer being written to the connection.
pub struct PendingWrite {
    buf: Vec<u8>,
}

impl View for PendingWrite {
    type V = Seq<u8>;

    closed spec fn view(&self) -> Seq<u8> {
        self.buf@
    }
}

impl PendingWrite {
    /// A buffer handed over by the combining side.
    pub fn new(buf: Vec<u8>) -> (r: PendingWrite)
        ensures
            r@ == buf@,
    {
        PendingWrite { buf }
    }

    /// The bytes still to be written.
    pub fn remaining(&self) -> (r: &[u8])
        ensures
            r@ == self@,
    {
        self.buf.as_slice()
    }

    /// Whether everything has been written.
    pub fn is_done(&self) -> (r: bool)
        ensures
            r == (self@.len() == 0),
    {
        self.buf.len() == 0
    }

    /// The writer's decision after a write call on a non-empty buffer. Bytes
    /// accepted leave the front; when nothing is left the buffer is done. A
    /// failed call, or one that accepted nothing, means the connection died:
    /// the partly sent line is dropped up to the next newline and the writer
    /// reconnects.
    pub fn on_write(&mut self, outcome: WriteOutcome) -> (r: WriteStep)
        requires
            old(self)@.len() > 0,
            outcome matches WriteOutcome::Wrote(n) ==> n <= old(self)@.len(),
        ensures
            match outcome {
                WriteOutcome::Wrote(n) => if n == 0 {
                    r == WriteStep::Reconnect && final(self)@ == trim_next_newline(old(self)@)
                } else {
                    final(self)@ == old(self)@.subrange(n as int, old(self)@.len() as int) && (r
                        == if n == old(self)@.len() {
                        WriteStep::Done
                    } else {
                        WriteStep::Continue
                    })
                },
                WriteOutcome::Failed => r == WriteStep::Reconnect && final(self)@ == trim_next_newline(old(self)@),
            },
    {
        match outcome {
            WriteOutcome::Wrote(n) => {
                if n == 0 {
                    trim_to_next_newline(&mut self.buf);
                    WriteStep::Reconnect
                } else {
                    let rest = copy_range(self.buf.as_slice(), n, self.buf.len());
                    self.buf = rest;
                    if self.buf.len() == 0 {
                        WriteStep::Done
                    } else {
                        WriteStep::Continue
                    }
                }
            },
            WriteOutcome::Failed => {
                trim_to_next_newline(&mut self.buf);
                WriteStep::Reconnect
            },
        }
    }
}

/// How a connection attempt ended.
pub enum ConnectOutcome {
    Connected,
    TimedOut,
    Refused,
    Shutdown,
}

/// What the connect loop does next.
#[derive(PartialEq, Eq, Structural, Debug)]
pub enum ConnectAction {
    /// Use the new connection.
    Use,
    /// Count a failure, wait the reconnect delay, try again.
    RetryAfterDelay,
    /// Stop: the sender is shutting down.
    Abort,
}

/// The connect loop's decision: only shutdown ends it without a connection.
pub fn connect_decision(outcome: ConnectOutcome) -> (r: ConnectAction)
    ensures
        r == match outcome {
            ConnectOutcome::Connected => ConnectAction::Use,
            ConnectOutcome::Shutdown => ConnectAction::Abort,
            _ => ConnectAction::RetryAfterDelay,
        },
{
    match outcome {
        ConnectOutcome::Connected => ConnectAction::Use,
        ConnectOutcome::Shutdown => ConnectAction::Abort,
        _ => ConnectAction::RetryAfterDelay,
    }
}

} // verus!
