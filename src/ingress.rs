use vstd::prelude::*;
use crate::framing::{process_buffer_newlines, process_buffer_final, frame, frame_final, pdu_bytes};
use crate::pdu::Pdu;

verus! {

/// Time a TCP connection may stay silent (ms).
pub const TCP_READ_TIMEOUT_MS: u64 = 62000;
/// Free space kept in a connection's read buffer.
pub const READ_BUFFER: usize = 8192;
/// Size of the datagram receive buffer.
pub const UDP_BUFFER: usize = 65536;

/// How a read on a TCP connection ended.
pub enum ReadEvent {
    /// Bytes were appended to the connection's buffer.
    Data,
    /// The peer closed the connection.
    Eof,
    /// The read timed out.
    TimedOut,
    /// The server is shutting down.
    Shutdown,
    /// The read failed.
    Failed,
}

/// What a connection handler does after a read.
#[derive(PartialEq, Eq, Structural, Debug)]
pub enum IngressAction {
    /// Read again.
    Continue,
    /// Close the connection.
    Close,
    /// Write a shutdown notice, then close.
    NotifyAndClose,
}

/// The handler's decision after a read: new data is framed and the residual
/// kept; at the end of the stream the residual counts as a last line; a
/// timeout, a failure or shutdown closes the connection without framing.
pub fn on_read(buf: &mut Vec<u8>, ev: ReadEvent) -> (r: (Vec<Pdu>, IngressAction))
    ensures
        forall|i: int| 0 <= i < r.0@.len() ==> (#[trigger] r.0@[i])@.wf(),
        match ev {
            ReadEvent::Data => pdu_bytes(r.0@) == frame(old(buf)@).0 && final(buf)@ == frame(old(buf)@).1
                && r.1 == IngressAction::Continue,
            ReadEvent::Eof => pdu_bytes(r.0@) == frame_final(old(buf)@) && final(buf)@.len() == 0
                && r.1 == IngressAction::Close,
            ReadEvent::Shutdown => r.0@.len() == 0 && final(buf)@ == old(buf)@ && r.1
                == IngressAction::NotifyAndClose,
            _ => r.0@.len() == 0 && final(buf)@ == old(buf)@ && r.1 == IngressAction::Close,
        },
{
    match ev {
        ReadEvent::Data => {
            let lines = process_buffer_newlines(buf);
            (lines, IngressAction::Continue)
        },
        ReadEvent::Eof => {
            let lines = process_buffer_final(buf.as_slice());
            buf.clear();
            (lines, IngressAction::Close)
        },
        ReadEvent::Shutdown => (Vec::new(), IngressAction::NotifyAndClose),
        _ => (Vec::new(), IngressAction::Close),
    }
}

/// The lines of one datagram: a datagram is whole, so its residual counts as
/// a last line.
pub fn process_datagram(data: &[u8]) -> (r: Vec<Pdu>)
    ensures
        pdu_bytes(r@) == frame_final(data@),
        forall|i: int| 0 <= i < r@.len() ==> (#[trigger] r@[i])@.wf(),
{
    process_buffer_final(data)
}

} // verus!
