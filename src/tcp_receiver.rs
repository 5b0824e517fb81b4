use vstd::prelude::*;

use crate::byte_stream::ByteStream;
use crate::stream_reassembler::{ReassemblerModel, StreamReassembler};
use crate::tcp_helpers::tcp_segment::{SegmentModel, TCPSegment};
use crate::wrapping_integers::{seq_mod, unwrap_spec, wrap_spec, WrappingInt32};

verus! {

/// The abstract state of a receiver: its reassembler and, once a SYN has
/// arrived, the peer's initial sequence number.
pub struct ReceiverModel {
    pub reassembler: ReassemblerModel,
    pub isn: Option<u32>,
}

/// The checkpoint for unwrapping an incoming seqno: the absolute index of the
/// next byte expected (one past the SYN and the bytes written so far).
pub open spec fn receiver_checkpoint(bytes_written: nat) -> u64 {
    if bytes_written + 1 <= u64::MAX {
        (bytes_written + 1) as u64
    } else {
        u64::MAX
    }
}

impl ReceiverModel {
    pub open spec fn capacity(self) -> nat {
        self.reassembler.stream.capacity
    }

    /// The ackno: one past the SYN, the bytes written, and the FIN once the
    /// whole stream has been assembled.
    pub open spec fn ackno(self) -> Option<WrappingInt32> {
        match self.isn {
            None => None,
            Some(isn) => Some(
                WrappingInt32(
                    wrap_spec(
                        1 + self.reassembler.stream.bytes_written + (if self.reassembler.stream.ended {
                            1int
                        } else {
                            0int
                        }),
                        isn,
                    ),
                ),
            ),
        }
    }

    pub open spec fn window_size(self) -> nat {
        (self.capacity() - self.reassembler.stream.buffer.len()) as nat
    }

    /// The state after a segment arrives. Before the SYN nothing but a SYN is
    /// taken; a segment whose seqno unwraps to the SYN's own slot without
    /// carrying SYN is malformed and dropped.
    pub open spec fn segment_received(self, seg: SegmentModel) -> ReceiverModel {
        if self.isn is None && !seg.header.syn {
            self
        } else {
            let isn = if self.isn is None { seg.header.seqno.0 } else { self.isn->0 };
            let abs = unwrap_spec(
                seg.header.seqno.0,
                isn,
                receiver_checkpoint(self.reassembler.stream.bytes_written),
            );
            if abs == 0 && !seg.header.syn {
                ReceiverModel { isn: Some(isn), ..self }
            } else {
                ReceiverModel {
                    isn: Some(isn),
                    reassembler: self.reassembler.push(
                        seg.payload,
                        abs - 1 + (if seg.header.syn { 1int } else { 0int }),
                        seg.header.fin,
                    ),
                }
            }
        }
    }
}

/// The receiving half of a TCP connection.
pub struct TCPReceiver {
    reassembler: StreamReassembler,
    capacity: usize,
    syn_received: bool,
    isn: WrappingInt32,
}

impl View for TCPReceiver {
    type V = ReceiverModel;

    closed spec fn view(&self) -> ReceiverModel {
        ReceiverModel {
            reassembler: self.reassembler@,
            isn: if self.syn_received {
                Some(self.isn.0)
            } else {
                None
            },
        }
    }
}

/// Adding a multiple of 2^64 does not change the wire value.
proof fn lemma_wrap_mod64(x: int, isn: u32)
    requires
        x >= 0,
    ensures
        wrap_spec(x % 0x1_0000_0000_0000_0000, isn) == wrap_spec(x, isn),
{
    assert((x % 0x1_0000_0000_0000_0000) % seq_mod() == x % seq_mod()) by (nonlinear_arith)
        requires x >= 0;
}

impl TCPReceiver {
    pub closed spec fn wf(&self) -> bool {
        &&& self.reassembler.wf()
        &&& self.reassembler@.wf()
        &&& self.capacity == self.reassembler@.stream.capacity
    }

    /// A receiver whose stream holds up to `capacity` bytes.
    pub fn new(capacity: usize) -> (r: Self)
        requires
            capacity < usize::MAX,
        ensures
            r.wf(),
            r@.reassembler == ReassemblerModel::fresh(capacity as nat),
            r@.isn is None,
    {
        TCPReceiver {
            reassembler: StreamReassembler::new(capacity),
            capacity,
            syn_received: false,
            isn: WrappingInt32::new(0),
        }
    }

    /// The next seqno expected from the peer, once its SYN has arrived.
    pub fn ackno(&self) -> (r: Option<WrappingInt32>)
        requires
            self.wf(),
        ensures
            r == self@.ackno(),
    {
        if !self.syn_received {
            None
        } else {
            let stream = self.reassembler.stream_out();
            let fin: u64 = if stream.input_ended() { 1 } else { 0 };
            let written: u64 = stream.bytes_written() as u64;
            let next: u64 = written.wrapping_add(1 + fin);
            proof {
                lemma_wrap_mod64(written + 1 + fin, self.isn.0);
            }
            Some(WrappingInt32::wrap(next, self.isn))
        }
    }

    /// How many more bytes the receiver can take in.
    pub fn window_size(&self) -> (r: usize)
        requires
            self.wf(),
        ensures
            r == self@.window_size(),
    {
        self.capacity - self.reassembler.stream_out().buffer_size()
    }

    pub fn unassembled_bytes(&self) -> (r: usize)
        requires
            self.wf(),
        ensures
            r == self@.reassembler.pending.dom().len(),
    {
        self.reassembler.unassembled_bytes()
    }

    /// Takes in a segment from the peer.
    pub fn segment_received(&mut self, seg: &TCPSegment)
        requires
            old(self).wf(),
        ensures
            final(self).wf(),
            final(self)@ == old(self)@.segment_received(seg@),
    {
        let header = seg.header;
        if !self.syn_received {
            if !header.syn {
                return;
            }
            self.isn = header.seqno;
            self.syn_received = true;
        }
        let written: u64 = self.reassembler.stream_out().bytes_written() as u64;
        let checkpoint: u64 = written.saturating_add(1);
        let abs: u64 = header.seqno.unwrap(self.isn, checkpoint);
        if abs == 0 && !header.syn {
            return;
        }
        let index: u64 = if header.syn { abs } else { abs - 1 };
        self.reassembler.push_substring(seg.payload.as_slice(), index, header.fin);
    }

    /// The reassembled stream.
    pub fn stream_out(&self) -> (r: &ByteStream)
        requires
            self.wf(),
        ensures
            r.wf(),
            r@ == self@.reassembler.stream,
    {
        self.reassembler.stream_out()
    }

    /// Reads up to `len` bytes of the reassembled stream.
    pub fn read_output(&mut self, len: usize) -> (r: Vec<u8>)
        requires
            old(self).wf(),
        ensures
            final(self).wf(),
            r@ == old(self)@.reassembler.stream.peek(len as nat),
            final(self)@ == (ReceiverModel { reassembler: old(self)@.reassembler.read(len as nat), ..old(self)@ }),
    {
        self.reassembler.read_output(len)
    }

    /// Marks the reassembled stream as failed (the peer reset the connection).
    pub fn set_error(&mut self)
        requires
            old(self).wf(),
        ensures
            final(self).wf(),
            final(self)@ == (ReceiverModel {
                reassembler: ReassemblerModel {
                    stream: old(self)@.reassembler.stream.set_error(),
                    ..old(self)@.reassembler
                },
                ..old(self)@
            }),
    {
        self.reassembler.set_error();
    }
}

} // verus!
