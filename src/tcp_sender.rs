use std::collections::VecDeque;
use vstd::prelude::*;

use crate::byte_stream::{lemma_stream_ops_keep_counters, ByteStream, StreamModel};
use crate::tcp_helpers::tcp_config::MAX_PAYLOAD_SIZE;
use crate::tcp_helpers::tcp_header::TCPHeader;
use crate::tcp_helpers::tcp_segment::{SegmentModel, TCPSegment};
use crate::util::buffer::Buffer;
use crate::wrapping_integers::{unwrap_spec, wrap_spec, WrappingInt32};

verus! {

/// Relies on rand::random: an arbitrary value; nothing is promised of it.
pub assume_specification<T>[ rand::random::<T> ]() -> (r: T)
    where
        rand::distributions::Standard: rand::distributions::Distribution<T>,
;

/// Total length in sequence space of the outstanding segments.
pub open spec fn sum_len(out: Seq<(nat, SegmentModel)>) -> nat
    decreases out.len(),
{
    if out.len() == 0 {
        0
    } else {
        sum_len(out.drop_last()) + out.last().1.length_in_sequence_space()
    }
}

/// How many segments at the front of `out` lie wholly before `abs_ack`.
pub open spec fn acked_count(out: Seq<(nat, SegmentModel)>, abs_ack: nat) -> nat
    decreases out.len(),
{
    if out.len() == 0 {
        0
    } else if out[0].0 + out[0].1.length_in_sequence_space() <= abs_ack {
        1 + acked_count(out.skip(1), abs_ack)
    } else {
        0
    }
}

pub open spec fn min_nat(a: nat, b: nat) -> nat {
    if a <= b { a } else { b }
}

/// The abstract state of a sender.
pub struct SenderModel {
    /// The outbound stream the application writes into.
    pub stream: StreamModel,
    pub isn: u32,
    pub initial_rto: nat,
    /// Absolute seqno of the next byte to send.
    pub next_seqno: nat,
    /// The window the peer last advertised.
    pub window_size: nat,
    pub bytes_in_flight: nat,
    pub syn_sent: bool,
    pub fin_sent: bool,
    /// Sent and not yet fully acknowledged: (absolute seqno, segment), oldest first.
    pub outstanding: Seq<(nat, SegmentModel)>,
    /// Segments handed out for transmission, oldest first.
    pub segments_out: Seq<SegmentModel>,
    pub timer_running: bool,
    pub elapsed: nat,
    /// Current retransmission timeout.
    pub rto: nat,
    pub retransmissions: nat,
}

impl SenderModel {
    /// A zero window is probed as if it were one byte wide.
    pub open spec fn effective_window(self) -> nat {
        if self.window_size == 0 {
            1
        } else {
            self.window_size
        }
    }

    /// The segment `fill_window` builds next.
    pub open spec fn next_segment(self) -> SegmentModel {
        let syn = !self.syn_sent;
        let allowed = self.effective_window() - self.bytes_in_flight - (if syn { 1int } else { 0int });
        let n = min_nat(MAX_PAYLOAD_SIZE as nat, min_nat(allowed as nat, self.stream.buffer.len()));
        let payload = self.stream.peek(n);
        let fin = !self.fin_sent && self.stream.pop(n).eof() && payload.len() + (if syn {
            1int
        } else {
            0int
        }) + self.bytes_in_flight < self.effective_window();
        SegmentModel {
            header: TCPHeader {
                syn,
                fin,
                seqno: WrappingInt32(wrap_spec(self.next_seqno as int, self.isn)),
                ..TCPHeader::zeroed()
            },
            payload,
        }
    }

    /// The state after sending `seg` (which `next_segment` built).
    pub open spec fn sent(self, seg: SegmentModel) -> SenderModel {
        let len = seg.length_in_sequence_space();
        SenderModel {
            stream: self.stream.pop(seg.payload.len()),
            next_seqno: self.next_seqno + len,
            bytes_in_flight: self.bytes_in_flight + len,
            syn_sent: self.syn_sent || seg.header.syn,
            fin_sent: self.fin_sent || seg.header.fin,
            outstanding: self.outstanding.push((self.next_seqno, seg)),
            segments_out: self.segments_out.push(seg),
            timer_running: true,
            elapsed: if self.timer_running {
                self.elapsed
            } else {
                0
            },
            ..self
        }
    }

    /// The state after sending segments while the window has room and there
    /// is something to send. (A segment never overruns the window when the
    /// state is well-formed; that case stops only so the recursion is
    /// evidently finite.)
    pub open spec fn fill_window(self) -> SenderModel
        decreases self.effective_window() - self.bytes_in_flight,
    {
        if self.bytes_in_flight >= self.effective_window() {
            self
        } else {
            let seg = self.next_segment();
            if seg.length_in_sequence_space() == 0 || self.bytes_in_flight
                + seg.length_in_sequence_space() > self.effective_window() {
                self
            } else {
                self.sent(seg).fill_window()
            }
        }
    }

    /// The state after an acknowledgment of everything before `abs_ack`,
    /// advertising `window`.
    pub open spec fn ack_received(self, abs_ack: nat, window: nat) -> SenderModel {
        if abs_ack > self.next_seqno {
            self
        } else {
            let k = acked_count(self.outstanding, abs_ack);
            let bif = (self.bytes_in_flight - sum_len(self.outstanding.take(k as int))) as nat;
            SenderModel {
                outstanding: self.outstanding.skip(k as int),
                bytes_in_flight: bif,
                rto: if k > 0 {
                    self.initial_rto
                } else {
                    self.rto
                },
                retransmissions: if k > 0 {
                    0
                } else {
                    self.retransmissions
                },
                timer_running: if bif == 0 {
                    false
                } else if k > 0 {
                    true
                } else {
                    self.timer_running
                },
                elapsed: if k > 0 {
                    0
                } else {
                    self.elapsed
                },
                window_size: window,
                ..self
            }.fill_window()
        }
    }

    /// The state after `ms` milliseconds: on a timeout the oldest outstanding
    /// segment is sent again and, unless the peer's window is zero, the
    /// timeout doubles.
    pub open spec fn tick(self, ms: nat) -> SenderModel {
        let elapsed = if self.timer_running {
            min_nat(self.elapsed + ms, u64::MAX as nat)
        } else {
            self.elapsed
        };
        if self.timer_running && elapsed >= self.rto {
            SenderModel {
                segments_out: self.segments_out.push(self.outstanding[0].1),
                retransmissions: if self.window_size > 0 {
                    min_nat(self.retransmissions + 1, usize::MAX as nat)
                } else {
                    self.retransmissions
                },
                rto: if self.window_size > 0 {
                    min_nat(2 * self.rto, u64::MAX as nat)
                } else {
                    self.rto
                },
                elapsed: 0,
                ..self
            }
        } else {
            SenderModel { elapsed, ..self }
        }
    }

    /// The segment `send_empty_segment` produces.
    pub open spec fn empty_segment(self) -> SegmentModel {
        SegmentModel {
            header: TCPHeader {
                seqno: WrappingInt32(wrap_spec(self.next_seqno as int, self.isn)),
                ..TCPHeader::zeroed()
            },
            payload: Seq::empty(),
        }
    }

    /// The bookkeeping of the sender is consistent.
    pub open spec fn wf(self) -> bool {
        &&& self.stream.wf()
        &&& self.stream.bytes_written + 2 <= u64::MAX
        &&& self.bytes_in_flight == sum_len(self.outstanding)
        &&& self.bytes_in_flight <= 0xffff
        &&& self.window_size <= 0xffff
        &&& self.next_seqno == (if self.syn_sent { 1nat } else { 0nat }) + self.stream.bytes_read + (
        if self.fin_sent {
            1nat
        } else {
            0nat
        })
        &&& forall|i: int| 0 <= i < self.outstanding.len() ==> #[trigger] self.outstanding[i].0
            + sum_len(self.outstanding.skip(i)) == self.next_seqno
        &&& forall|i: int| 0 <= i < self.outstanding.len() ==> {
            &&& #[trigger] self.outstanding[i].1.length_in_sequence_space() > 0
            &&& self.outstanding[i].1.payload.len() <= MAX_PAYLOAD_SIZE
        }
        &&& (self.timer_running <==> self.outstanding.len() > 0)
        &&& (!self.syn_sent ==> self.next_seqno == 0)
        &&& (self.fin_sent ==> self.stream.ended)
        &&& self.initial_rto <= u64::MAX
        &&& self.rto <= u64::MAX
        &&& self.elapsed <= u64::MAX
        &&& self.retransmissions <= usize::MAX
    }
}

/// A countdown driven by the ticks it is given.
pub struct Timer {
    time_count: u64,
    time_out: u64,
    is_running: bool,
}

impl Timer {
    fn new(time_out: u64) -> (r: Self)
        ensures
            r.time_count == 0,
            r.time_out == time_out,
            !r.is_running,
    {
        Timer { time_count: 0, time_out, is_running: false }
    }

    fn stop(&mut self)
        ensures
            final(self).time_count == old(self).time_count,
            final(self).time_out == old(self).time_out,
            !final(self).is_running,
    {
        self.is_running = false;
    }

    fn set_time_out(&mut self, time_out: u64)
        ensures
            final(self).time_count == old(self).time_count,
            final(self).time_out == time_out,
            final(self).is_running == old(self).is_running,
    {
        self.time_out = time_out;
    }

    fn get_time_out(&self) -> (r: u64)
        ensures
            r == self.time_out,
    {
        self.time_out
    }

    fn restart(&mut self)
        ensures
            final(self).time_count == 0,
            final(self).time_out == old(self).time_out,
            final(self).is_running,
    {
        self.time_count = 0;
        self.is_running = true;
    }

    /// Counts `ms` if running; past the largest count the count stays there,
    /// which is as expired as any larger count would be.
    fn tick(&mut self, ms_since_last_tick: u64)
        ensures
            final(self).time_count == if old(self).is_running {
                min_nat((old(self).time_count + ms_since_last_tick) as nat, u64::MAX as nat)
            } else {
                old(self).time_count as nat
            },
            final(self).time_out == old(self).time_out,
            final(self).is_running == old(self).is_running,
    {
        if self.is_running {
            self.time_count = self.time_count.saturating_add(ms_since_last_tick);
        }
    }

    fn check(&self) -> (r: bool)
        ensures
            r == (self.is_running && self.time_count >= self.time_out),
    {
        self.is_running && self.time_count >= self.time_out
    }

    fn is_running(&self) -> (r: bool)
        ensures
            r == self.is_running,
    {
        self.is_running
    }
}

impl Timer {
    pub closed spec fn count(&self) -> nat {
        self.time_count as nat
    }

    pub closed spec fn timeout(&self) -> nat {
        self.time_out as nat
    }

    pub closed spec fn running(&self) -> bool {
        self.is_running
    }
}

impl Default for Timer {
    fn default() -> (r: Self)
        ensures
            r.count() == 0,
            r.timeout() == 0,
            !r.running(),
    {
        Timer { time_count: 0, time_out: 0, is_running: false }
    }
}

pub open spec fn segments_view(q: Seq<TCPSegment>) -> Seq<SegmentModel> {
    q.map_values(|s: TCPSegment| s@)
}

pub open spec fn outstanding_view(q: Seq<(u64, TCPSegment)>) -> Seq<(nat, SegmentModel)> {
    q.map_values(|p: (u64, TCPSegment)| (p.0 as nat, p.1@))
}

/// The sending half of a TCP connection.
pub struct TCPSender {
    isn: WrappingInt32,
    /// Segments to transmit, oldest first; the owner drains it.
    pub segments_out: VecDeque<TCPSegment>,
    initial_rto: u64,
    stream: ByteStream,
    next_seqno: u64,
    window_size: u16,
    bytes_in_flight: usize,
    set_syn: bool,
    set_fin: bool,
    outstanding: VecDeque<(u64, TCPSegment)>,
    timer: Timer,
    retrans_count: usize,
}

impl View for TCPSender {
    type V = SenderModel;

    closed spec fn view(&self) -> SenderModel {
        SenderModel {
            stream: self.stream@,
            isn: self.isn.0,
            initial_rto: self.initial_rto as nat,
            next_seqno: self.next_seqno as nat,
            window_size: self.window_size as nat,
            bytes_in_flight: self.bytes_in_flight as nat,
            syn_sent: self.set_syn,
            fin_sent: self.set_fin,
            outstanding: outstanding_view(self.outstanding@),
            segments_out: segments_view(self.segments_out@),
            timer_running: self.timer.is_running,
            elapsed: self.timer.time_count as nat,
            rto: self.timer.time_out as nat,
            retransmissions: self.retrans_count as nat,
        }
    }
}

proof fn lemma_sum_push(out: Seq<(nat, SegmentModel)>, x: (nat, SegmentModel))
    ensures
        sum_len(out.push(x)) == sum_len(out) + x.1.length_in_sequence_space(),
{
    assert(out.push(x).drop_last() =~= out);
}

proof fn lemma_sum_front(out: Seq<(nat, SegmentModel)>)
    requires
        out.len() > 0,
    ensures
        sum_len(out) == out[0].1.length_in_sequence_space() + sum_len(out.skip(1)),
    decreases out.len(),
{
    if out.len() > 1 {
        lemma_sum_front(out.drop_last());
        assert(out.drop_last().skip(1) =~= out.skip(1).drop_last());
    } else {
        assert(out.skip(1) =~= Seq::<(nat, SegmentModel)>::empty());
        assert(out.drop_last() =~= Seq::<(nat, SegmentModel)>::empty());
    }
}

/// Appending a segment that starts at `next` keeps the queue contiguous up to
/// the new next seqno.
proof fn lemma_contiguous_push(out: Seq<(nat, SegmentModel)>, next: nat, seg: SegmentModel)
    requires
        forall|i: int| 0 <= i < out.len() ==> #[trigger] out[i].0 + sum_len(out.skip(i)) == next,
    ensures
        forall|i: int| 0 <= i < out.len() + 1 ==> #[trigger] out.push((next, seg))[i].0 + sum_len(
            out.push((next, seg)).skip(i),
        ) == next + seg.length_in_sequence_space(),
{
    let x = (next, seg);
    assert forall|i: int| 0 <= i < out.len() + 1 implies #[trigger] out.push(x)[i].0 + sum_len(
        out.push(x).skip(i),
    ) == next + seg.length_in_sequence_space() by {
        assert(out.push(x).skip(i) =~= out.skip(i).push(x));
        lemma_sum_push(out.skip(i), x);
        if i == out.len() {
            assert(out.skip(i) =~= Seq::<(nat, SegmentModel)>::empty());
        }
    };
}

/// Dropping acknowledged segments from the front keeps the queue contiguous.
proof fn lemma_contiguous_skip(out: Seq<(nat, SegmentModel)>, next: nat, k: int)
    requires
        0 <= k <= out.len(),
        forall|i: int| 0 <= i < out.len() ==> #[trigger] out[i].0 + sum_len(out.skip(i)) == next,
    ensures
        forall|i: int| 0 <= i < out.skip(k).len() ==> #[trigger] out.skip(k)[i].0 + sum_len(
            out.skip(k).skip(i),
        ) == next,
{
    assert forall|i: int| 0 <= i < out.skip(k).len() implies #[trigger] out.skip(k)[i].0 + sum_len(
        out.skip(k).skip(i),
    ) == next by {
        assert(out.skip(k).skip(i) =~= out.skip(k + i));
        assert(out[k + i].0 + sum_len(out.skip(k + i)) == next);
    };
}

/// A queue of segments that each occupy sequence space is empty exactly
/// when its total length is zero.
proof fn lemma_sum_zero(out: Seq<(nat, SegmentModel)>)
    requires
        forall|i: int| 0 <= i < out.len() ==> #[trigger] out[i].1.length_in_sequence_space() > 0,
    ensures
        (sum_len(out) == 0) <==> (out.len() == 0),
{
    if out.len() > 0 {
        lemma_sum_front(out);
    }
}

/// Sending the next segment, when it is not empty and fits the window, keeps
/// the sender consistent.
proof fn lemma_sent_wf(s: SenderModel)
    requires
        s.wf(),
        s.bytes_in_flight < s.effective_window(),
        s.next_segment().length_in_sequence_space() > 0,
    ensures
        s.bytes_in_flight + s.next_segment().length_in_sequence_space() <= s.effective_window(),
        s.sent(s.next_segment()).wf(),
{
    let seg = s.next_segment();
    let t = s.sent(seg);
    lemma_stream_ops_keep_counters(s.stream, Seq::empty(), seg.payload.len());
    lemma_sum_push(s.outstanding, (s.next_seqno, seg));
    lemma_contiguous_push(s.outstanding, s.next_seqno, seg);
    assert forall|i: int| 0 <= i < t.outstanding.len() implies {
        &&& #[trigger] t.outstanding[i].1.length_in_sequence_space() > 0
        &&& t.outstanding[i].1.payload.len() <= MAX_PAYLOAD_SIZE
    } by {
        if i < s.outstanding.len() {
            assert(t.outstanding[i] == s.outstanding[i]);
        }
    };
}

/// An acknowledgment of more than has been sent is ignored: nothing changes.
pub proof fn lemma_ack_beyond_next_ignored(m: SenderModel, abs_ack: nat, window: nat)
    requires
        abs_ack > m.next_seqno,
    ensures
        m.ack_received(abs_ack, window) == m,
{
}

impl TCPSender {
    /// At all times the bytes in flight are the total length in sequence
    /// space of the outstanding segments, and no more than the next seqno.
    pub proof fn lemma_bookkeeping(&self)
        requires
            self.wf(),
        ensures
            self@.wf(),
            self@.bytes_in_flight == sum_len(self@.outstanding),
            self@.next_seqno >= self@.bytes_in_flight,
    {
        let out = self@.outstanding;
        if out.len() > 0 {
            assert(out.skip(0) =~= out);
            assert(out[0].0 + sum_len(out.skip(0)) == self@.next_seqno);
        }
    }

    pub closed spec fn wf(&self) -> bool {
        &&& self.stream.wf()
        &&& self@.wf()
    }

    /// A sender whose outbound stream holds up to `capacity` bytes, with
    /// initial retransmission timeout `retx_timeout` and, unless one is
    /// given, a random initial sequence number.
    pub fn new(capacity: usize, retx_timeout: u64, fixed_isn: Option<WrappingInt32>) -> (r: Self)
        requires
            capacity < usize::MAX,
        ensures
            r.wf(),
            r@.stream == StreamModel::fresh(capacity as nat),
            fixed_isn matches Some(isn) ==> r@.isn == isn.0,
            r@.initial_rto == retx_timeout,
            r@.rto == retx_timeout,
            r@.next_seqno == 0,
            r@.window_size == 1,
            r@.bytes_in_flight == 0,
            !r@.syn_sent,
            !r@.fin_sent,
            r@.outstanding.len() == 0,
            r@.segments_out.len() == 0,
            !r@.timer_running,
            r@.elapsed == 0,
            r@.retransmissions == 0,
    {
        let isn = match fixed_isn {
            Some(v) => v,
            None => WrappingInt32::new(rand::random::<u32>()),
        };
        let r = TCPSender {
            isn,
            segments_out: VecDeque::new(),
            initial_rto: retx_timeout,
            stream: ByteStream::new(capacity),
            next_seqno: 0,
            window_size: 1,
            bytes_in_flight: 0,
            set_syn: false,
            set_fin: false,
            outstanding: VecDeque::new(),
            timer: Timer::new(retx_timeout),
            retrans_count: 0,
        };
        assert(r@.outstanding =~= Seq::<(nat, SegmentModel)>::empty());
        assert(r@.segments_out =~= Seq::<SegmentModel>::empty());
        r
    }

    /// Builds the next segment and sends it, unless it would be empty.
    #[verifier::rlimit(40)]
    fn send_next(&mut self, win: usize) -> (sent: bool)
        requires
            old(self).wf(),
            win == old(self)@.effective_window(),
            old(self)@.bytes_in_flight < win,
        ensures
            final(self).wf(),
            sent ==> old(self)@.next_segment().length_in_sequence_space() > 0,
            sent ==> old(self)@.bytes_in_flight + old(self)@.next_segment().length_in_sequence_space()
                <= old(self)@.effective_window(),
            sent ==> final(self)@ == old(self)@.sent(old(self)@.next_segment()),
            !sent ==> old(self)@.next_segment().length_in_sequence_space() == 0,
            !sent ==> final(self)@ == old(self)@,
    {
        let ghost s0 = self@;
        let ghost seg_model = s0.next_segment();
        let syn: bool = !self.set_syn;
        let syn_n: usize = if syn { 1 } else { 0 };
        let allowed: usize = win - self.bytes_in_flight - syn_n;
        let buffered: usize = self.stream.buffer_size();
        let m1: usize = if allowed < buffered { allowed } else { buffered };
        let n: usize = if MAX_PAYLOAD_SIZE < m1 { MAX_PAYLOAD_SIZE } else { m1 };
        let data: Vec<u8> = self.stream.read(n);
        let fin: bool = !self.set_fin && self.stream.eof() && data.len() + syn_n + self.bytes_in_flight
            < win;
        let len: usize = data.len() + syn_n + if fin { 1 } else { 0 };
        assert(data@ == seg_model.payload);
        assert(fin == seg_model.header.fin);
        if len == 0 {
            assert(s0.stream.buffer.skip(0) =~= s0.stream.buffer);
            assert(self@ == s0);
            return false;
        }
        let mut header = TCPHeader::default();
        header.syn = syn;
        header.fin = fin;
        header.seqno = WrappingInt32::wrap(self.next_seqno, self.isn);
        let seg = TCPSegment::new(header, Buffer::new_form_vec(data));
        assert(seg@ == seg_model);
        self.segments_out.push_back(seg.copy());
        if !self.timer.is_running() {
            self.timer.restart();
        }
        let ghost out0 = s0.outstanding;
        self.outstanding.push_back((self.next_seqno, seg));
        self.next_seqno = self.next_seqno + len as u64;
        self.bytes_in_flight = self.bytes_in_flight + len;
        if syn {
            self.set_syn = true;
        }
        if fin {
            self.set_fin = true;
        }
        proof {
            assert(self@.outstanding =~= out0.push((s0.next_seqno, seg_model)));
            assert(self@.segments_out =~= s0.segments_out.push(seg_model));
            assert(self@ == s0.sent(seg_model));
            lemma_sent_wf(s0);
        }
        true
    }

    /// Sends segments while the peer's window has room and there is
    /// something to send: the SYN first, then stream bytes, then the FIN.
    pub fn fill_window(&mut self)
        requires
            old(self).wf(),
        ensures
            final(self).wf(),
            final(self)@ == old(self)@.fill_window(),
    {
        let win: usize = if self.window_size == 0 {
            1
        } else {
            self.window_size as usize
        };
        let mut done = false;
        while !done && self.bytes_in_flight < win
            invariant
                self.wf(),
                win == self@.effective_window(),
                self@.fill_window() == old(self)@.fill_window(),
                done ==> self@.fill_window() == self@,
            decreases win - self.bytes_in_flight, if done { 0int } else { 1int },
        {
            let sent = self.send_next(win);
            if !sent {
                done = true;
            }
        }
    }

    /// Drops the segments at the front of the queue that lie wholly before
    /// `abs`; returns how many there were.
    fn drop_acked(&mut self, abs: u64) -> (k: Ghost<int>)
        requires
            old(self).wf(),
        ensures
            final(self).stream.wf(),
            k@ == acked_count(old(self)@.outstanding, abs as nat),
            0 <= k@ <= old(self)@.outstanding.len(),
            final(self)@ == (SenderModel {
                outstanding: old(self)@.outstanding.skip(k@),
                bytes_in_flight: (old(self)@.bytes_in_flight - sum_len(
                    old(self)@.outstanding.take(k@),
                )) as nat,
                ..old(self)@
            }),
            sum_len(old(self)@.outstanding) == sum_len(old(self)@.outstanding.take(k@)) + sum_len(
                old(self)@.outstanding.skip(k@),
            ),
    {
        let ghost s0 = self@;
        let ghost out0 = s0.outstanding;
        let ghost mut j: int = 0;
        assert(out0.skip(0) =~= out0);
        assert(out0.take(0) =~= Seq::<(nat, SegmentModel)>::empty());
        assert(self@ == (SenderModel { outstanding: out0.skip(0), bytes_in_flight: (s0.bytes_in_flight - sum_len(out0.take(0))) as nat, ..s0 }));
        let mut going = true;
        while going
            invariant
                self.stream.wf(),
                s0.wf(),
                out0 == s0.outstanding,
                0 <= j <= out0.len(),
                self@ == (SenderModel {
                    outstanding: out0.skip(j),
                    bytes_in_flight: (s0.bytes_in_flight - sum_len(out0.take(j))) as nat,
                    ..s0
                }),
                sum_len(out0) == sum_len(out0.take(j)) + sum_len(out0.skip(j)),
                acked_count(out0, abs as nat) == j + acked_count(out0.skip(j), abs as nat),
                !going ==> acked_count(out0.skip(j), abs as nat) == 0,
            decreases self.outstanding.len(), if going { 1int } else { 0int },
        {
            if self.outstanding.len() == 0 {
                going = false;
            } else {
                proof {
                    assert(outstanding_view(self.outstanding@)[0] == (
                        self.outstanding@[0].0 as nat,
                        self.outstanding@[0].1@,
                    ));
                    assert(out0.skip(j)[0] == out0[j]);
                    assert(out0[j].0 + sum_len(out0.skip(j)) == s0.next_seqno);
                    assert(out0[j].1.payload.len() <= MAX_PAYLOAD_SIZE);
                    lemma_sum_front(out0.skip(j));
                }
                let front_seq: u64 = self.outstanding[0].0;
                let front_len: usize = self.outstanding[0].1.length_in_sequence_space();
                if front_seq + front_len as u64 <= abs {
                    self.bytes_in_flight = self.bytes_in_flight - front_len;
                    self.outstanding.pop_front();
                    proof {
                        assert(out0.take(j + 1) =~= out0.take(j).push(out0[j]));
                        lemma_sum_push(out0.take(j), out0[j]);
                        assert(out0.skip(j).skip(1) =~= out0.skip(j + 1));
                        assert(self@.outstanding =~= out0.skip(j + 1));
                        j = j + 1;
                    }
                } else {
                    going = false;
                }
            }
        }
        Ghost(j)
    }

    /// Takes in the peer's acknowledgment and window.
    pub fn ack_received(&mut self, ackno: WrappingInt32, window_size: u16)
        requires
            old(self).wf(),
        ensures
            final(self).wf(),
            final(self)@ == old(self)@.ack_received(
                unwrap_spec(ackno.0, old(self)@.isn, old(self)@.next_seqno as u64) as nat,
                window_size as nat,
            ),
    {
        let abs: u64 = ackno.unwrap(self.isn, self.next_seqno);
        if abs > self.next_seqno {
            return;
        }
        let ghost s0 = self@;
        let ghost out0 = s0.outstanding;
        let before: usize = self.bytes_in_flight;
        let k = self.drop_acked(abs);
        let acked = self.bytes_in_flight < before;
        proof {
            if k@ > 0 {
                lemma_sum_front(out0);
                assert(out0.take(k@)[0] == out0[0]);
                lemma_sum_front(out0.take(k@));
            } else {
                assert(out0.take(0) =~= Seq::<(nat, SegmentModel)>::empty());
            }
        }
        if acked {
            self.retrans_count = 0;
            self.timer.set_time_out(self.initial_rto);
            self.timer.restart();
        }
        if self.bytes_in_flight == 0 {
            self.timer.stop();
        }
        self.window_size = window_size;
        proof {
            lemma_contiguous_skip(out0, s0.next_seqno, k@);
            assert forall|i: int| 0 <= i < out0.skip(k@).len() implies
                #[trigger] out0.skip(k@)[i].1.length_in_sequence_space() > 0 by {
                assert(out0.skip(k@)[i] == out0[k@ + i]);
            };
            lemma_sum_zero(out0.skip(k@));
        }
        self.fill_window();
    }

    /// Lets `ms_since_last_tick` milliseconds pass; on a timeout, sends the
    /// oldest outstanding segment again.
    pub fn tick(&mut self, ms_since_last_tick: u64)
        requires
            old(self).wf(),
        ensures
            final(self).wf(),
            final(self)@ == old(self)@.tick(ms_since_last_tick as nat),
    {
        let ghost s0 = self@;
        self.timer.tick(ms_since_last_tick);
        if self.timer.check() {
            let seg = self.outstanding[0].1.copy();
            self.segments_out.push_back(seg);
            if self.window_size > 0 {
                self.retrans_count = self.retrans_count.saturating_add(1);
                let t: u64 = self.timer.get_time_out();
                let doubled: u64 = if t <= u64::MAX / 2 { t * 2 } else { u64::MAX };
                self.timer.set_time_out(doubled);
            }
            self.timer.restart();
            assert(self@.segments_out =~= s0.segments_out.push(s0.outstanding[0].1));
        }
    }

    /// Queues a segment with the current seqno and nothing else, for the
    /// owner to use as a bare acknowledgment; it is not tracked.
    pub fn send_empty_segment(&mut self)
        requires
            old(self).wf(),
        ensures
            final(self).wf(),
            final(self)@ == (SenderModel {
                segments_out: old(self)@.segments_out.push(old(self)@.empty_segment()),
                ..old(self)@
            }),
    {
        let mut seg = TCPSegment::default();
        seg.header.seqno = self.next_seqno();
        self.segments_out.push_back(seg);
        assert(self@.segments_out =~= old(self)@.segments_out.push(old(self)@.empty_segment()));
    }

    pub fn bytes_in_flight(&self) -> (r: usize)
        requires
            self.wf(),
        ensures
            r == self@.bytes_in_flight,
    {
        self.bytes_in_flight
    }

    pub fn consecutive_retransmissions(&self) -> (r: usize)
        requires
            self.wf(),
        ensures
            r == self@.retransmissions,
    {
        self.retrans_count
    }

    pub fn segments_out(&self) -> (r: &VecDeque<TCPSegment>)
        ensures
            segments_view(r@) == self@.segments_out,
    {
        &self.segments_out
    }

    /// Absolute seqno of the next byte to send.
    pub fn next_seqno_absolute(&self) -> (r: u64)
        requires
            self.wf(),
        ensures
            r == self@.next_seqno,
    {
        self.next_seqno
    }

    /// Wire seqno of the next byte to send.
    pub fn next_seqno(&self) -> (r: WrappingInt32)
        requires
            self.wf(),
        ensures
            r.0 == wrap_spec(self@.next_seqno as int, self@.isn),
    {
        WrappingInt32::wrap(self.next_seqno, self.isn)
    }

    /// The outbound stream.
    pub fn stream_in(&self) -> (r: &ByteStream)
        requires
            self.wf(),
        ensures
            r.wf(),
            r@ == self@.stream,
    {
        &self.stream
    }

    /// Writes into the outbound stream; returns how many bytes it took.
    pub fn write_input(&mut self, data: &[u8]) -> (n: usize)
        requires
            old(self).wf(),
            old(self)@.stream.bytes_written + data@.len() + 2 <= u64::MAX,
            old(self)@.stream.bytes_written + data@.len() <= usize::MAX,
        ensures
            final(self).wf(),
            n == old(self)@.stream.accepted(data@),
            final(self)@ == (SenderModel { stream: old(self)@.stream.write(data@), ..old(self)@ }),
    {
        self.stream.write(data)
    }

    /// Closes the outbound stream.
    pub fn end_input(&mut self)
        requires
            old(self).wf(),
        ensures
            final(self).wf(),
            final(self)@ == (SenderModel { stream: old(self)@.stream.end_input(), ..old(self)@ }),
    {
        self.stream.end_input();
    }

    /// Marks the outbound stream as failed.
    pub fn set_error(&mut self)
        requires
            old(self).wf(),
        ensures
            final(self).wf(),
            final(self)@ == (SenderModel { stream: old(self)@.stream.set_error(), ..old(self)@ }),
    {
        self.stream.set_error();
    }
}

} // verus!
