use vstd::prelude::*;
use vstd::string::StringExecFns;

use crate::tcp_receiver::{ReceiverModel, TCPReceiver};
use crate::tcp_sender::{SenderModel, TCPSender};
use crate::util::util::{bool_str, bool_text};

verus! {

/// The state of a receiver, summarized.
#[derive(Clone, Copy, Debug, PartialEq, Eq, Structural)]
pub enum TCPReceiverStateSummary {
    Error,
    Listen,
    SynReceived,
    FinReceived,
}

/// The state of a sender, summarized.
#[derive(Clone, Copy, Debug, PartialEq, Eq, Structural)]
pub enum TCPSenderStateSummary {
    Error,
    Closed,
    SynSent,
    SynAcked,
    FinSent,
    FinAcked,
}

/// The official TCP connection states.
#[derive(Clone, Copy, Debug, PartialEq, Eq, Structural)]
pub enum State {
    /// Listening for a peer to connect.
    Listen,
    /// Got the peer's SYN.
    SynRcvd,
    /// Sent a SYN to initiate a connection.
    SynSent,
    /// Three-way handshake complete.
    Established,
    /// The peer has sent a FIN; the connection is half-open.
    CloseWait,
    /// Sent a FIN from CLOSE_WAIT, waiting for its ACK.
    LastAck,
    /// Sent a FIN, not yet acknowledged.
    FinWait1,
    /// The FIN sent has been acknowledged.
    FinWait2,
    /// Got a FIN just after sending one.
    Closing,
    /// Both sides have sent and acknowledged FIN; waiting out 2 MSL.
    TimeWait,
    /// Terminated normally.
    Closed,
    /// Terminated abnormally.
    Reset,
}

pub open spec fn receiver_summary(r: ReceiverModel) -> TCPReceiverStateSummary {
    if r.reassembler.stream.error {
        TCPReceiverStateSummary::Error
    } else if r.isn is None {
        TCPReceiverStateSummary::Listen
    } else if r.reassembler.stream.ended {
        TCPReceiverStateSummary::FinReceived
    } else {
        TCPReceiverStateSummary::SynReceived
    }
}

pub open spec fn sender_summary(s: SenderModel) -> TCPSenderStateSummary {
    if s.stream.error {
        TCPSenderStateSummary::Error
    } else if s.next_seqno == 0 {
        TCPSenderStateSummary::Closed
    } else if s.next_seqno == s.bytes_in_flight {
        TCPSenderStateSummary::SynSent
    } else if !s.stream.eof() {
        TCPSenderStateSummary::SynAcked
    } else if s.next_seqno < s.stream.bytes_written + 2 {
        TCPSenderStateSummary::SynAcked
    } else if s.bytes_in_flight != 0 {
        TCPSenderStateSummary::FinSent
    } else {
        TCPSenderStateSummary::FinAcked
    }
}

pub open spec fn receiver_text(s: TCPReceiverStateSummary) -> Seq<char> {
    match s {
        TCPReceiverStateSummary::Error => "error (connection was reset)"@,
        TCPReceiverStateSummary::Listen => "waiting for SYN: ackno is empty"@,
        TCPReceiverStateSummary::SynReceived => "SYN received (ackno exists), and input to stream hasn't ended"@,
        TCPReceiverStateSummary::FinReceived => "input to stream has ended"@,
    }
}

pub open spec fn sender_text(s: TCPSenderStateSummary) -> Seq<char> {
    match s {
        TCPSenderStateSummary::Error => "error (connection was reset)"@,
        TCPSenderStateSummary::Closed => "waiting for stream to begin (no SYN sent)"@,
        TCPSenderStateSummary::SynSent => "stream started but nothing acknowledged"@,
        TCPSenderStateSummary::SynAcked => "stream ongoing"@,
        TCPSenderStateSummary::FinSent => "stream finished (FIN sent) but not fully acknowledged"@,
        TCPSenderStateSummary::FinAcked => "stream finished and fully acknowledged"@,
    }
}

impl TCPReceiverStateSummary {
    /// A description of the state.
    pub fn to_string(&self) -> (r: String)
        ensures
            r@ == receiver_text(*self),
    {
        match self {
            TCPReceiverStateSummary::Error => String::from_str("error (connection was reset)"),
            TCPReceiverStateSummary::Listen => String::from_str("waiting for SYN: ackno is empty"),
            TCPReceiverStateSummary::SynReceived => String::from_str(
                "SYN received (ackno exists), and input to stream hasn't ended",
            ),
            TCPReceiverStateSummary::FinReceived => String::from_str("input to stream has ended"),
        }
    }
}

impl TCPSenderStateSummary {
    /// A description of the state.
    pub fn to_string(&self) -> (r: String)
        ensures
            r@ == sender_text(*self),
    {
        match self {
            TCPSenderStateSummary::Error => String::from_str("error (connection was reset)"),
            TCPSenderStateSummary::Closed => String::from_str(
                "waiting for stream to begin (no SYN sent)",
            ),
            TCPSenderStateSummary::SynSent => String::from_str(
                "stream started but nothing acknowledged",
            ),
            TCPSenderStateSummary::SynAcked => String::from_str("stream ongoing"),
            TCPSenderStateSummary::FinSent => String::from_str(
                "stream finished (FIN sent) but not fully acknowledged",
            ),
            TCPSenderStateSummary::FinAcked => String::from_str(
                "stream finished and fully acknowledged",
            ),
        }
    }
}

/// A connection's state as seen through its sender, its receiver, and two
/// flags of the connection object.
pub struct TCPState {
    sender: String,
    receiver: String,
    active: bool,
    linger_after_streams_finish: bool,
}

impl TCPState {
    pub closed spec fn sender_description(&self) -> Seq<char> {
        self.sender@
    }

    pub closed spec fn receiver_description(&self) -> Seq<char> {
        self.receiver@
    }

    pub closed spec fn is_active(&self) -> bool {
        self.active
    }

    pub closed spec fn lingers(&self) -> bool {
        self.linger_after_streams_finish
    }

    /// The state in one line.
    pub fn name(&self) -> (r: String)
        ensures
            r@ == "sender=`"@ + self.sender_description() + "`, receiver=`"@
                + self.receiver_description() + "`, active="@ + bool_text(self.is_active())
                + ", linger_after_streams_finish="@ + bool_text(self.lingers()),
    {
        let mut r = String::from_str("sender=`");
        r.append(self.sender.as_str());
        r.append("`, receiver=`");
        r.append(self.receiver.as_str());
        r.append("`, active=");
        r.append(bool_str(self.active));
        r.append(", linger_after_streams_finish=");
        r.append(bool_str(self.linger_after_streams_finish));
        r
    }

    /// The state of a sender and a receiver, with the connection's flags.
    pub fn new(sender: &TCPSender, receiver: &TCPReceiver, active: bool, linger: bool) -> (r: Self)
        requires
            sender.wf(),
            receiver.wf(),
        ensures
            r.sender_description() == sender_text(sender_summary(sender@)),
            r.receiver_description() == receiver_text(receiver_summary(receiver@)),
            r.is_active() == active,
            r.lingers() == linger,
    {
        TCPState {
            sender: TCPState::state_summary_sender(sender).to_string(),
            receiver: TCPState::state_summary_receiver(receiver).to_string(),
            active,
            linger_after_streams_finish: linger,
        }
    }

    /// The summaries that one of the official states stands for.
    pub open spec fn official(
        state: State,
    ) -> (TCPReceiverStateSummary, TCPSenderStateSummary, bool, bool) {
        match state {
            State::Listen => (TCPReceiverStateSummary::Listen, TCPSenderStateSummary::Closed, true, true),
            State::SynRcvd => (
                TCPReceiverStateSummary::SynReceived,
                TCPSenderStateSummary::SynSent,
                true,
                true,
            ),
            State::SynSent => (TCPReceiverStateSummary::Listen, TCPSenderStateSummary::SynSent, true, true),
            State::Established => (
                TCPReceiverStateSummary::SynReceived,
                TCPSenderStateSummary::SynAcked,
                true,
                true,
            ),
            State::CloseWait => (
                TCPReceiverStateSummary::FinReceived,
                TCPSenderStateSummary::SynAcked,
                false,
                true,
            ),
            State::LastAck => (
                TCPReceiverStateSummary::FinReceived,
                TCPSenderStateSummary::FinSent,
                false,
                true,
            ),
            State::Closing => (
                TCPReceiverStateSummary::FinReceived,
                TCPSenderStateSummary::FinSent,
                true,
                true,
            ),
            State::FinWait1 => (
                TCPReceiverStateSummary::SynReceived,
                TCPSenderStateSummary::FinSent,
                true,
                true,
            ),
            State::FinWait2 => (
                TCPReceiverStateSummary::SynReceived,
                TCPSenderStateSummary::FinAcked,
                true,
                true,
            ),
            State::TimeWait => (
                TCPReceiverStateSummary::FinReceived,
                TCPSenderStateSummary::FinAcked,
                true,
                true,
            ),
            State::Reset => (TCPReceiverStateSummary::Error, TCPSenderStateSummary::Error, false, false),
            State::Closed => (
                TCPReceiverStateSummary::FinReceived,
                TCPSenderStateSummary::FinAcked,
                false,
                false,
            ),
        }
    }

    /// The state that one of the official state names stands for: receiver
    /// summary, sender summary, whether to linger, whether active.
    pub fn new_from(state: State) -> (r: Self)
        ensures
            r.receiver_description() == receiver_text(TCPState::official(state).0),
            r.sender_description() == sender_text(TCPState::official(state).1),
            r.lingers() == TCPState::official(state).2,
            r.is_active() == TCPState::official(state).3,
    {
        let (receiver, sender, linger_after_streams_finish, active) = match state {
            State::Listen => (TCPReceiverStateSummary::Listen, TCPSenderStateSummary::Closed, true, true),
            State::SynRcvd => (
                TCPReceiverStateSummary::SynReceived,
                TCPSenderStateSummary::SynSent,
                true,
                true,
            ),
            State::SynSent => (TCPReceiverStateSummary::Listen, TCPSenderStateSummary::SynSent, true, true),
            State::Established => (
                TCPReceiverStateSummary::SynReceived,
                TCPSenderStateSummary::SynAcked,
                true,
                true,
            ),
            State::CloseWait => (
                TCPReceiverStateSummary::FinReceived,
                TCPSenderStateSummary::SynAcked,
                false,
                true,
            ),
            State::LastAck => (
                TCPReceiverStateSummary::FinReceived,
                TCPSenderStateSummary::FinSent,
                false,
                true,
            ),
            State::Closing => (
                TCPReceiverStateSummary::FinReceived,
                TCPSenderStateSummary::FinSent,
                true,
                true,
            ),
            State::FinWait1 => (
                TCPReceiverStateSummary::SynReceived,
                TCPSenderStateSummary::FinSent,
                true,
                true,
            ),
            State::FinWait2 => (
                TCPReceiverStateSummary::SynReceived,
                TCPSenderStateSummary::FinAcked,
                true,
                true,
            ),
            State::TimeWait => (
                TCPReceiverStateSummary::FinReceived,
                TCPSenderStateSummary::FinAcked,
                true,
                true,
            ),
            State::Reset => (TCPReceiverStateSummary::Error, TCPSenderStateSummary::Error, false, false),
            State::Closed => (
                TCPReceiverStateSummary::FinReceived,
                TCPSenderStateSummary::FinAcked,
                false,
                false,
            ),
        };
        TCPState {
            sender: sender.to_string(),
            receiver: receiver.to_string(),
            linger_after_streams_finish,
            active,
        }
    }

    /// Summarizes the state of a receiver.
    pub fn state_summary_receiver(receiver: &TCPReceiver) -> (r: TCPReceiverStateSummary)
        requires
            receiver.wf(),
        ensures
            r == receiver_summary(receiver@),
    {
        if receiver.stream_out().error() {
            return TCPReceiverStateSummary::Error;
        }
        if receiver.ackno().is_none() {
            return TCPReceiverStateSummary::Listen;
        }
        if receiver.stream_out().input_ended() {
            return TCPReceiverStateSummary::FinReceived;
        }
        TCPReceiverStateSummary::SynReceived
    }

    /// Summarizes the state of a sender.
    pub fn state_summary_sender(sender: &TCPSender) -> (r: TCPSenderStateSummary)
        requires
            sender.wf(),
        ensures
            r == sender_summary(sender@),
    {
        proof {
            sender.lemma_bookkeeping();
        }
        let stream = sender.stream_in();
        if stream.error() {
            TCPSenderStateSummary::Error
        } else if sender.next_seqno_absolute() == 0 {
            TCPSenderStateSummary::Closed
        } else if sender.next_seqno_absolute() == sender.bytes_in_flight() as u64 {
            TCPSenderStateSummary::SynSent
        } else if !stream.eof() {
            TCPSenderStateSummary::SynAcked
        } else if sender.next_seqno_absolute() < stream.bytes_written() as u64 + 2 {
            TCPSenderStateSummary::SynAcked
        } else if sender.bytes_in_flight() != 0 {
            TCPSenderStateSummary::FinSent
        } else {
            TCPSenderStateSummary::FinAcked
        }
    }
}

impl PartialEq for TCPState {
    fn eq(&self, other: &Self) -> (r: bool) {
        self.sender == other.sender && self.receiver == other.receiver && self.active
            == other.active && self.linger_after_streams_finish
            == other.linger_after_streams_finish
    }
}

impl vstd::std_specs::cmp::PartialEqSpecImpl for TCPState {
    open spec fn obeys_eq_spec() -> bool {
        true
    }

    open spec fn eq_spec(&self, other: &TCPState) -> bool {
        self.sender_description() == other.sender_description() && self.receiver_description()
            == other.receiver_description() && self.is_active() == other.is_active()
            && self.lingers() == other.lingers()
    }
}

} // verus!
